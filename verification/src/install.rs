//! Installation: the checks of the install form and the three files it
//! writes (configuration, user file with the sudo account, access list).

use vstd::prelude::*;
use vstd::string::*;
use crate::auth::{argon2_verdict, hash_password};
use vstd::utf8::encode_utf8;
use crate::chars::str_eq;
use crate::text::push_str;

verus! {

/// The install form.
#[derive(Debug, Clone)]
pub struct InstallRequest {
    pub site_name: String,
    pub sudo_username: String,
    pub sudo_email: String,
    pub sudo_pwd: String,
    pub sudo_pwd_confirm: String,
    pub acl_policy: String,
    pub auth_methods: Vec<String>,
    pub storage_type: String,
}

/// The files an installation writes, and the sudo password's hash.
#[derive(Debug, Clone)]
pub struct InstallFiles {
    pub config: String,
    pub users: String,
    pub acl: String,
    pub pwd_hash: String,
}

/// What an install request leads to.
#[derive(Debug, Clone)]
pub enum InstallOutcome {
    /// Already installed: back to the home page.
    AlreadyInstalled,
    /// A required field is empty.
    MissingFields,
    /// The two passwords differ.
    PasswordMismatch,
    /// The password could not be hashed.
    HashFailed,
    /// The files to write.
    Write(InstallFiles),
}

impl InstallOutcome {
    /// Where the browser is sent: the home page, or the form with the
    /// error; nothing when hashing failed.
    pub fn redirect(&self) -> (r: Option<&'static str>)
        ensures
            match self {
                InstallOutcome::AlreadyInstalled => r == Some("/"),
                InstallOutcome::MissingFields => r == Some("/install?error=missing_fields"),
                InstallOutcome::PasswordMismatch => r == Some("/install?error=password_mismatch"),
                InstallOutcome::HashFailed => r is None,
                InstallOutcome::Write(_) => r == Some("/"),
            },
    {
        match self {
            InstallOutcome::AlreadyInstalled => Some("/"),
            InstallOutcome::MissingFields => Some("/install?error=missing_fields"),
            InstallOutcome::PasswordMismatch => Some("/install?error=password_mismatch"),
            InstallOutcome::HashFailed => None,
            InstallOutcome::Write(_) => Some("/"),
        }
    }
}

/// The base and authenticated permissions (raw values, as text) and the
/// root access list of an access policy.
pub open spec fn spec_policy(policy: Seq<char>) -> (Seq<char>, Seq<char>, Seq<char>) {
    if policy == "open"@ {
        ("4"@, "4"@, "[\"/\"]\n4 = [\"ALL\", \"ALL_AUTH\"]"@)
    } else if policy == "public"@ {
        ("1"@, "4"@, "[\"/\"]\n1 = [\"ALL\"]\n4 = [\"ALL_AUTH\"]"@)
    } else if policy == "private"@ {
        ("0"@, "1"@, "[\"/\"]\n0 = [\"ALL\"]\n1 = [\"ALL_AUTH\"]"@)
    } else {
        ("0"@, "0"@, ""@)
    }
}

/// The storage kind the configuration names.
pub open spec fn spec_storage_kind(t: Seq<char>) -> Seq<char> {
    if t == "remote_git"@ {
        "remote_git"@
    } else {
        "local_git"@
    }
}

/// The authentication methods as a TOML list body: each quoted, joined
/// by `, `.
pub open spec fn quoted_list(ms: Seq<Seq<char>>) -> Seq<char>
    decreases ms.len(),
{
    if ms.len() == 0 {
        Seq::empty()
    } else if ms.len() == 1 {
        seq!['"'] + ms[0] + seq!['"']
    } else {
        quoted_list(ms.drop_last()) + seq![',', ' ', '"'] + ms.last() + seq!['"']
    }
}

pub open spec fn strings_view(v: Seq<String>) -> Seq<Seq<char>> {
    v.map_values(|s: String| s@)
}

/// The configuration file of a new wiki.
pub open spec fn spec_config_file(site: Seq<char>, methods: Seq<char>, base: Seq<char>, auth: Seq<char>, storage: Seq<char>) -> Seq<char> {
    "# ----- WIKI SETUP -----\n[basic]\nname = \""@ + site + "\"\n\n[auth]\nauth_methods = ["@ + methods + "]\nbase_user_permission = "@ + base + "\nauth_user_permission = "@ + auth + "\n\n[storage]\ntype = \""@ + storage + "\"\nlocation = \".wiki/wiki\"\n\n# ----- WIKI CUSTOMISATION -----\n[shell]\nshell = \"default\"\n"@
}

/// The user file of a new wiki: the sudo account.
pub open spec fn spec_users_file(hash: Seq<char>, email: Seq<char>) -> Seq<char> {
    "[sudo]\npwd_hash = \""@ + hash + "\"\nemail = \""@ + email + "\"\ngroups = [\"sudo\"]\n"@
}

/// The access list of a new wiki.
pub open spec fn spec_acl_file(iac: Seq<char>) -> Seq<char> {
    "# Auto-generated IAC list\n# Read the IAC documentation on the mast website to learn more.\n# If this file has been manually created/edited, this comment should also be manually removed.\n"@ + iac + "\n"@
}

/// The three files of an installation, given the sudo password's hash.
pub open spec fn install_files_match(f: InstallFiles, req: InstallRequest, hash: Seq<char>) -> bool {
    let (base, auth, iac) = spec_policy(req.acl_policy@);
    &&& f.config@ == spec_config_file(
        req.site_name@,
        quoted_list(strings_view(req.auth_methods@)),
        base,
        auth,
        spec_storage_kind(req.storage_type@),
    )
    &&& f.users@ == spec_users_file(hash, req.sudo_email@)
    &&& f.acl@ == spec_acl_file(iac)
    &&& f.pwd_hash@ == hash
}

/// The authentication methods as a TOML list body.
fn methods_list(ms: &Vec<String>) -> (r: String)
    ensures
        r@ == quoted_list(strings_view(ms@)),
{
    let mut r = String::new();
    let mut i: usize = 0;
    while i < ms.len()
        invariant
            i <= ms@.len(),
            r@ == quoted_list(strings_view(ms@).subrange(0, i as int)),
        decreases ms@.len() - i,
    {
        let ghost before = r@;
        if i > 0 {
            push_str(&mut r, ", ");
        }
        push_str(&mut r, "\"");
        push_str(&mut r, ms[i].as_str());
        push_str(&mut r, "\"");
        proof {
            reveal_strlit(", ");
            reveal_strlit("\"");
            let sv = strings_view(ms@);
            assert(sv.subrange(0, i + 1).drop_last() =~= sv.subrange(0, i as int));
            if i == 0 {
                assert(r@ =~= quoted_list(sv.subrange(0, 1)));
            } else {
                assert(r@ =~= quoted_list(sv.subrange(0, i + 1)));
            }
        }
        i = i + 1;
    }
    proof {
        assert(strings_view(ms@).subrange(0, i as int) =~= strings_view(ms@));
    }
    r
}

/// The files of an installation from the form and the sudo password's
/// hash.
pub fn install_files(req: &InstallRequest, hash: String) -> (f: InstallFiles)
    ensures
        install_files_match(f, *req, hash@),
{
    let (base, auth, iac): (&str, &str, &str) = if str_eq(req.acl_policy.as_str(), "open") {
        ("4", "4", "[\"/\"]\n4 = [\"ALL\", \"ALL_AUTH\"]")
    } else if str_eq(req.acl_policy.as_str(), "public") {
        ("1", "4", "[\"/\"]\n1 = [\"ALL\"]\n4 = [\"ALL_AUTH\"]")
    } else if str_eq(req.acl_policy.as_str(), "private") {
        ("0", "1", "[\"/\"]\n0 = [\"ALL\"]\n1 = [\"ALL_AUTH\"]")
    } else {
        ("0", "0", "")
    };
    let storage: &str = if str_eq(req.storage_type.as_str(), "local") {
        "local_git"
    } else if str_eq(req.storage_type.as_str(), "remote_git") {
        "remote_git"
    } else {
        "local_git"
    };
    proof {
        if req.storage_type@ == "remote_git"@ {
            reveal_strlit("remote_git");
            reveal_strlit("local");
        }
    }
    let methods = methods_list(&req.auth_methods);
    let mut config = String::new();
    push_str(&mut config, "# ----- WIKI SETUP -----\n[basic]\nname = \"");
    push_str(&mut config, req.site_name.as_str());
    push_str(&mut config, "\"\n\n[auth]\nauth_methods = [");
    push_str(&mut config, methods.as_str());
    push_str(&mut config, "]\nbase_user_permission = ");
    push_str(&mut config, base);
    push_str(&mut config, "\nauth_user_permission = ");
    push_str(&mut config, auth);
    push_str(&mut config, "\n\n[storage]\ntype = \"");
    push_str(&mut config, storage);
    push_str(&mut config, "\"\nlocation = \".wiki/wiki\"\n\n# ----- WIKI CUSTOMISATION -----\n[shell]\nshell = \"default\"\n");
    let mut users = String::new();
    push_str(&mut users, "[sudo]\npwd_hash = \"");
    push_str(&mut users, hash.as_str());
    push_str(&mut users, "\"\nemail = \"");
    push_str(&mut users, req.sudo_email.as_str());
    push_str(&mut users, "\"\ngroups = [\"sudo\"]\n");
    let mut acl = String::new();
    push_str(&mut acl, "# Auto-generated IAC list\n# Read the IAC documentation on the mast website to learn more.\n# If this file has been manually created/edited, this comment should also be manually removed.\n");
    push_str(&mut acl, iac);
    push_str(&mut acl, "\n");
    proof {
        assert(config@ =~= spec_config_file(
            req.site_name@,
            quoted_list(strings_view(req.auth_methods@)),
            spec_policy(req.acl_policy@).0,
            spec_policy(req.acl_policy@).1,
            spec_storage_kind(req.storage_type@),
        ));
        assert(users@ =~= spec_users_file(hash@, req.sudo_email@));
        assert(acl@ =~= spec_acl_file(spec_policy(req.acl_policy@).2));
    }
    InstallFiles { config, users, acl, pwd_hash: hash }
}

/// Whether a text is empty.
fn is_empty_text(s: &String) -> (r: bool)
    ensures
        r == (s@.len() == 0),
{
    s.as_str().unicode_len() == 0
}

/// An install request: refused when the wiki is installed already, when
/// the site name, the sudo user name or the storage type is empty, or
/// when the two passwords differ; else the files to write (with a fresh
/// hash that the sudo password checks against), or a failure when hashing
/// fails (only for a password longer than `u32::MAX` bytes).
pub fn handle_install(req: &InstallRequest, installed: bool) -> (r: InstallOutcome)
    ensures
        installed ==> r is AlreadyInstalled,
        !installed && (req.site_name@.len() == 0 || req.sudo_username@.len() == 0 || req.storage_type@.len() == 0)
            ==> r is MissingFields,
        !installed && !(req.site_name@.len() == 0 || req.sudo_username@.len() == 0 || req.storage_type@.len() == 0)
            && req.sudo_pwd@ != req.sudo_pwd_confirm@ ==> r is PasswordMismatch,
        !installed && !(req.site_name@.len() == 0 || req.sudo_username@.len() == 0 || req.storage_type@.len() == 0)
            && req.sudo_pwd@ == req.sudo_pwd_confirm@ ==> ((r is HashFailed && encode_utf8(req.sudo_pwd@).len() > 0xFFFF_FFFF)
            || (r matches InstallOutcome::Write(f)
            && install_files_match(f, *req, f.pwd_hash@)
            && argon2_verdict(encode_utf8(req.sudo_pwd@), f.pwd_hash@) == Some(true))),
{
    if installed {
        return InstallOutcome::AlreadyInstalled;
    }
    if is_empty_text(&req.site_name) || is_empty_text(&req.sudo_username) || is_empty_text(&req.storage_type) {
        return InstallOutcome::MissingFields;
    }
    if !str_eq(req.sudo_pwd.as_str(), req.sudo_pwd_confirm.as_str()) {
        return InstallOutcome::PasswordMismatch;
    }
    match hash_password(req.sudo_pwd.as_str()) {
        Some(h) => InstallOutcome::Write(install_files(req, h)),
        None => InstallOutcome::HashFailed,
    }
}

} // verus!
