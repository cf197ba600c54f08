//! The wiki's configuration: its sections, their defaults, where its
//! directory is, and the checks a configuration must pass before it is
//! saved.

use vstd::prelude::*;
use vstd::string::*;
use crate::text::push_str;

verus! {

/// Whether the configuration file was found when the server started.
pub struct MastInit {
    pub ready: bool,
}

/// Records, at start-up, whether the configuration file exists.
pub fn init(config_exists: bool) -> (r: MastInit)
    ensures
        r.ready == config_exists,
{
    MastInit { ready: config_exists }
}

/// Records that an installation has written the configuration: from now
/// on the wiki counts as installed.
pub fn mark_installed(state: &mut MastInit)
    ensures
        final(state).ready,
{
    state.ready = true;
}

/// Whether the wiki has been installed (its configuration exists).
pub fn initcheck(state: &MastInit) -> (r: bool)
    ensures
        r == state.ready,
{
    state.ready
}

/// The `[basic]` section.
#[derive(Debug, Clone)]
pub struct Basic {
    pub name: String,
    pub image_as_home: bool,
    pub image_path: Option<String>,
    pub pinned_pages: Option<Vec<String>>,
    pub wikipage_directory_prefix: String,
    pub default_wikipage: String,
}

impl Default for Basic {
    fn default() -> (b: Basic)
        ensures
            b.name@ == Seq::<char>::empty(),
            !b.image_as_home,
            b.image_path is None,
            b.pinned_pages is None,
            b.wikipage_directory_prefix@ == "/wiki/"@,
            b.default_wikipage@ == "home"@,
    {
        Basic {
            name: String::new(),
            image_as_home: false,
            image_path: None,
            pinned_pages: None,
            wikipage_directory_prefix: "/wiki/".to_owned(),
            default_wikipage: "home".to_owned(),
        }
    }
}

/// The `[auth]` section.
#[derive(Debug, Clone)]
pub struct Auth {
    pub auth_methods: Option<Vec<String>>,
    pub users_file: String,
    pub username_signup_requires_email: bool,
    pub base_user_permission: Option<char>,
    pub auth_user_permission: Option<char>,
}

impl Default for Auth {
    fn default() -> (a: Auth)
        ensures
            a.auth_methods is None,
            a.users_file@ == "conf/users.toml"@,
            a.username_signup_requires_email,
            a.base_user_permission is None,
            a.auth_user_permission is None,
    {
        Auth {
            auth_methods: None,
            users_file: "conf/users.toml".to_owned(),
            username_signup_requires_email: true,
            base_user_permission: None,
            auth_user_permission: None,
        }
    }
}

/// The `[storage]` section (`storage_type` is written `type`).
#[derive(Debug, Clone)]
pub struct Storage {
    pub storage_type: Option<String>,
    pub location: Option<char>,
}

impl Default for Storage {
    fn default() -> (s: Storage)
        ensures
            s.storage_type is None,
            s.location is None,
    {
        Storage { storage_type: None, location: None }
    }
}

/// The `[shell]` section: the name of the page shell.
#[derive(Debug, Clone)]
pub struct Shell {
    pub shell: String,
}

impl Default for Shell {
    fn default() -> (s: Shell)
        ensures
            s.shell@ == "default"@,
    {
        Shell { shell: "default".to_owned() }
    }
}

/// The whole configuration, with the directory it was read from.
#[derive(Debug, Clone)]
pub struct Config {
    pub basic: Basic,
    pub auth: Auth,
    pub storage: Storage,
    pub shell: Shell,
    pub base_dir: String,
}

/// The message for an empty required text; the format names the value
/// itself, which is empty.
pub open spec fn please_set(val: Seq<char>) -> Seq<char> {
    "Please set "@ + val
}

/// The message for a flag that needs a value it lacks; the format shows
/// the flag and the value as they are (`true`, `None`).
pub open spec fn needs_value_message() -> Seq<char> {
    "When true is set to true (or defaulted to true), None must be set."@
}

/// What the checks of the `[basic]` section report, in order.
pub open spec fn spec_validate_basic(name: Seq<char>, image_as_home: bool, image_path_set: bool) -> Seq<Seq<char>> {
    let first = if name.len() == 0 { seq![please_set(name)] } else { Seq::empty() };
    let second = if image_as_home && !image_path_set { seq![needs_value_message()] } else { Seq::empty() };
    first + second
}

impl Config {
    /// The configuration problems to fix before saving, in order; empty
    /// when there are none.
    pub fn validate(&self) -> (errors: Vec<String>)
        ensures
            errors@.map_values(|e: String| e@) == spec_validate_basic(
                self.basic.name@,
                self.basic.image_as_home,
                self.basic.image_path is Some,
            ),
    {
        let mut errors: Vec<String> = Vec::new();
        let mut basic = self.validate_basic();
        errors.append(&mut basic);
        errors
    }

    fn validate_basic(&self) -> (e: Vec<String>)
        ensures
            e@.map_values(|e: String| e@) == spec_validate_basic(
                self.basic.name@,
                self.basic.image_as_home,
                self.basic.image_path is Some,
            ),
    {
        let mut e: Vec<String> = Vec::new();
        if self.basic.name.as_str().unicode_len() == 0 {
            let mut m = String::new();
            push_str(&mut m, "Please set ");
            push_str(&mut m, self.basic.name.as_str());
            e.push(m);
        }
        let ghost e1 = e@.map_values(|x: String| x@);
        if self.basic.image_as_home && self.basic.image_path.is_none() {
            let mut m = String::new();
            push_str(&mut m, "When true is set to true (or defaulted to true), None must be set.");
            e.push(m);
        }
        proof {
            let name = self.basic.name@;
            let first: Seq<Seq<char>> = if name.len() == 0 { seq![please_set(name)] } else { Seq::empty() };
            assert(e1 =~= first);
        }
        assert(e@.map_values(|x: String| x@) =~= spec_validate_basic(
            self.basic.name@,
            self.basic.image_as_home,
            self.basic.image_path is Some,
        ));
        e
    }
}

/// What `Path::parent` gives for a path, as text: the path without its
/// last component, or nothing for a root or an empty path.
pub uninterp spec fn path_parent(p: Seq<char>) -> Option<Seq<char>>;

/// `std::path::Path::parent` on a path given as text. The contract names
/// the result (`path_parent`) and says nothing more of it.
#[verifier::external_body]
fn parent_of(p: &str) -> (r: Option<String>)
    ensures
        match r {
            Some(s) => path_parent(p@) == Some(s@),
            None => path_parent(p@) is None,
        },
{
    std::path::Path::new(p).parent().map(|q| q.to_string_lossy().into_owned())
}

/// The directory a parent path names: the path itself, or the current
/// directory `.` when there is none.
pub fn dir_or_current(parent: Option<String>) -> (r: String)
    ensures
        r@ == match parent {
            Some(s) => s@,
            None => "."@,
        },
{
    match parent {
        Some(s) => s,
        None => ".".to_owned(),
    }
}

/// The wiki's base directory: the directory of the configuration file.
pub fn base_dir(config_path: &str) -> (r: String)
    ensures
        r@ == match path_parent(config_path@) {
            Some(s) => s,
            None => "."@,
        },
{
    dir_or_current(parent_of(config_path))
}

} // verus!
