use argon2::{Argon2, PasswordHash, PasswordVerifier};
use mast::install::{handle_install, install_files, InstallOutcome, InstallRequest};

fn form(policy: &str, storage: &str) -> InstallRequest {
    InstallRequest {
        site_name: "My Wiki".to_string(),
        sudo_username: "root".to_string(),
        sudo_email: "root@x.y".to_string(),
        sudo_pwd: "pw".to_string(),
        sudo_pwd_confirm: "pw".to_string(),
        acl_policy: policy.to_string(),
        auth_methods: vec!["username".to_string(), "github".to_string()],
        storage_type: storage.to_string(),
    }
}

#[test]
fn the_files_of_an_open_wiki() {
    let f = install_files(&form("open", "local"), "HASH".to_string());
    assert_eq!(
        f.config,
        "# ----- WIKI SETUP -----\n[basic]\nname = \"My Wiki\"\n\n[auth]\nauth_methods = [\"username\", \"github\"]\nbase_user_permission = 4\nauth_user_permission = 4\n\n[storage]\ntype = \"local_git\"\nlocation = \".wiki/wiki\"\n\n# ----- WIKI CUSTOMISATION -----\n[shell]\nshell = \"default\"\n"
    );
    assert_eq!(f.users, "[sudo]\npwd_hash = \"HASH\"\nemail = \"root@x.y\"\ngroups = [\"sudo\"]\n");
    assert_eq!(
        f.acl,
        "# Auto-generated IAC list\n# Read the IAC documentation on the mast website to learn more.\n# If this file has been manually created/edited, this comment should also be manually removed.\n[\"/\"]\n4 = [\"ALL\", \"ALL_AUTH\"]\n"
    );
    assert_eq!(f.pwd_hash, "HASH");
}

#[test]
fn policies_and_storage_kinds() {
    let f = install_files(&form("public", "remote_git"), "H".to_string());
    assert!(f.config.contains("base_user_permission = 1\nauth_user_permission = 4\n"));
    assert!(f.config.contains("type = \"remote_git\""));
    assert!(f.acl.ends_with("[\"/\"]\n1 = [\"ALL\"]\n4 = [\"ALL_AUTH\"]\n"));
    let f = install_files(&form("private", "other"), "H".to_string());
    assert!(f.config.contains("base_user_permission = 0\nauth_user_permission = 1\n"));
    assert!(f.config.contains("type = \"local_git\""));
    assert!(f.acl.ends_with("[\"/\"]\n0 = [\"ALL\"]\n1 = [\"ALL_AUTH\"]\n"));
    let mut r = form("odd", "local");
    r.auth_methods = Vec::new();
    let f = install_files(&r, "H".to_string());
    assert!(f.config.contains("auth_methods = []\nbase_user_permission = 0\nauth_user_permission = 0\n"));
    assert!(f.acl.ends_with("manually removed.\n\n"));
}

#[test]
fn install_refusals() {
    assert!(matches!(handle_install(&form("open", "local"), true), InstallOutcome::AlreadyInstalled));
    let mut r = form("open", "local");
    r.site_name = String::new();
    let o = handle_install(&r, false);
    assert!(matches!(o, InstallOutcome::MissingFields));
    assert_eq!(o.redirect(), Some("/install?error=missing_fields"));
    let mut r = form("open", "local");
    r.storage_type = String::new();
    assert!(matches!(handle_install(&r, false), InstallOutcome::MissingFields));
    let mut r = form("open", "local");
    r.sudo_pwd_confirm = "other".to_string();
    let o = handle_install(&r, false);
    assert!(matches!(o, InstallOutcome::PasswordMismatch));
    assert_eq!(o.redirect(), Some("/install?error=password_mismatch"));
    assert_eq!(InstallOutcome::AlreadyInstalled.redirect(), Some("/"));
}

#[test]
fn install_writes_hashed_files() {
    match handle_install(&form("open", "local"), false) {
        InstallOutcome::Write(f) => {
            assert!(f.pwd_hash.starts_with("$argon2"));
            let parsed = PasswordHash::new(&f.pwd_hash).unwrap();
            assert!(Argon2::default().verify_password(b"pw", &parsed).is_ok());
            assert!(Argon2::default().verify_password(b"root", &parsed).is_err());
            assert_eq!(f.users, format!("[sudo]\npwd_hash = \"{}\"\nemail = \"root@x.y\"\ngroups = [\"sudo\"]\n", f.pwd_hash));
            assert!(f.config.contains("name = \"My Wiki\""));
        }
        _ => panic!("expected files"),
    }
}
