use mast::config::{base_dir, dir_or_current, init, initcheck, mark_installed, Auth, Basic, Config, Shell, Storage};

fn config_with(basic: Basic) -> Config {
    Config {
        basic,
        auth: Auth::default(),
        storage: Storage::default(),
        shell: Shell::default(),
        base_dir: ".".to_string(),
    }
}

#[test]
fn defaults() {
    let b = Basic::default();
    assert_eq!(b.name, "");
    assert!(!b.image_as_home);
    assert_eq!(b.image_path, None);
    assert_eq!(b.pinned_pages, None);
    assert_eq!(b.wikipage_directory_prefix, "/wiki/");
    assert_eq!(b.default_wikipage, "home");
    let a = Auth::default();
    assert_eq!(a.auth_methods, None);
    assert_eq!(a.users_file, "conf/users.toml");
    assert!(a.username_signup_requires_email);
    assert_eq!(a.base_user_permission, None);
    assert_eq!(a.auth_user_permission, None);
    let s = Storage::default();
    assert_eq!(s.storage_type, None);
    assert_eq!(s.location, None);
    assert_eq!(Shell::default().shell, "default");
}

#[test]
fn validate_reports_an_empty_name() {
    let c = config_with(Basic::default());
    assert_eq!(c.validate(), vec!["Please set ".to_string()]);
}

#[test]
fn validate_reports_a_missing_image() {
    let mut b = Basic::default();
    b.name = "Wiki".to_string();
    b.image_as_home = true;
    let c = config_with(b);
    assert_eq!(
        c.validate(),
        vec!["When true is set to true (or defaulted to true), None must be set.".to_string()]
    );
}

#[test]
fn validate_reports_both_in_order() {
    let mut b = Basic::default();
    b.image_as_home = true;
    let c = config_with(b);
    assert_eq!(c.validate().len(), 2);
    assert_eq!(c.validate()[0], "Please set ");
}

#[test]
fn validate_accepts_a_complete_basic_section() {
    let mut b = Basic::default();
    b.name = "Wiki".to_string();
    b.image_as_home = true;
    b.image_path = Some("img.png".to_string());
    assert!(config_with(b).validate().is_empty());
}

#[test]
fn base_dir_is_the_config_directory() {
    assert_eq!(base_dir("./mast-config.toml"), ".");
    assert_eq!(base_dir("/etc/mast/mast-config.toml"), "/etc/mast");
    assert_eq!(base_dir("mast-config.toml"), "");
    assert_eq!(base_dir("/"), ".");
    assert_eq!(dir_or_current(None), ".");
    assert_eq!(dir_or_current(Some("x".to_string())), "x");
}

#[test]
fn init_records_whether_installed() {
    assert!(initcheck(&init(true)));
    assert!(!initcheck(&init(false)));
    let mut state = init(false);
    mark_installed(&mut state);
    assert!(initcheck(&state));
}
