use mast::auth::{
    eq_ignore_ascii_case, find_login_user, finish_login, login, register, signup, toml_valid_str, user_to_info,
    valid_email, valid_username, AuthError, LocalLoginRequest, SignupForm, SignupRequest, User,
};
use mast::config::Auth;
use mast::iac::UserPv;
use mast::rate_limit::RateLimiter;
use std::time::Duration;

fn methods(ms: &[&str]) -> Auth {
    let mut a = Auth::default();
    a.auth_methods = Some(ms.iter().map(|m| m.to_string()).collect());
    a
}

fn request(name: &str, email: Option<&str>, pwd: &str) -> SignupRequest {
    SignupRequest { username: name.to_string(), email: email.map(|e| e.to_string()), password: pwd.to_string() }
}

fn limiter(max: usize) -> RateLimiter {
    RateLimiter::new(Duration::from_secs(3600), max)
}

fn plain_user(hash: Option<&str>, email: Option<&str>) -> User {
    User { pwd_hash: hash.map(|h| h.to_string()), email: email.map(|e| e.to_string()), groups: None, userpv: Vec::new() }
}

#[test]
fn error_statuses_and_messages() {
    assert_eq!(AuthError::SignupDisabled.status(), 403);
    assert_eq!(AuthError::SignupDisabled.message(), "signup is disabled");
    assert_eq!(AuthError::TooManySignups.status(), 429);
    assert_eq!(AuthError::TooManySignups.message(), "too many signup attempts");
    assert_eq!(AuthError::UsernameSignupDisabled.status(), 403);
    assert_eq!(AuthError::UsernameSignupDisabled.message(), "username signup is not enabled");
    assert_eq!(AuthError::BadUsername.status(), 400);
    assert_eq!(AuthError::BadUsername.message(), "username must be 3-32 chars: letters, numbers, '-' or '_'");
    assert_eq!(AuthError::ShortPassword(8).status(), 400);
    assert_eq!(AuthError::ShortPassword(8).message(), "password must be at least 8 characters");
    assert_eq!(AuthError::EmailRequired.message(), "email is required");
    assert_eq!(AuthError::InvalidEmail.message(), "invalid email");
    assert_eq!(AuthError::UsernameTaken.status(), 409);
    assert_eq!(AuthError::UsernameTaken.message(), "username is already taken");
    assert_eq!(AuthError::EmailInUse.status(), 409);
    assert_eq!(AuthError::EmailInUse.message(), "email is already in use");
    assert_eq!(AuthError::InvalidCredentials.status(), 401);
    assert_eq!(AuthError::InvalidCredentials.message(), "invalid credentials");
    assert_eq!(AuthError::TooManyAttempts.status(), 429);
    assert_eq!(AuthError::TooManyAttempts.message(), "too many attempts, try again later");
    assert_eq!(AuthError::ServerError.status(), 500);
    assert_eq!(AuthError::ServerError.message(), "server error");
}

#[test]
fn emails() {
    assert!(valid_email("a@b.c"));
    assert!(valid_email("a@."));
    assert!(!valid_email(""));
    assert!(!valid_email("a b@c.d"));
    assert!(!valid_email("a@@b.c"));
    assert!(!valid_email("@b.c"));
    assert!(!valid_email("a@bc"));
    assert!(!valid_email("a@b.c@d"));
    assert!(!valid_email("a\"b@c.d"));
    assert!(!valid_email("a\\b@c.d"));
    assert!(!valid_email("ab.c"));
    let long = format!("{}@b.c", "a".repeat(251));
    assert!(!valid_email(&long));
    let fits = format!("{}@b.c", "a".repeat(250));
    assert!(valid_email(&fits));
    let wide = format!("{}@b.c", "é".repeat(126));
    assert!(!valid_email(&wide));
}

#[test]
fn usernames() {
    assert!(valid_username("abc"));
    assert!(valid_username("a-b_c9"));
    assert!(!valid_username("ab"));
    assert!(!valid_username(&"a".repeat(33)));
    assert!(valid_username(&"a".repeat(32)));
    assert!(!valid_username("a b"));
    assert!(!valid_username("ääb"));
}

#[test]
fn toml_strings() {
    assert_eq!(toml_valid_str("plain"), "\"plain\"");
    assert_eq!(toml_valid_str("a\"b\\c"), "\"a\\\"b\\\\c\"");
}

#[test]
fn ascii_case() {
    assert!(eq_ignore_ascii_case("HeLLo", "hello"));
    assert!(!eq_ignore_ascii_case("hello", "hell"));
    assert!(!eq_ignore_ascii_case("ä", "Ä"));
}

#[test]
fn info_of_a_user() {
    let u = User {
        pwd_hash: Some("h".to_string()),
        email: Some("e@x.y".to_string()),
        groups: Some(vec!["sudo".to_string()]),
        userpv: vec![UserPv { pv: 4, scopes: vec!["/a".to_string()] }],
    };
    let info = user_to_info("root".to_string(), &u);
    assert_eq!(info.username, "root");
    assert_eq!(info.email, Some("e@x.y".to_string()));
    assert_eq!(info.groups, vec!["sudo".to_string()]);
    assert_eq!(info.userpv.len(), 1);
    assert_eq!(info.userpv[0].pv, 4);
    assert_eq!(info.userpv[0].scopes, vec!["/a".to_string()]);
    let bare = user_to_info("x".to_string(), &plain_user(None, None));
    assert!(bare.groups.is_empty());
    assert_eq!(bare.email, None);
}

#[test]
fn finding_the_user_of_a_login_name() {
    let users = vec![
        ("Alice".to_string(), plain_user(None, Some("Alice@Mail.org"))),
        ("bob".to_string(), plain_user(None, None)),
    ];
    assert_eq!(find_login_user(&users, "alice"), Some(0));
    assert_eq!(find_login_user(&users, "BOB"), Some(1));
    assert_eq!(find_login_user(&users, "alice@mail.ORG"), Some(0));
    assert_eq!(find_login_user(&users, "carol"), None);
    assert_eq!(find_login_user(&users, "bob@x"), None);
}

#[test]
fn signup_refusals() {
    let auth = methods(&["username"]);
    let mut l = limiter(10);
    let r = signup(&mut l, 0, "ip", &auth, false, 8, &request("good", Some("g@x.y"), "password1"));
    assert_eq!(r.err(), Some(AuthError::SignupDisabled));
    let r = signup(&mut l, 0, "ip", &methods(&["github"]), true, 8, &request("good", Some("g@x.y"), "password1"));
    assert_eq!(r.err(), Some(AuthError::UsernameSignupDisabled));
    let r = signup(&mut l, 0, "ip", &Auth::default(), true, 8, &request("good", Some("g@x.y"), "password1"));
    assert_eq!(r.err(), Some(AuthError::UsernameSignupDisabled));
    let r = signup(&mut l, 0, "ip", &auth, true, 8, &request("ab", Some("g@x.y"), "password1"));
    assert_eq!(r.err(), Some(AuthError::BadUsername));
    let r = signup(&mut l, 0, "ip", &auth, true, 8, &request("good", Some("g@x.y"), "short"));
    assert_eq!(r.err(), Some(AuthError::ShortPassword(8)));
    let r = signup(&mut l, 0, "ip", &auth, true, 8, &request("good", None, "password1"));
    assert_eq!(r.err(), Some(AuthError::EmailRequired));
    let r = signup(&mut l, 0, "ip", &auth, true, 8, &request("good", Some("   "), "password1"));
    assert_eq!(r.err(), Some(AuthError::EmailRequired));
    let r = signup(&mut l, 0, "ip", &auth, true, 8, &request("good", Some("a@bc"), "password1"));
    assert_eq!(r.err(), Some(AuthError::InvalidEmail));
}

#[test]
fn signup_rate_limit_counts_every_attempt() {
    let auth = methods(&["username"]);
    let mut l = limiter(2);
    let r = signup(&mut l, 0, "ip", &auth, true, 8, &request("ab", None, "x"));
    assert_eq!(r.err(), Some(AuthError::BadUsername));
    let r = signup(&mut l, 1, "ip", &auth, true, 8, &request("ab", None, "x"));
    assert_eq!(r.err(), Some(AuthError::BadUsername));
    let r = signup(&mut l, 2, "ip", &auth, true, 8, &request("ab", None, "x"));
    assert_eq!(r.err(), Some(AuthError::TooManySignups));
    let r = signup(&mut l, 2, "other", &auth, true, 8, &request("ab", None, "x"));
    assert_eq!(r.err(), Some(AuthError::BadUsername));
}

#[test]
fn signup_then_login() {
    let mut auth = methods(&["username"]);
    auth.username_signup_requires_email = false;
    let mut l = limiter(10);
    let (form, hash) =
        signup(&mut l, 0, "ip", &auth, true, 8, &request("  Alice_1 ", Some("  Alice@Example.COM "), "correct horse")).unwrap();
    assert_eq!(form.username, "Alice_1");
    assert_eq!(form.email, Some("alice@example.com".to_string()));
    assert!(hash.starts_with("$argon2"));

    let users = vec![("Alice_1".to_string(), plain_user(Some(&hash), form.email.as_deref()))];
    let mut ip_l = RateLimiter::new(Duration::from_secs(300), 2);
    let mut user_l = RateLimiter::new(Duration::from_secs(900), 10);

    let wrong = LocalLoginRequest { username: "alice_1".to_string(), password: "wrong".to_string() };
    assert_eq!(login(&mut ip_l, 0, &mut user_l, 0, "1.2.3.4", &users, &wrong).err(), Some(AuthError::InvalidCredentials));
    assert!(ip_l.is_allowed_at("1.2.3.4", 1));

    let right = LocalLoginRequest { username: "ALICE@example.com".to_string(), password: "correct horse".to_string() };
    let info = login(&mut ip_l, 1, &mut user_l, 1, "1.2.3.4", &users, &right).unwrap();
    assert_eq!(info.username, "Alice_1");
    assert_eq!(info.email, Some("alice@example.com".to_string()));
    // the right password cleared the failed attempt
    assert!(ip_l.hit_at("1.2.3.4", 2));
    assert!(ip_l.hit_at("1.2.3.4", 3));
    assert_eq!(login(&mut ip_l, 4, &mut user_l, 4, "1.2.3.4", &users, &right).err(), Some(AuthError::TooManyAttempts));
}

#[test]
fn login_refusals_before_the_password() {
    let users = vec![
        ("nohash".to_string(), plain_user(None, None)),
        ("badhash".to_string(), plain_user(Some("not a phc string"), None)),
    ];
    let mut ip_l = limiter(5);
    let mut user_l = limiter(5);
    let req = |n: &str| LocalLoginRequest { username: n.to_string(), password: "pw".to_string() };
    assert_eq!(login(&mut ip_l, 0, &mut user_l, 0, "ip", &users, &req("ghost")).err(), Some(AuthError::InvalidCredentials));
    assert_eq!(login(&mut ip_l, 0, &mut user_l, 0, "ip", &users, &req("nohash")).err(), Some(AuthError::InvalidCredentials));
    assert_eq!(login(&mut ip_l, 0, &mut user_l, 0, "ip", &users, &req("badhash")).err(), Some(AuthError::ServerError));
    // none of these counted against the limits
    assert!(ip_l.is_allowed_at("ip", 0));
    let mut blocked = limiter(0);
    assert_eq!(login(&mut blocked, 0, &mut user_l, 0, "ip", &users, &req("nohash")).err(), Some(AuthError::InvalidCredentials));
    let mut ip_one = limiter(1);
    assert!(ip_one.hit_at("ip", 0));
    assert_eq!(login(&mut ip_one, 0, &mut user_l, 0, "ip", &users, &req("nohash")).err(), Some(AuthError::TooManyAttempts));
}

#[test]
fn the_end_of_a_login() {
    let user = plain_user(Some("h"), None);
    let name = "u".to_string();
    let mut ip_l = limiter(1);
    let mut user_l = limiter(1);
    assert_eq!(finish_login(&mut ip_l, 0, &mut user_l, 0, "ip", &name, &user, None).err(), Some(AuthError::ServerError));
    assert!(ip_l.is_allowed_at("ip", 0));
    assert_eq!(
        finish_login(&mut ip_l, 0, &mut user_l, 0, "ip", &name, &user, Some(false)).err(),
        Some(AuthError::InvalidCredentials)
    );
    assert!(!ip_l.is_allowed_at("ip", 0));
    assert!(!user_l.is_allowed_at("u", 0));
    let info = finish_login(&mut ip_l, 0, &mut user_l, 0, "ip", &name, &user, Some(true)).unwrap();
    assert_eq!(info.username, "u");
    assert!(ip_l.is_allowed_at("ip", 0));
    assert!(user_l.is_allowed_at("u", 0));
}

#[test]
fn registering_a_user() {
    let users = vec![("Taken".to_string(), plain_user(Some("h"), Some("used@x.y")))];
    let form = SignupForm { username: "new".to_string(), email: Some("n\"ew@x.y".to_string()) };
    assert_eq!(
        register("", &users, &form, "HASH").unwrap(),
        "[\"new\"]\npwd_hash = \"HASH\"\nemail = \"n\\\"ew@x.y\"\n"
    );
    let form = SignupForm { username: "new".to_string(), email: None };
    assert_eq!(register("[a]\nx = 1", &users, &form, "H").unwrap(), "[a]\nx = 1\n[\"new\"]\npwd_hash = \"H\"\n");
    assert_eq!(register("[a]\n", &users, &form, "H").unwrap(), "[a]\n[\"new\"]\npwd_hash = \"H\"\n");
    let form = SignupForm { username: "TAKEN".to_string(), email: None };
    assert_eq!(register("", &users, &form, "H").err(), Some(AuthError::UsernameTaken));
    let form = SignupForm { username: "other".to_string(), email: Some("USED@x.y".to_string()) };
    assert_eq!(register("", &users, &form, "H").err(), Some(AuthError::EmailInUse));
}
