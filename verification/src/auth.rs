//! Accounts: the checks of a sign-up and of a log-in, with their rate
//! limits, the user file's new section, and what the client is told about
//! a user. Passwords are hashed and checked with argon2.

use vstd::prelude::*;
use vstd::string::*;
use vstd::utf8::encode_utf8;
use argon2::Argon2;
use argon2::password_hash::{PasswordHash, PasswordHasher, PasswordVerifier, SaltString};
use argon2::password_hash::rand_core::OsRng;
use crate::chars::{str_chars, str_eq, chars_to_string, trim};
use crate::config::Auth;
use crate::iac::{strs_view, userpv_view, UserPv};
use crate::pages::{replace_all, spec_replace, opt_view};
use crate::rate_limit::{spec_hit, spec_is_allowed, RateLimiter};
use crate::renderer::{ascii_lower, is_ascii_digit, is_ascii_letter, to_lowercase, trim_bounds};
use crate::text::{push_decimal, push_str, decimal};
use crate::chars::is_ws;

verus! {

/// A user as the user file holds it.
#[derive(Debug, Clone)]
pub struct User {
    pub pwd_hash: Option<String>,
    pub email: Option<String>,
    pub groups: Option<Vec<String>>,
    pub userpv: Vec<UserPv>,
}

/// A log-in with a user name (or an e-mail address) and a password.
#[derive(Debug, Clone)]
pub struct LocalLoginRequest {
    pub username: String,
    pub password: String,
}

/// A sign-up.
#[derive(Debug, Clone)]
pub struct SignupRequest {
    pub username: String,
    pub email: Option<String>,
    pub password: String,
}

/// What the client is told about a user.
#[derive(Debug, Clone)]
pub struct UserInfo {
    pub username: String,
    pub email: Option<String>,
    pub groups: Vec<String>,
    pub userpv: Vec<UserPv>,
}

/// The user name and e-mail address of an accepted sign-up.
#[derive(Debug, Clone)]
pub struct SignupForm {
    pub username: String,
    pub email: Option<String>,
}

/// Why a sign-up or a log-in was refused.
#[derive(Debug, Clone, Copy, PartialEq, Eq, Structural)]
pub enum AuthError {
    SignupDisabled,
    TooManySignups,
    UsernameSignupDisabled,
    BadUsername,
    ShortPassword(u32),
    EmailRequired,
    InvalidEmail,
    UsernameTaken,
    EmailInUse,
    InvalidCredentials,
    TooManyAttempts,
    ServerError,
}

/// The HTTP status of a refusal.
pub open spec fn spec_error_status(e: AuthError) -> u16 {
    match e {
        AuthError::SignupDisabled => 403,
        AuthError::TooManySignups => 429,
        AuthError::UsernameSignupDisabled => 403,
        AuthError::BadUsername => 400,
        AuthError::ShortPassword(_) => 400,
        AuthError::EmailRequired => 400,
        AuthError::InvalidEmail => 400,
        AuthError::UsernameTaken => 409,
        AuthError::EmailInUse => 409,
        AuthError::InvalidCredentials => 401,
        AuthError::TooManyAttempts => 429,
        AuthError::ServerError => 500,
    }
}

/// The message of a refusal.
pub open spec fn spec_error_message(e: AuthError) -> Seq<char> {
    match e {
        AuthError::SignupDisabled => "signup is disabled"@,
        AuthError::TooManySignups => "too many signup attempts"@,
        AuthError::UsernameSignupDisabled => "username signup is not enabled"@,
        AuthError::BadUsername => "username must be 3-32 chars: letters, numbers, '-' or '_'"@,
        AuthError::ShortPassword(n) => "password must be at least "@ + decimal(n as nat) + " characters"@,
        AuthError::EmailRequired => "email is required"@,
        AuthError::InvalidEmail => "invalid email"@,
        AuthError::UsernameTaken => "username is already taken"@,
        AuthError::EmailInUse => "email is already in use"@,
        AuthError::InvalidCredentials => "invalid credentials"@,
        AuthError::TooManyAttempts => "too many attempts, try again later"@,
        AuthError::ServerError => "server error"@,
    }
}

impl AuthError {
    /// The HTTP status of the refusal.
    pub fn status(&self) -> (s: u16)
        ensures
            s == spec_error_status(*self),
    {
        match self {
            AuthError::SignupDisabled => 403,
            AuthError::TooManySignups => 429,
            AuthError::UsernameSignupDisabled => 403,
            AuthError::BadUsername => 400,
            AuthError::ShortPassword(_) => 400,
            AuthError::EmailRequired => 400,
            AuthError::InvalidEmail => 400,
            AuthError::UsernameTaken => 409,
            AuthError::EmailInUse => 409,
            AuthError::InvalidCredentials => 401,
            AuthError::TooManyAttempts => 429,
            AuthError::ServerError => 500,
        }
    }

    /// The message of the refusal.
    pub fn message(&self) -> (m: String)
        ensures
            m@ == spec_error_message(*self),
    {
        let mut m = String::new();
        match self {
            AuthError::SignupDisabled => push_str(&mut m, "signup is disabled"),
            AuthError::TooManySignups => push_str(&mut m, "too many signup attempts"),
            AuthError::UsernameSignupDisabled => push_str(&mut m, "username signup is not enabled"),
            AuthError::BadUsername => push_str(&mut m, "username must be 3-32 chars: letters, numbers, '-' or '_'"),
            AuthError::ShortPassword(n) => {
                push_str(&mut m, "password must be at least ");
                push_decimal(&mut m, *n as usize);
                push_str(&mut m, " characters");
            },
            AuthError::EmailRequired => push_str(&mut m, "email is required"),
            AuthError::InvalidEmail => push_str(&mut m, "invalid email"),
            AuthError::UsernameTaken => push_str(&mut m, "username is already taken"),
            AuthError::EmailInUse => push_str(&mut m, "email is already in use"),
            AuthError::InvalidCredentials => push_str(&mut m, "invalid credentials"),
            AuthError::TooManyAttempts => push_str(&mut m, "too many attempts, try again later"),
            AuthError::ServerError => push_str(&mut m, "server error"),
        }
        proof {
            assert(m@ =~= spec_error_message(*self));
        }
        m
    }
}

// ---------------------------------------------------------------------
// Texts

/// `a` and `b` are equal when ASCII letters are compared without case.
pub open spec fn ascii_ci_eq(a: Seq<char>, b: Seq<char>) -> bool {
    a.len() == b.len() && forall|i: int| 0 <= i < a.len() ==> ascii_lower(#[trigger] a[i]) == ascii_lower(b[i])
}

/// The ASCII lowercase of a character.
fn lower_ascii(c: char) -> (r: char)
    ensures
        r == ascii_lower(c),
{
    if 'A' <= c && c <= 'Z' {
        if c == 'A' { 'a' } else if c == 'B' { 'b' } else if c == 'C' { 'c' } else if c == 'D' { 'd' }
        else if c == 'E' { 'e' } else if c == 'F' { 'f' } else if c == 'G' { 'g' } else if c == 'H' { 'h' }
        else if c == 'I' { 'i' } else if c == 'J' { 'j' } else if c == 'K' { 'k' } else if c == 'L' { 'l' }
        else if c == 'M' { 'm' } else if c == 'N' { 'n' } else if c == 'O' { 'o' } else if c == 'P' { 'p' }
        else if c == 'Q' { 'q' } else if c == 'R' { 'r' } else if c == 'S' { 's' } else if c == 'T' { 't' }
        else if c == 'U' { 'u' } else if c == 'V' { 'v' } else if c == 'W' { 'w' } else if c == 'X' { 'x' }
        else if c == 'Y' { 'y' } else { 'z' }
    } else {
        c
    }
}

/// Whether two texts are equal ignoring the case of ASCII letters.
pub fn eq_ignore_ascii_case(a: &str, b: &str) -> (r: bool)
    ensures
        r == ascii_ci_eq(a@, b@),
{
    let x = str_chars(a);
    let y = str_chars(b);
    if x.len() != y.len() {
        return false;
    }
    let mut i: usize = 0;
    while i < x.len()
        invariant
            i <= x@.len(),
            x@.len() == y@.len(),
            x@ == a@,
            y@ == b@,
            forall|j: int| 0 <= j < i ==> ascii_lower(#[trigger] x@[j]) == ascii_lower(y@[j]),
        decreases x@.len() - i,
    {
        if lower_ascii(x[i]) != lower_ascii(y[i]) {
            return false;
        }
        i = i + 1;
    }
    true
}

/// A TOML basic string holding `s`: quoted, with `\` and `"` escaped.
pub open spec fn spec_toml_valid_str(s: Seq<char>) -> Seq<char> {
    seq!['"'] + spec_replace(spec_replace(s, seq!['\\'], seq!['\\', '\\']), seq!['"'], seq!['\\', '"']) + seq!['"']
}

/// `s` as a TOML basic string.
pub fn toml_valid_str(s: &str) -> (r: String)
    ensures
        r@ == spec_toml_valid_str(s@),
{
    proof {
        reveal_strlit("\\");
        reveal_strlit("\\\\");
        reveal_strlit("\"");
        reveal_strlit("\\\"");
    }
    let a = replace_all(s, "\\", "\\\\");
    let b = replace_all(a.as_str(), "\"", "\\\"");
    let mut r = String::new();
    push_str(&mut r, "\"");
    r.append(b.as_str());
    push_str(&mut r, "\"");
    proof {
        assert("\\"@ =~= seq!['\\']);
        assert("\\\\"@ =~= seq!['\\', '\\']);
        assert("\""@ =~= seq!['"']);
        assert("\\\""@ =~= seq!['\\', '"']);
        assert(r@ =~= spec_toml_valid_str(s@));
    }
    r
}

/// The number of times `c` occurs in `s`.
pub open spec fn count_char(s: Seq<char>, c: char) -> nat
    decreases s.len(),
{
    if s.len() == 0 {
        0
    } else {
        count_char(s.drop_last(), c) + if s.last() == c { 1nat } else { 0nat }
    }
}

/// The index of the first `c` in `s`, if any.
pub open spec fn first_index(s: Seq<char>, c: char, k: int) -> Option<int>
    decreases s.len() - k,
{
    if k < 0 || k >= s.len() {
        None
    } else if s[k] == c {
        Some(k)
    } else {
        first_index(s, c, k + 1)
    }
}

/// A plausible e-mail address: not empty, at most 254 bytes, no white
/// space, `"` or `\`, exactly one `@`, something before it and a `.` after
/// it.
pub open spec fn spec_valid_email(e: Seq<char>) -> bool {
    &&& e.len() > 0
    &&& encode_utf8(e).len() <= 254
    &&& forall|i: int| 0 <= i < e.len() ==> !(is_ws(#[trigger] e[i]) || e[i] == '"' || e[i] == '\\')
    &&& count_char(e, '@') == 1
    &&& match first_index(e, '@', 0) {
        Some(at) => at > 0 && e.subrange(at + 1, e.len() as int).contains('.'),
        None => false,
    }
}

/// Whether `e` is a plausible e-mail address.
pub fn valid_email(e: &str) -> (r: bool)
    ensures
        r == spec_valid_email(e@),
{
    let cs = str_chars(e);
    if cs.len() == 0 {
        return false;
    }
    let nbytes = e.as_bytes().len();
    if nbytes > 254 {
        return false;
    }
    let mut i: usize = 0;
    let mut ats: usize = 0;
    let mut at: Option<usize> = None;
    while i < cs.len()
        invariant
            i <= cs@.len(),
            cs@ == e@,
            ats == count_char(cs@.subrange(0, i as int), '@'),
            ats <= i,
            forall|j: int| 0 <= j < i ==> !(is_ws(#[trigger] cs@[j]) || cs@[j] == '"' || cs@[j] == '\\'),
            match at {
                Some(a) => a < i && first_index(cs@, '@', 0) == Some(a as int),
                None => first_index(cs@, '@', 0) == first_index(cs@, '@', i as int),
            },
        decreases cs@.len() - i,
    {
        let c = cs[i];
        if crate::chars::is_whitespace(c) || c == '"' || c == '\\' {
            return false;
        }
        proof {
            assert(cs@.subrange(0, i + 1).drop_last() =~= cs@.subrange(0, i as int));
        }
        if c == '@' {
            if at.is_none() {
                at = Some(i);
            }
            ats = ats + 1;
        }
        i = i + 1;
    }
    proof {
        assert(cs@.subrange(0, i as int) =~= cs@);
    }
    if ats != 1 {
        return false;
    }
    match at {
        Some(a) => {
            if a == 0 {
                return false;
            }
            has_char_from(&cs, '.', a + 1)
        },
        None => {
            proof {
                lemma_count_zero_no_index(cs@, '@', i as int);
            }
            false
        },
    }
}

/// Whether `c` occurs in `cs[from..]`.
fn has_char_from(cs: &Vec<char>, c: char, from: usize) -> (r: bool)
    requires
        from <= cs@.len(),
    ensures
        r == cs@.subrange(from as int, cs@.len() as int).contains(c),
{
    let mut k = from;
    while k < cs.len()
        invariant
            from <= k <= cs@.len(),
            forall|j: int| from <= j < k ==> cs@[j] != c,
        decreases cs@.len() - k,
    {
        if cs[k] == c {
            proof {
                assert(cs@.subrange(from as int, cs@.len() as int)[k - from] == c);
            }
            return true;
        }
        k = k + 1;
    }
    proof {
        let d = cs@.subrange(from as int, cs@.len() as int);
        if d.contains(c) {
            let j = choose|j: int| 0 <= j < d.len() && d[j] == c;
            assert(cs@[from + j] == c);
        }
    }
    false
}

proof fn lemma_count_zero_no_index(s: Seq<char>, c: char, k: int)
    requires
        k == s.len(),
        first_index(s, c, 0) == first_index(s, c, k),
    ensures
        first_index(s, c, 0) is None,
{
}

/// A character allowed in a user name: ASCII letters and digits, `-` and
/// `_`.
pub open spec fn username_char(c: char) -> bool {
    is_ascii_letter(c) || is_ascii_digit(c) || c == '-' || c == '_'
}

/// A user name (already trimmed) of 3 to 32 bytes made of allowed
/// characters.
pub open spec fn spec_valid_username(u: Seq<char>) -> bool {
    3 <= encode_utf8(u).len() <= 32 && forall|i: int| 0 <= i < u.len() ==> username_char(#[trigger] u[i])
}

/// Whether a (trimmed) user name is acceptable.
pub fn valid_username(u: &str) -> (r: bool)
    ensures
        r == spec_valid_username(u@),
{
    let n = u.as_bytes().len();
    if n < 3 || n > 32 {
        return false;
    }
    let cs = str_chars(u);
    let mut i: usize = 0;
    while i < cs.len()
        invariant
            i <= cs@.len(),
            cs@ == u@,
            forall|j: int| 0 <= j < i ==> username_char(#[trigger] cs@[j]),
        decreases cs@.len() - i,
    {
        let c = cs[i];
        let ok = ('a' <= c && c <= 'z') || ('A' <= c && c <= 'Z') || ('0' <= c && c <= '9') || c == '-' || c == '_';
        if !ok {
            return false;
        }
        i = i + 1;
    }
    true
}

/// `s` without its leading and trailing white space.
fn trimmed(s: &str) -> (r: String)
    ensures
        r@ == trim(s@),
{
    let cs = str_chars(s);
    let (a, b) = trim_bounds(&cs, 0, cs.len());
    proof {
        assert(cs@.subrange(0, cs@.len() as int) =~= s@);
    }
    chars_to_string(&cs, a, b)
}

// ---------------------------------------------------------------------
// Users

pub open spec fn groups_or_empty(g: Option<Vec<String>>) -> Seq<Seq<char>> {
    match g {
        Some(v) => strs_view(v@),
        None => Seq::empty(),
    }
}

/// What the client is told about `user`, named `username`.
pub open spec fn info_matches(info: UserInfo, username: Seq<char>, user: User) -> bool {
    &&& info.username@ == username
    &&& opt_view(info.email) == opt_view(user.email)
    &&& strs_view(info.groups@) == groups_or_empty(user.groups)
    &&& userpv_view(info.userpv@) == userpv_view(user.userpv@)
}

fn copy_strings(v: &Vec<String>) -> (r: Vec<String>)
    ensures
        strs_view(r@) == strs_view(v@),
{
    let mut r: Vec<String> = Vec::new();
    let mut i: usize = 0;
    while i < v.len()
        invariant
            i <= v@.len(),
            r@.len() == i,
            forall|j: int| 0 <= j < i ==> (#[trigger] r@[j])@ == v@[j]@,
        decreases v@.len() - i,
    {
        let c = v[i].clone();
        r.push(c);
        i = i + 1;
    }
    proof {
        assert(strs_view(r@) =~= strs_view(v@));
    }
    r
}

fn copy_userpv(v: &Vec<UserPv>) -> (r: Vec<UserPv>)
    ensures
        userpv_view(r@) == userpv_view(v@),
{
    let mut r: Vec<UserPv> = Vec::new();
    let mut i: usize = 0;
    while i < v.len()
        invariant
            i <= v@.len(),
            r@.len() == i,
            forall|j: int| 0 <= j < i ==> (#[trigger] r@[j]).pv == v@[j].pv && strs_view(r@[j].scopes@) == strs_view(v@[j].scopes@),
        decreases v@.len() - i,
    {
        let scopes = copy_strings(&v[i].scopes);
        r.push(UserPv { pv: v[i].pv, scopes });
        i = i + 1;
    }
    proof {
        assert(userpv_view(r@) =~= userpv_view(v@));
    }
    r
}

/// What the client is told about a user: name, e-mail address, groups
/// (none when unset) and per-user overrides.
pub fn user_to_info(username: String, user: &User) -> (r: UserInfo)
    ensures
        info_matches(r, username@, *user),
{
    let email = match &user.email {
        Some(e) => Some(e.clone()),
        None => None,
    };
    let groups = match &user.groups {
        Some(g) => copy_strings(g),
        None => Vec::new(),
    };
    proof {
        if user.groups is None {
            assert(strs_view(groups@) =~= Seq::<Seq<char>>::empty());
        }
    }
    UserInfo { username, email, groups, userpv: copy_userpv(&user.userpv) }
}

/// `users[i]` is the user a log-in name stands for: by e-mail address
/// when it holds `@`, else by user name, letters compared without case.
pub open spec fn login_matches(users: Seq<(String, User)>, login: Seq<char>, i: int) -> bool {
    if login.contains('@') {
        match users[i].1.email {
            Some(e) => ascii_ci_eq(e@, login),
            None => false,
        }
    } else {
        ascii_ci_eq(users[i].0@, login)
    }
}

/// The first user from `k` on that a log-in name stands for.
pub open spec fn first_login_match(users: Seq<(String, User)>, login: Seq<char>, k: int) -> Option<int>
    decreases users.len() - k,
{
    if k < 0 || k >= users.len() {
        None
    } else if login_matches(users, login, k) {
        Some(k)
    } else {
        first_login_match(users, login, k + 1)
    }
}

proof fn lemma_first_login_match_bounds(users: Seq<(String, User)>, login: Seq<char>, k: int)
    ensures
        first_login_match(users, login, k) matches Some(i) ==> k <= i < users.len() && login_matches(users, login, i),
    decreases users.len() - k,
{
    if 0 <= k < users.len() && !login_matches(users, login, k) {
        lemma_first_login_match_bounds(users, login, k + 1);
    }
}

/// Whether `s` holds the character `c`.
fn has_char(s: &str, c: char) -> (r: bool)
    ensures
        r == s@.contains(c),
{
    let cs = str_chars(s);
    let mut i: usize = 0;
    while i < cs.len()
        invariant
            i <= cs@.len(),
            cs@ == s@,
            forall|j: int| 0 <= j < i ==> cs@[j] != c,
        decreases cs@.len() - i,
    {
        if cs[i] == c {
            return true;
        }
        i = i + 1;
    }
    false
}

/// The index of the user a log-in name stands for, if any.
pub fn find_login_user(users: &Vec<(String, User)>, login: &str) -> (r: Option<usize>)
    ensures
        match r {
            Some(x) => first_login_match(users@, login@, 0) == Some(x as int),
            None => first_login_match(users@, login@, 0) is None,
        },
{
    let by_email = has_char(login, '@');
    let mut i: usize = 0;
    while i < users.len()
        invariant
            i <= users@.len(),
            by_email == login@.contains('@'),
            first_login_match(users@, login@, 0) == first_login_match(users@, login@, i as int),
        decreases users@.len() - i,
    {
        let hit = if by_email {
            match &users[i].1.email {
                Some(e) => eq_ignore_ascii_case(e.as_str(), login),
                None => false,
            }
        } else {
            eq_ignore_ascii_case(users[i].0.as_str(), login)
        };
        if hit {
            return Some(i);
        }
        i = i + 1;
    }
    None
}

// ---------------------------------------------------------------------
// Passwords

/// argon2's `PasswordHasher::hash_password` with `Argon2::default()` and a
/// fresh salt from `SaltString::generate(&mut OsRng)`, as a PHC string;
/// nothing when hashing fails. With the default parameters and a generated
/// salt (16 bytes), hashing fails only on a password longer than
/// `u32::MAX` bytes (argon2's `PwdTooLong`), so below that a hash comes
/// back. Checking `password` against the hash succeeds: `verify_password`
/// recomputes the hash from the algorithm, version, parameters and salt
/// that the string holds. The hash text itself is not stated: its salt is
/// random.
#[verifier::external_body]
pub(crate) fn hash_password(password: &str) -> (r: Option<String>)
    ensures
        encode_utf8(password@).len() <= 0xFFFF_FFFF ==> r is Some,
        r matches Some(h) ==> argon2_verdict(encode_utf8(password@), h@) == Some(true),
{
    let salt = SaltString::generate(&mut OsRng);
    match Argon2::default().hash_password(password.as_bytes(), &salt) {
        Ok(h) => Some(h.to_string()),
        Err(_) => None,
    }
}

/// What checking `password` against the PHC string `hash` gives:
/// `None` when `hash` does not parse, else whether argon2 accepts it.
pub uninterp spec fn argon2_verdict(password: Seq<u8>, hash: Seq<char>) -> Option<bool>;

/// argon2's `PasswordHash::new` on `hash`, then
/// `Argon2::default().verify_password`: `None` when the hash does not
/// parse, else whether verification succeeds. The result is named
/// `argon2_verdict`; nothing more is stated.
#[verifier::external_body]
fn check_password(password: &str, hash: &str) -> (r: Option<bool>)
    ensures
        r == argon2_verdict(encode_utf8(password@), hash@),
{
    match PasswordHash::new(hash) {
        Ok(parsed) => Some(Argon2::default().verify_password(password.as_bytes(), &parsed).is_ok()),
        Err(_) => None,
    }
}

// ---------------------------------------------------------------------
// Sign-up

pub open spec fn methods_of(auth: Auth) -> Seq<Seq<char>> {
    match auth.auth_methods {
        Some(v) => strs_view(v@),
        None => Seq::empty(),
    }
}

/// The e-mail address a sign-up gives, trimmed and lowercased.
pub open spec fn signup_email(body: SignupRequest) -> Option<Seq<char>> {
    match body.email {
        Some(e) => Some(crate::renderer::lowercase(trim(e@))),
        None => None,
    }
}

/// The checks of a sign-up that come after its rate limit: username
/// sign-up enabled, a valid user name, a long enough password, an e-mail
/// address when one is required, and a plausible one when given.
pub open spec fn spec_signup_checks(auth: Auth, min_password_len: u32, body: SignupRequest) -> Result<(Seq<char>, Option<Seq<char>>), AuthError> {
    let u = trim(body.username@);
    let email = signup_email(body);
    if !methods_of(auth).contains("username"@) {
        Err(AuthError::UsernameSignupDisabled)
    } else if !spec_valid_username(u) {
        Err(AuthError::BadUsername)
    } else if encode_utf8(body.password@).len() < min_password_len {
        Err(AuthError::ShortPassword(min_password_len))
    } else if auth.username_signup_requires_email && (match email { Some(e) => e.len() == 0, None => true }) {
        Err(AuthError::EmailRequired)
    } else if (match email { Some(e) => !spec_valid_email(e), None => false }) {
        Err(AuthError::InvalidEmail)
    } else {
        Ok((u, email))
    }
}

/// Whether some text of `v` is `t`.
fn contains_text(v: &Vec<String>, t: &str) -> (r: bool)
    ensures
        r == strs_view(v@).contains(t@),
{
    let mut i: usize = 0;
    while i < v.len()
        invariant
            i <= v@.len(),
            forall|k: int| 0 <= k < i ==> v@[k]@ != t@,
        decreases v@.len() - i,
    {
        if str_eq(v[i].as_str(), t) {
            proof {
                assert(strs_view(v@)[i as int] == t@);
            }
            return true;
        }
        i = i + 1;
    }
    proof {
        if strs_view(v@).contains(t@) {
            let k = choose|k: int| 0 <= k < strs_view(v@).len() && strs_view(v@)[k] == t@;
            assert(v@[k]@ == t@);
        }
    }
    false
}

/// The checks of a sign-up after its rate limit.
fn signup_checks(auth: &Auth, min_password_len: u32, body: &SignupRequest) -> (r: Result<SignupForm, AuthError>)
    ensures
        match spec_signup_checks(*auth, min_password_len, *body) {
            Ok((u, e)) => r matches Ok(f) && f.username@ == u && opt_view(f.email) == e,
            Err(x) => r == Err::<SignupForm, AuthError>(x),
        },
{
    let enabled = match &auth.auth_methods {
        Some(v) => contains_text(v, "username"),
        None => false,
    };
    proof {
        if auth.auth_methods is None {
            assert(methods_of(*auth) =~= Seq::<Seq<char>>::empty());
        }
    }
    if !enabled {
        return Err(AuthError::UsernameSignupDisabled);
    }
    let username = trimmed(body.username.as_str());
    if !valid_username(username.as_str()) {
        return Err(AuthError::BadUsername);
    }
    if body.password.as_str().as_bytes().len() < min_password_len as usize {
        return Err(AuthError::ShortPassword(min_password_len));
    }
    let email = match &body.email {
        Some(e) => {
            let t = trimmed(e.as_str());
            Some(to_lowercase(t.as_str()))
        },
        None => None,
    };
    let missing = match &email {
        Some(e) => str_chars(e.as_str()).len() == 0,
        None => true,
    };
    if auth.username_signup_requires_email && missing {
        return Err(AuthError::EmailRequired);
    }
    if let Some(e) = &email {
        if !valid_email(e.as_str()) {
            return Err(AuthError::InvalidEmail);
        }
    }
    Ok(SignupForm { username, email })
}

/// A sign-up from `ip` at time `now` (on `limiter`'s clock): refused when
/// sign-up is disabled, when `ip` is over its rate limit (the attempt is
/// counted either way), or when a check fails; else the form with a hash
/// that the password checks against, or a server error when hashing fails
/// (only for a password longer than `u32::MAX` bytes).
pub fn signup(
    limiter: &mut RateLimiter,
    now: u128,
    ip: &str,
    auth: &Auth,
    signup_enabled: bool,
    min_password_len: u32,
    body: &SignupRequest,
) -> (r: Result<(SignupForm, String), AuthError>)
    ensures
        final(limiter).window_nanos() == old(limiter).window_nanos(),
        final(limiter).limit() == old(limiter).limit(),
        !signup_enabled ==> r == Err::<(SignupForm, String), AuthError>(AuthError::SignupDisabled) && final(limiter).table() == old(limiter).table(),
        signup_enabled ==> {
            let (ok, t) = spec_hit(old(limiter).table(), ip@, now, old(limiter).window_nanos(), old(limiter).limit());
            &&& final(limiter).table() == t
            &&& !ok ==> r == Err::<(SignupForm, String), AuthError>(AuthError::TooManySignups)
            &&& ok ==> match spec_signup_checks(*auth, min_password_len, *body) {
                Err(x) => r == Err::<(SignupForm, String), AuthError>(x),
                Ok((u, e)) => match r {
                    Ok((f, h)) => f.username@ == u && opt_view(f.email) == e
                        && argon2_verdict(encode_utf8(body.password@), h@) == Some(true),
                    Err(x) => x == AuthError::ServerError && encode_utf8(body.password@).len() > 0xFFFF_FFFF,
                },
            }
        },
{
    if !signup_enabled {
        return Err(AuthError::SignupDisabled);
    }
    if !limiter.hit_at(ip, now) {
        return Err(AuthError::TooManySignups);
    }
    let form = match signup_checks(auth, min_password_len, body) {
        Ok(f) => f,
        Err(e) => return Err(e),
    };
    match hash_password(body.password.as_str()) {
        Some(h) => Ok((form, h)),
        None => Err(AuthError::ServerError),
    }
}

/// Some user other than by name holds an e-mail address equal (ignoring
/// ASCII case) to `e`.
pub open spec fn email_taken(users: Seq<(String, User)>, e: Seq<char>) -> bool {
    exists|i: int| 0 <= i < users.len() && (match #[trigger] users[i].1.email {
        Some(x) => ascii_ci_eq(x@, e),
        None => false,
    })
}

/// Some user is named `u` (ignoring ASCII case).
pub open spec fn name_taken(users: Seq<(String, User)>, u: Seq<char>) -> bool {
    exists|i: int| 0 <= i < users.len() && ascii_ci_eq(#[trigger] users[i].0@, u)
}

/// The user file's section for a new user.
pub open spec fn spec_user_section(username: Seq<char>, hash: Seq<char>, email: Option<Seq<char>>) -> Seq<char> {
    let head = "[\""@ + username + "\"]\npwd_hash = \""@ + hash + "\"\n"@;
    match email {
        Some(e) => head + "email = "@ + spec_toml_valid_str(e) + "\n"@,
        None => head,
    }
}

/// The user file after a sign-up: refused when the name or the e-mail
/// address is taken; else the file, ended by a newline when it is not
/// empty, followed by the new user's section.
pub open spec fn spec_register(content: Seq<char>, users: Seq<(String, User)>, username: Seq<char>, email: Option<Seq<char>>, hash: Seq<char>) -> Result<Seq<char>, AuthError> {
    if name_taken(users, username) {
        Err(AuthError::UsernameTaken)
    } else if (match email { Some(e) => email_taken(users, e), None => false }) {
        Err(AuthError::EmailInUse)
    } else {
        let base = if content.len() > 0 && content.last() != '\n' { content.push('\n') } else { content };
        Ok(base + spec_user_section(username, hash, email))
    }
}

/// Adds a signed-up user to the user file `content` (which holds `users`).
pub fn register(content: &str, users: &Vec<(String, User)>, form: &SignupForm, hash: &str) -> (r: Result<String, AuthError>)
    ensures
        match spec_register(content@, users@, form.username@, opt_view(form.email), hash@) {
            Ok(c) => r matches Ok(s) && s@ == c,
            Err(x) => r == Err::<String, AuthError>(x),
        },
{
    let mut i: usize = 0;
    while i < users.len()
        invariant
            i <= users@.len(),
            forall|j: int| 0 <= j < i ==> !ascii_ci_eq(#[trigger] users@[j].0@, form.username@),
        decreases users@.len() - i,
    {
        if eq_ignore_ascii_case(users[i].0.as_str(), form.username.as_str()) {
            return Err(AuthError::UsernameTaken);
        }
        i = i + 1;
    }
    if let Some(e) = &form.email {
        let mut k: usize = 0;
        while k < users.len()
            invariant
                k <= users@.len(),
                opt_view(form.email) == Some(e@),
                forall|j: int| 0 <= j < users@.len() ==> !ascii_ci_eq(#[trigger] users@[j].0@, form.username@),
                forall|j: int| 0 <= j < k ==> !(match #[trigger] users@[j].1.email {
                    Some(x) => ascii_ci_eq(x@, e@),
                    None => false,
                }),
            decreases users@.len() - k,
        {
            let same = match &users[k].1.email {
                Some(x) => eq_ignore_ascii_case(x.as_str(), e.as_str()),
                None => false,
            };
            if same {
                proof {
                    assert(0 <= k < users@.len() && (match users@[k as int].1.email {
                        Some(x) => ascii_ci_eq(x@, e@),
                        None => false,
                    }));
                    assert(email_taken(users@, e@));
                    assert(!name_taken(users@, form.username@)) by {
                        if name_taken(users@, form.username@) {
                            let w = choose|w: int| 0 <= w < users@.len() && ascii_ci_eq(#[trigger] users@[w].0@, form.username@);
                            assert(!ascii_ci_eq(users@[w].0@, form.username@));
                        }
                    }
                    assert(opt_view(form.email) == Some(e@));
                }
                return Err(AuthError::EmailInUse);
            }
            k = k + 1;
        }
    }
    let cs = str_chars(content);
    let mut out = content.to_owned();
    if cs.len() > 0 && cs[cs.len() - 1] != '\n' {
        push_str(&mut out, "\n");
        proof {
            reveal_strlit("\n");
        }
    }
    push_str(&mut out, "[\"");
    push_str(&mut out, form.username.as_str());
    push_str(&mut out, "\"]\npwd_hash = \"");
    push_str(&mut out, hash);
    push_str(&mut out, "\"\n");
    if let Some(e) = &form.email {
        push_str(&mut out, "email = ");
        let q = toml_valid_str(e.as_str());
        out.append(q.as_str());
        push_str(&mut out, "\n");
    }
    proof {
        let c = content@;
        let base = if c.len() > 0 && c.last() != '\n' { c.push('\n') } else { c };
        assert(out@ =~= base + spec_user_section(form.username@, hash@, opt_view(form.email)));
    }
    Ok(out)
}

// ---------------------------------------------------------------------
// Log-in

/// The checks of a log-in before its password: the address `ip` within its
/// rate limit, a user the log-in name stands for, that user within its
/// rate limit, and a password hash on file; the index of the user when all
/// hold.
pub open spec fn spec_login_checks(
    ip_table: Map<Seq<char>, Seq<u128>>,
    ip_now: u128,
    ip_window: u128,
    ip_max: nat,
    user_table: Map<Seq<char>, Seq<u128>>,
    user_now: u128,
    user_window: u128,
    user_max: nat,
    ip: Seq<char>,
    users: Seq<(String, User)>,
    login: Seq<char>,
) -> Result<int, AuthError> {
    if !spec_is_allowed(ip_table, ip, ip_now, ip_window, ip_max) {
        Err(AuthError::TooManyAttempts)
    } else {
        match first_login_match(users, login, 0) {
            None => Err(AuthError::InvalidCredentials),
            Some(i) => if !spec_is_allowed(user_table, users[i].0@, user_now, user_window, user_max) {
                Err(AuthError::TooManyAttempts)
            } else if users[i].1.pwd_hash is None {
                Err(AuthError::InvalidCredentials)
            } else {
                Ok(i)
            },
        }
    }
}

/// A log-in from `ip`, the address's and the user's rate limits read at
/// `ip_now` and `user_now` on their limiters' clocks. A wrong password
/// counts against both limits; a right one clears both.
pub fn login(
    ip_limiter: &mut RateLimiter,
    ip_now: u128,
    user_limiter: &mut RateLimiter,
    user_now: u128,
    ip: &str,
    users: &Vec<(String, User)>,
    body: &LocalLoginRequest,
) -> (r: Result<UserInfo, AuthError>)
    ensures
        final(ip_limiter).window_nanos() == old(ip_limiter).window_nanos(),
        final(ip_limiter).limit() == old(ip_limiter).limit(),
        final(user_limiter).window_nanos() == old(user_limiter).window_nanos(),
        final(user_limiter).limit() == old(user_limiter).limit(),
        match spec_login_checks(
            old(ip_limiter).table(), ip_now, old(ip_limiter).window_nanos(), old(ip_limiter).limit(),
            old(user_limiter).table(), user_now, old(user_limiter).window_nanos(), old(user_limiter).limit(),
            ip@, users@, body.username@,
        ) {
            Err(x) => r == Err::<UserInfo, AuthError>(x) && final(ip_limiter).table() == old(ip_limiter).table()
                && final(user_limiter).table() == old(user_limiter).table(),
            Ok(i) => {
                let name = users@[i].0@;
                let verdict = argon2_verdict(encode_utf8(body.password@), users@[i].1.pwd_hash->0@);
                &&& verdict is None ==> r == Err::<UserInfo, AuthError>(AuthError::ServerError)
                    && final(ip_limiter).table() == old(ip_limiter).table()
                    && final(user_limiter).table() == old(user_limiter).table()
                &&& verdict == Some(false) ==> r == Err::<UserInfo, AuthError>(AuthError::InvalidCredentials)
                    && final(ip_limiter).table() == spec_hit(old(ip_limiter).table(), ip@, ip_now,
                        old(ip_limiter).window_nanos(), old(ip_limiter).limit()).1
                    && final(user_limiter).table() == spec_hit(old(user_limiter).table(), name, user_now,
                        old(user_limiter).window_nanos(), old(user_limiter).limit()).1
                &&& verdict == Some(true) ==> (r matches Ok(info) && info_matches(info, name, users@[i].1))
                    && final(ip_limiter).table() == old(ip_limiter).table().remove(ip@)
                    && final(user_limiter).table() == old(user_limiter).table().remove(name)
            },
        },
{
    if !ip_limiter.is_allowed_at(ip, ip_now) {
        return Err(AuthError::TooManyAttempts);
    }
    let i = match find_login_user(users, body.username.as_str()) {
        Some(i) => i,
        None => return Err(AuthError::InvalidCredentials),
    };
    proof {
        lemma_first_login_match_bounds(users@, body.username@, 0);
    }
    let username = &users[i].0;
    if !user_limiter.is_allowed_at(username.as_str(), user_now) {
        return Err(AuthError::TooManyAttempts);
    }
    let user = &users[i].1;
    let hash = match &user.pwd_hash {
        Some(h) => h,
        None => return Err(AuthError::InvalidCredentials),
    };
    finish_login(ip_limiter, ip_now, user_limiter, user_now, ip, username, user, check_password(body.password.as_str(), hash.as_str()))
}

/// The end of a log-in, once the password was checked: `verdict` is what
/// the check gave (`None`: the stored hash does not parse).
pub fn finish_login(
    ip_limiter: &mut RateLimiter,
    ip_now: u128,
    user_limiter: &mut RateLimiter,
    user_now: u128,
    ip: &str,
    username: &String,
    user: &User,
    verdict: Option<bool>,
) -> (r: Result<UserInfo, AuthError>)
    ensures
        final(ip_limiter).window_nanos() == old(ip_limiter).window_nanos(),
        final(ip_limiter).limit() == old(ip_limiter).limit(),
        final(user_limiter).window_nanos() == old(user_limiter).window_nanos(),
        final(user_limiter).limit() == old(user_limiter).limit(),
        verdict is None ==> r == Err::<UserInfo, AuthError>(AuthError::ServerError)
            && final(ip_limiter).table() == old(ip_limiter).table()
            && final(user_limiter).table() == old(user_limiter).table(),
        verdict == Some(false) ==> r == Err::<UserInfo, AuthError>(AuthError::InvalidCredentials)
            && final(ip_limiter).table() == spec_hit(old(ip_limiter).table(), ip@, ip_now,
                old(ip_limiter).window_nanos(), old(ip_limiter).limit()).1
            && final(user_limiter).table() == spec_hit(old(user_limiter).table(), username@, user_now,
                old(user_limiter).window_nanos(), old(user_limiter).limit()).1,
        verdict == Some(true) ==> (r matches Ok(info) && info_matches(info, username@, *user))
            && final(ip_limiter).table() == old(ip_limiter).table().remove(ip@)
            && final(user_limiter).table() == old(user_limiter).table().remove(username@),
{
    match verdict {
        None => Err(AuthError::ServerError),
        Some(false) => {
            let _ = ip_limiter.hit_at(ip, ip_now);
            let _ = user_limiter.hit_at(username.as_str(), user_now);
            Err(AuthError::InvalidCredentials)
        },
        Some(true) => {
            ip_limiter.reset(ip);
            user_limiter.reset(username.as_str());
            Ok(user_to_info(username.clone(), user))
        },
    }
}

} // verus!
