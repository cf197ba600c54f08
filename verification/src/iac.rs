//! IAC (Inherited Access Controls): permission values, scopes and the
//! resolution of a requester's effective permission for a scope.

use vstd::prelude::*;
use vstd::string::*;
use crate::chars::{trim, str_chars, str_eq, chars_to_string, chars_eq};
use crate::renderer::strip_slashes_from;
use crate::text::push_char;

verus! {

/// A permission value: None, Read, Edit, Create, Update, Delete.
#[derive(Debug, PartialEq, Eq, Structural, Clone, Copy)]
pub enum PV {
    N,
    R,
    E,
    C,
    U,
    D,
}

/// The raw number of a permission value, as stored in configuration.
pub open spec fn spec_pv_value(pv: PV) -> u8 {
    match pv {
        PV::N => 0,
        PV::R => 1,
        PV::E => 2,
        PV::C => 4,
        PV::U => 16,
        PV::D => 255,
    }
}

/// The raw number of a permission value.
pub fn pv_value(pv: PV) -> (v: u8)
    ensures
        v == spec_pv_value(pv),
{
    match pv {
        PV::N => 0,
        PV::R => 1,
        PV::E => 2,
        PV::C => 4,
        PV::U => 16,
        PV::D => 255,
    }
}

/// The display letter of a permission value.
pub open spec fn pv_letter(pv: PV) -> char {
    match pv {
        PV::N => 'N',
        PV::R => 'R',
        PV::E => 'E',
        PV::C => 'C',
        PV::U => 'U',
        PV::D => 'D',
    }
}

/// The display label of a permission value: its letter.
pub fn pv_label(pv: PV) -> (s: &'static str)
    ensures
        s@ == seq![pv_letter(pv)],
{
    proof {
        reveal_strlit("N");
        reveal_strlit("R");
        reveal_strlit("E");
        reveal_strlit("C");
        reveal_strlit("U");
        reveal_strlit("D");
    }
    match pv {
        PV::N => "N",
        PV::R => "R",
        PV::E => "E",
        PV::C => "C",
        PV::U => "U",
        PV::D => "D",
    }
}

/// A grant: a permission value and the targets (users, groups) it names.
#[derive(Debug, Clone)]
pub struct Grant {
    pub pv: u8,
    pub targets: Vec<String>,
}

/// The grants of one scope.
#[derive(Debug, Clone)]
pub struct ScopeGrants {
    pub scope: String,
    pub grants: Vec<Grant>,
}

/// The access-control list: grants per scope.
pub type Acl = Vec<ScopeGrants>;

/// A per-user permission override: a permission value and the scopes it
/// covers.
#[derive(Debug, Clone)]
pub struct UserPv {
    pub pv: u8,
    pub scopes: Vec<String>,
}

/// Who asks: the user name when logged in, the user's groups and overrides.
#[derive(Debug, Clone)]
pub struct Requester {
    pub username: Option<String>,
    pub groups: Vec<String>,
    pub userpv: Vec<UserPv>,
}

impl Default for Requester {
    fn default() -> (r: Requester)
        ensures
            r.username is None,
            r.groups@.len() == 0,
            r.userpv@.len() == 0,
    {
        Requester { username: None, groups: Vec::new(), userpv: Vec::new() }
    }
}

pub open spec fn strs_view(v: Seq<String>) -> Seq<Seq<char>> {
    v.map_values(|s: String| s@)
}

pub open spec fn grant_view(g: Grant) -> (u8, Seq<Seq<char>>) {
    (g.pv, strs_view(g.targets@))
}

pub open spec fn grants_view(gs: Seq<Grant>) -> Seq<(u8, Seq<Seq<char>>)> {
    gs.map_values(|g: Grant| grant_view(g))
}

/// The mathematical value of an access-control list.
pub open spec fn acl_view(acl: Seq<ScopeGrants>) -> Seq<(Seq<char>, Seq<(u8, Seq<Seq<char>>)>)> {
    acl.map_values(|e: ScopeGrants| (e.scope@, grants_view(e.grants@)))
}

pub open spec fn userpv_view(u: Seq<UserPv>) -> Seq<(u8, Seq<Seq<char>>)> {
    u.map_values(|x: UserPv| (x.pv, strs_view(x.scopes@)))
}

/// The mathematical value of a requester.
pub struct RequesterView {
    pub username: Option<Seq<char>>,
    pub groups: Seq<Seq<char>>,
    pub userpv: Seq<(u8, Seq<Seq<char>>)>,
}

impl View for Requester {
    type V = RequesterView;

    open spec fn view(&self) -> RequesterView {
        RequesterView {
            username: match self.username { Some(s) => Some(s@), None => None },
            groups: strs_view(self.groups@),
            userpv: userpv_view(self.userpv@),
        }
    }
}

// ---------------------------------------------------------------------
// Scopes

/// The length of `u[..k]` without trailing slashes, keeping at least one
/// character.
pub open spec fn strip_keep_one(u: Seq<char>, k: int) -> int
    decreases k,
{
    if k > 1 && k <= u.len() && u[k - 1] == '/' {
        strip_keep_one(u, k - 1)
    } else {
        k
    }
}

/// The scope of a page slug: trimmed, with a leading `/` and no trailing
/// `/`; the empty slug is the root `/`.
pub open spec fn spec_scope_for_slug(slug: Seq<char>) -> Seq<char> {
    let t = trim(slug);
    if t.len() == 0 {
        seq!['/']
    } else {
        let u = if t[0] == '/' { t } else { seq!['/'] + t };
        u.subrange(0, strip_keep_one(u, u.len() as int))
    }
}

/// The index of the last `c` in `s[..k]`.
pub open spec fn last_index_of(s: Seq<char>, c: char, k: int) -> Option<int>
    decreases k,
{
    if k <= 0 || k > s.len() {
        None
    } else if s[k - 1] == c {
        Some(k - 1)
    } else {
        last_index_of(s, c, k - 1)
    }
}

/// The immediate parent namespace of a scope: `/a/b` has `/a`, `/a` and
/// `/` have `/`.
pub open spec fn spec_parent_scope(scope: Seq<char>) -> Seq<char> {
    let t = scope.subrange(0, strip_slashes_from(scope, scope.len() as int));
    match last_index_of(t, '/', t.len() as int) {
        Some(i) => if i > 0 { t.subrange(0, i) } else { seq!['/'] },
        None => seq!['/'],
    }
}

/// `scope` is `ancestor` itself or lies beneath it.
pub open spec fn spec_is_within(scope: Seq<char>, ancestor: Seq<char>) -> bool {
    if ancestor == seq!['/'] {
        scope.len() > 0 && scope[0] == '/'
    } else {
        ||| scope == ancestor
        ||| (ancestor.len() < scope.len() && scope.subrange(0, ancestor.len() as int) == ancestor
            && scope[ancestor.len() as int] == '/')
    }
}

/// The number of `/` in a scope.
pub open spec fn count_slashes(s: Seq<char>) -> nat
    decreases s.len(),
{
    if s.len() == 0 {
        0
    } else {
        count_slashes(s.drop_last()) + if s.last() == '/' { 1nat } else { 0nat }
    }
}

pub proof fn lemma_strip_keep_one_bounds(u: Seq<char>, k: int)
    requires
        1 <= k <= u.len(),
    ensures
        1 <= strip_keep_one(u, k) <= k,
        strip_keep_one(u, k) > 1 ==> u[strip_keep_one(u, k) - 1] != '/',
    decreases k,
{
    if k > 1 && u[k - 1] == '/' {
        lemma_strip_keep_one_bounds(u, k - 1);
    }
}

pub proof fn lemma_last_index_bounds(s: Seq<char>, c: char, k: int)
    ensures
        last_index_of(s, c, k) matches Some(i) ==> 0 <= i < k && i < s.len() && s[i] == c,
    decreases k,
{
    if k > 0 && k <= s.len() && s[k - 1] != c {
        lemma_last_index_bounds(s, c, k - 1);
    }
}

pub proof fn lemma_strip_slashes_bounds(s: Seq<char>, k: int)
    requires
        0 <= k <= s.len(),
    ensures
        0 <= strip_slashes_from(s, k) <= k,
    decreases k,
{
    if k > 0 && s[k - 1] == '/' {
        lemma_strip_slashes_bounds(s, k - 1);
    }
}

/// The parent of a scope other than the root that starts with `/` is a
/// shorter scope that starts with `/`.
pub proof fn lemma_parent_shorter(s: Seq<char>)
    requires
        s.len() >= 2,
        s[0] == '/',
    ensures
        spec_parent_scope(s).len() < s.len(),
        spec_parent_scope(s).len() >= 1,
        spec_parent_scope(s)[0] == '/',
{
    lemma_strip_slashes_bounds(s, s.len() as int);
    let t = s.subrange(0, strip_slashes_from(s, s.len() as int));
    lemma_last_index_bounds(t, '/', t.len() as int);
}

/// The scope of a page slug.
pub fn scope_for_slug(slug: &str) -> (s: String)
    ensures
        s@ == spec_scope_for_slug(slug@),
{
    let cs = str_chars(slug);
    let (a, b) = crate::renderer::trim_bounds(&cs, 0, cs.len());
    proof {
        assert(cs@.subrange(0, cs@.len() as int) =~= slug@);
    }
    let ghost t = trim(slug@);
    if a == b {
        let mut r = String::new();
        push_char(&mut r, '/');
        proof {
            assert(r@ =~= seq!['/']);
        }
        return r;
    }
    let mut u: Vec<char> = Vec::new();
    if cs[a] != '/' {
        u.push('/');
    }
    let mut i = a;
    let ghost u0 = u@;
    while i < b
        invariant
            a <= i <= b <= cs@.len(),
            u@ == u0 + cs@.subrange(a as int, i as int),
        decreases b - i,
    {
        u.push(cs[i]);
        proof {
            assert(u@ =~= u0 + cs@.subrange(a as int, i + 1));
        }
        i = i + 1;
    }
    let ghost uu = if t[0] == '/' { t } else { seq!['/'] + t };
    proof {
        assert(t =~= cs@.subrange(a as int, b as int));
        assert(u@ =~= uu);
    }
    let mut k = u.len();
    while k > 1 && u[k - 1] == '/'
        invariant
            1 <= k <= u@.len(),
            strip_keep_one(u@, u@.len() as int) == strip_keep_one(u@, k as int),
        decreases k,
    {
        k = k - 1;
    }
    let r = chars_to_string(&u, 0, k);
    r
}

/// The immediate parent namespace of a scope.
pub fn parent_scope(scope: &str) -> (p: String)
    ensures
        p@ == spec_parent_scope(scope@),
{
    let cs = str_chars(scope);
    let mut e = cs.len();
    while e > 0 && cs[e - 1] == '/'
        invariant
            e <= cs@.len(),
            strip_slashes_from(cs@, cs@.len() as int) == strip_slashes_from(cs@, e as int),
        decreases e,
    {
        e = e - 1;
    }
    let ghost t = cs@.subrange(0, e as int);
    let mut k = e;
    while k > 0 && cs[k - 1] != '/'
        invariant
            k <= e <= cs@.len(),
            t == cs@.subrange(0, e as int),
            last_index_of(t, '/', e as int) == last_index_of(t, '/', k as int),
        decreases k,
    {
        proof {
            assert(t[k - 1] == cs@[k - 1]);
        }
        k = k - 1;
    }
    proof {
        if k > 0 {
            assert(t[k - 1] == cs@[k - 1]);
        }
    }
    if k > 1 {
        let r = chars_to_string(&cs, 0, k - 1);
        proof {
            assert(r@ =~= t.subrange(0, k - 1));
        }
        r
    } else {
        let mut r = String::new();
        push_char(&mut r, '/');
        proof {
            assert(r@ =~= seq!['/']);
        }
        r
    }
}

/// Whether `scope` is `ancestor` itself or lies beneath it.
pub fn is_within(scope: &str, ancestor: &str) -> (r: bool)
    ensures
        r == spec_is_within(scope@, ancestor@),
{
    let s = str_chars(scope);
    let a = str_chars(ancestor);
    if a.len() == 1 && a[0] == '/' {
        proof {
            assert(a@ =~= seq!['/']);
        }
        return s.len() > 0 && s[0] == '/';
    }
    proof {
        if a@ == seq!['/'] {
            assert(a@.len() == 1 && a@[0] == '/');
        }
    }
    if a.len() == s.len() && chars_eq(&s, 0, s.len(), &a, 0, a.len()) {
        proof {
            assert(s@.subrange(0, s@.len() as int) =~= s@);
            assert(a@.subrange(0, a@.len() as int) =~= a@);
        }
        return true;
    }
    proof {
        assert(s@.subrange(0, s@.len() as int) =~= s@);
        assert(a@.subrange(0, a@.len() as int) =~= a@);
    }
    if a.len() < s.len() && chars_eq(&s, 0, a.len(), &a, 0, a.len()) {
        proof {
            assert(a@.subrange(0, a@.len() as int) =~= a@);
        }
        return s[a.len()] == '/';
    }
    proof {
        assert(a@.subrange(0, a@.len() as int) =~= a@);
    }
    false
}

// ---------------------------------------------------------------------
// Resolution

/// Whether a grant target names the requester: `ALL`, `ALL_AUTH` (logged
/// in), `ALL_UNAUTH` (logged out), `user:<name>`, or a group of theirs.
pub open spec fn spec_target_matches(r: RequesterView, t: Seq<char>) -> bool {
    if t == "ALL"@ {
        true
    } else if t == "ALL_AUTH"@ {
        r.username is Some
    } else if t == "ALL_UNAUTH"@ {
        r.username is None
    } else if t.len() >= 5 && t.subrange(0, 5) == "user:"@ {
        r.username == Some(t.subrange(5, t.len() as int))
    } else {
        r.groups.contains(t)
    }
}

/// Some target of `ts` names the requester.
pub open spec fn any_target_matches(r: RequesterView, ts: Seq<Seq<char>>) -> bool {
    exists|i: int| 0 <= i < ts.len() && spec_target_matches(r, #[trigger] ts[i])
}

/// The place of a raw permission value on the ladder N < R < E < U < C < D:
/// the raw value itself, but for U (16) and C (4), which trade places.
pub open spec fn pv_order(v: u8) -> u8 {
    if v == 4 {
        16
    } else if v == 16 {
        4
    } else {
        v
    }
}

/// The higher of two raw permission values on the ladder (the first when
/// they stand level).
pub open spec fn higher_pv(a: u8, b: u8) -> u8 {
    if pv_order(a) >= pv_order(b) { a } else { b }
}

/// The place of a raw permission value on the ladder.
pub fn pv_rank(v: u8) -> (r: u8)
    ensures
        r == pv_order(v),
{
    if v == 4 {
        16
    } else if v == 16 {
        4
    } else {
        v
    }
}

/// The highest permission among the grants that name the requester.
pub open spec fn best_grant(r: RequesterView, gs: Seq<(u8, Seq<Seq<char>>)>) -> Option<u8>
    decreases gs.len(),
{
    if gs.len() == 0 {
        None
    } else {
        let prev = best_grant(r, gs.drop_last());
        let g = gs.last();
        if any_target_matches(r, g.1) {
            match prev {
                Some(h) => Some(higher_pv(h, g.0)),
                None => Some(g.0),
            }
        } else {
            prev
        }
    }
}

/// The grants the list holds for `scope` (the first entry for it).
pub open spec fn acl_lookup(acl: Seq<(Seq<char>, Seq<(u8, Seq<Seq<char>>)>)>, scope: Seq<char>, k: int) -> Option<Seq<(u8, Seq<Seq<char>>)>>
    decreases acl.len() - k,
{
    if k < 0 || k >= acl.len() {
        None
    } else if acl[k].0 == scope {
        Some(acl[k].1)
    } else {
        acl_lookup(acl, scope, k + 1)
    }
}

/// The highest matching grant at exactly `scope`.
pub open spec fn match_at(acl: Seq<(Seq<char>, Seq<(u8, Seq<Seq<char>>)>)>, r: RequesterView, scope: Seq<char>) -> Option<u8> {
    match acl_lookup(acl, scope, 0) {
        Some(gs) => best_grant(r, gs),
        None => None,
    }
}

/// The walk from `cur` toward the root: the first scope with a matching
/// grant decides, with the highest matching grant there.
pub open spec fn acl_walk(acl: Seq<(Seq<char>, Seq<(u8, Seq<Seq<char>>)>)>, r: RequesterView, cur: Seq<char>) -> Option<u8>
    decreases cur.len(),
{
    match match_at(acl, r, cur) {
        Some(h) => Some(h),
        None => {
            if cur == seq!['/'] {
                None
            } else {
                let p = spec_parent_scope(cur);
                if p.len() < cur.len() {
                    acl_walk(acl, r, p)
                } else {
                    None
                }
            }
        },
    }
}

/// One step of the per-user overrides: a covering override replaces the
/// best so far when it is deeper, or equally deep with a higher value.
pub open spec fn upv_step(best: Option<(nat, u8)>, pv: u8, s: Seq<char>, scope: Seq<char>) -> Option<(nat, u8)> {
    let s2 = spec_scope_for_slug(s);
    if spec_is_within(scope, s2) {
        let d = count_slashes(s2);
        match best {
            Some(b) => if d > b.0 || (d == b.0 && pv_order(pv) > pv_order(b.1)) { Some((d, pv)) } else { best },
            None => Some((d, pv)),
        }
    } else {
        best
    }
}

pub open spec fn upv_inner(best: Option<(nat, u8)>, pv: u8, scopes: Seq<Seq<char>>, scope: Seq<char>) -> Option<(nat, u8)>
    decreases scopes.len(),
{
    if scopes.len() == 0 {
        best
    } else {
        upv_step(upv_inner(best, pv, scopes.drop_last(), scope), pv, scopes.last(), scope)
    }
}

/// The deepest per-user override covering `scope` (highest value among
/// equally deep ones), with its depth.
pub open spec fn upv_best(upv: Seq<(u8, Seq<Seq<char>>)>, scope: Seq<char>) -> Option<(nat, u8)>
    decreases upv.len(),
{
    if upv.len() == 0 {
        None
    } else {
        upv_inner(upv_best(upv.drop_last(), scope), upv.last().0, upv.last().1, scope)
    }
}

pub open spec fn is_sudo(r: RequesterView) -> bool {
    r.groups.contains("sudo"@)
}

/// The requester's effective permission for a scope: `sudo` gets D; else
/// the deepest per-user override; else the first scope on the way to the
/// root with a matching grant (the highest there); else the configured
/// base permission, raised to the authenticated one for logged-in users.
pub open spec fn spec_resolve_epv(
    acl: Seq<(Seq<char>, Seq<(u8, Seq<Seq<char>>)>)>,
    r: RequesterView,
    scope: Seq<char>,
    base: Option<u8>,
    auth: Option<u8>,
) -> u8 {
    if is_sudo(r) {
        255
    } else {
        let sc = spec_scope_for_slug(scope);
        match upv_best(r.userpv, sc) {
            Some(b) => b.1,
            None => match acl_walk(acl, r, sc) {
                Some(h) => h,
                None => {
                    let b = match base { Some(x) => x, None => 0 };
                    let a = match auth { Some(x) => x, None => 0 };
                    if r.username is Some { higher_pv(b, a) } else { b }
                },
            },
        }
    }
}

/// Whether two texts are equal.
fn strings_eq(a: &String, b: &String) -> (r: bool)
    ensures
        r == (a@ == b@),
{
    str_eq(a.as_str(), b.as_str())
}

/// Whether the list `v` holds the text `t`.
fn contains_str(v: &Vec<String>, t: &str) -> (r: bool)
    ensures
        r == strs_view(v@).contains(t@),
{
    let mut i: usize = 0;
    while i < v.len()
        invariant
            i <= v@.len(),
            forall|k: int| 0 <= k < i ==> v@[k]@ != t@,
        decreases v@.len() - i,
    {
        if str_eq(v[i].as_str(), t) {
            proof {
                assert(strs_view(v@)[i as int] == t@);
            }
            return true;
        }
        i = i + 1;
    }
    proof {
        if strs_view(v@).contains(t@) {
            let k = choose|k: int| 0 <= k < strs_view(v@).len() && strs_view(v@)[k] == t@;
            assert(v@[k]@ == t@);
        }
    }
    false
}

/// Whether the grant target `target` names the requester.
pub fn target_matches(requester: &Requester, target: &str) -> (r: bool)
    ensures
        r == spec_target_matches(requester@, target@),
{
    if str_eq(target, "ALL") {
        return true;
    }
    if str_eq(target, "ALL_AUTH") {
        return requester.username.is_some();
    }
    if str_eq(target, "ALL_UNAUTH") {
        return requester.username.is_none();
    }
    let t = str_chars(target);
    let p = str_chars("user:");
    proof {
        reveal_strlit("user:");
        assert(p@.subrange(0, 5) =~= p@);
    }
    if t.len() >= 5 && chars_eq(&t, 0, 5, &p, 0, 5) {
        let name = chars_to_string(&t, 5, t.len());
        return match &requester.username {
            Some(u) => strings_eq(u, &name),
            None => false,
        };
    }
    contains_str(&requester.groups, target)
}

/// Whether some target of `targets` names the requester.
fn any_matches(requester: &Requester, targets: &Vec<String>) -> (r: bool)
    ensures
        r == any_target_matches(requester@, strs_view(targets@)),
{
    let mut i: usize = 0;
    while i < targets.len()
        invariant
            i <= targets@.len(),
            forall|k: int| 0 <= k < i ==> !spec_target_matches(requester@, #[trigger] strs_view(targets@)[k]),
        decreases targets@.len() - i,
    {
        if target_matches(requester, targets[i].as_str()) {
            proof {
                assert(spec_target_matches(requester@, strs_view(targets@)[i as int]));
            }
            return true;
        }
        i = i + 1;
    }
    false
}

/// The number of `/` in `s`.
fn slash_count(s: &str) -> (n: usize)
    ensures
        n == count_slashes(s@),
{
    let cs = str_chars(s);
    let mut n: usize = 0;
    let mut i: usize = 0;
    while i < cs.len()
        invariant
            i <= cs@.len(),
            n == count_slashes(cs@.subrange(0, i as int)),
            n <= i,
        decreases cs@.len() - i,
    {
        proof {
            assert(cs@.subrange(0, i + 1).drop_last() =~= cs@.subrange(0, i as int));
        }
        if cs[i] == '/' {
            n = n + 1;
        }
        i = i + 1;
    }
    proof {
        assert(cs@.subrange(0, i as int) =~= cs@);
    }
    n
}

/// The requester's effective permission (raw value) for a scope;
/// `base_user_permission` and `auth_user_permission` are the configured
/// fallbacks for all users and for logged-in users.
pub fn resolve_epv(
    acl: &Acl,
    requester: &Requester,
    scope: &str,
    base_user_permission: Option<u8>,
    auth_user_permission: Option<u8>,
) -> (epv: u8)
    ensures
        epv == spec_resolve_epv(acl_view(acl@), requester@, scope@, base_user_permission, auth_user_permission),
{
    if contains_str(&requester.groups, "sudo") {
        return 255;
    }
    let scope_s = scope_for_slug(scope);
    let ghost sc = scope_s@;
    // per-user overrides
    let mut best: Option<(usize, u8)> = None;
    let ghost upv = requester@.userpv;
    let mut i: usize = 0;
    while i < requester.userpv.len()
        invariant
            i <= requester.userpv@.len(),
            upv == userpv_view(requester.userpv@),
            sc == scope_s@,
            match best {
                Some(b) => upv_best(upv.subrange(0, i as int), sc) == Some((b.0 as nat, b.1)),
                None => upv_best(upv.subrange(0, i as int), sc) is None,
            },
        decreases requester.userpv@.len() - i,
    {
        let entry = &requester.userpv[i];
        let ghost before = upv_best(upv.subrange(0, i as int), sc);
        let mut j: usize = 0;
        while j < entry.scopes.len()
            invariant
                j <= entry.scopes@.len(),
                sc == scope_s@,
                match best {
                    Some(b) => upv_inner(before, entry.pv, strs_view(entry.scopes@).subrange(0, j as int), sc) == Some((b.0 as nat, b.1)),
                    None => upv_inner(before, entry.pv, strs_view(entry.scopes@).subrange(0, j as int), sc) is None,
                },
            decreases entry.scopes@.len() - j,
        {
            let ghost ss = strs_view(entry.scopes@);
            proof {
                assert(ss.subrange(0, j + 1).drop_last() =~= ss.subrange(0, j as int));
                assert(ss.subrange(0, j + 1).last() == entry.scopes@[j as int]@);
            }
            let s = scope_for_slug(entry.scopes[j].as_str());
            if is_within(scope_s.as_str(), s.as_str()) {
                let depth = slash_count(s.as_str());
                best = match best {
                    Some(b) => if depth > b.0 || (depth == b.0 && pv_rank(entry.pv) > pv_rank(b.1)) {
                        Some((depth, entry.pv))
                    } else {
                        Some(b)
                    },
                    None => Some((depth, entry.pv)),
                };
            }
            j = j + 1;
        }
        proof {
            let ss = strs_view(entry.scopes@);
            assert(ss.subrange(0, j as int) =~= ss);
            assert(upv.subrange(0, i + 1).drop_last() =~= upv.subrange(0, i as int));
            assert(upv.subrange(0, i + 1).last() == (entry.pv, ss));
        }
        i = i + 1;
    }
    proof {
        assert(upv.subrange(0, i as int) =~= upv);
    }
    if let Some(b) = best {
        return b.1;
    }
    // the walk toward the root
    let ghost av = acl_view(acl@);
    let mut current = scope_s;
    proof {
        lemma_scope_shape(scope@);
    }
    loop
        invariant
            av == acl_view(acl@),
            current@.len() >= 1,
            current@[0] == '/',
            acl_walk(av, requester@, sc) == acl_walk(av, requester@, current@),
            !is_sudo(requester@),
            sc == spec_scope_for_slug(scope@),
            upv_best(requester@.userpv, sc) is None,
        ensures
            acl_walk(av, requester@, sc) is None,
        decreases current@.len(),
    {
        let found = lookup_best(acl, requester, &current);
        if let Some(h) = found {
            return h;
        }
        let cc = str_chars(current.as_str());
        let is_root = cc.len() == 1;
        if is_root {
            proof {
                let cs = current@;
                assert(cs =~= seq!['/']);
            }
            break;
        }
        proof {
            if current@.len() == 1 {
                assert(current@ =~= seq!['/']);
            }
            if current@ == seq!['/'] {
                assert(current@.len() == 1);
            }
            lemma_parent_shorter(current@);
        }
        current = parent_scope(current.as_str());
    }
    let b = match base_user_permission {
        Some(x) => x,
        None => 0,
    };
    let a = match auth_user_permission {
        Some(x) => x,
        None => 0,
    };
    if requester.username.is_some() {
        if pv_rank(b) >= pv_rank(a) { b } else { a }
    } else {
        b
    }
}

/// A scope is not empty and starts with `/`.
pub proof fn lemma_scope_shape(slug: Seq<char>)
    ensures
        spec_scope_for_slug(slug).len() >= 1,
        spec_scope_for_slug(slug)[0] == '/',
{
    let t = trim(slug);
    if t.len() > 0 {
        let u = if t[0] == '/' { t } else { seq!['/'] + t };
        lemma_strip_keep_one_bounds(u, u.len() as int);
    }
}

/// The highest grant naming the requester at exactly `scope`.
fn lookup_best(acl: &Acl, requester: &Requester, scope: &String) -> (r: Option<u8>)
    ensures
        r == match_at(acl_view(acl@), requester@, scope@),
{
    let ghost av = acl_view(acl@);
    let mut k: usize = 0;
    while k < acl.len()
        invariant
            k <= acl@.len(),
            av == acl_view(acl@),
            acl_lookup(av, scope@, 0) == acl_lookup(av, scope@, k as int),
        decreases acl@.len() - k,
    {
        if strings_eq(&acl[k].scope, scope) {
            let gs = &acl[k].grants;
            let ghost gv = grants_view(gs@);
            let mut highest: Option<u8> = None;
            let mut j: usize = 0;
            while j < gs.len()
                invariant
                    j <= gs@.len(),
                    gv == grants_view(gs@),
                    highest == best_grant(requester@, gv.subrange(0, j as int)),
                decreases gs@.len() - j,
            {
                proof {
                    assert(gv.subrange(0, j + 1).drop_last() =~= gv.subrange(0, j as int));
                    assert(gv.subrange(0, j + 1).last() == grant_view(gs@[j as int]));
                }
                if any_matches(requester, &gs[j].targets) {
                    let pv = gs[j].pv;
                    highest = match highest {
                        Some(h) => Some(if pv_rank(h) >= pv_rank(pv) { h } else { pv }),
                        None => Some(pv),
                    };
                }
                j = j + 1;
            }
            proof {
                assert(gv.subrange(0, j as int) =~= gv);
            }
            return highest;
        }
        k = k + 1;
    }
    None
}

/// Whether an effective permission allows a required one: each value
/// allows every value below it on the ladder N < R < E < U < C < D.
pub fn can(epv: PV, required: PV) -> (r: bool)
    ensures
        r == (pv_order(spec_pv_value(epv)) >= pv_order(spec_pv_value(required))),
{
    pv_rank(pv_value(epv)) >= pv_rank(pv_value(required))
}

/// Whether the requester's effective permission for `scope` reaches the
/// raw permission value `required` on the ladder.
pub fn can_access(
    acl: &Acl,
    requester: &Requester,
    scope: &str,
    required: u8,
    base_user_permission: Option<u8>,
    auth_user_permission: Option<u8>,
) -> (r: bool)
    ensures
        r == (pv_order(spec_resolve_epv(acl_view(acl@), requester@, scope@, base_user_permission, auth_user_permission))
            >= pv_order(required)),
{
    pv_rank(resolve_epv(acl, requester, scope, base_user_permission, auth_user_permission)) >= pv_rank(required)
}

/// The permission value a display letter stands for, in either case.
pub open spec fn spec_pv_from_label(c: char) -> Option<PV> {
    if c == 'N' || c == 'n' {
        Some(PV::N)
    } else if c == 'R' || c == 'r' {
        Some(PV::R)
    } else if c == 'E' || c == 'e' {
        Some(PV::E)
    } else if c == 'C' || c == 'c' {
        Some(PV::C)
    } else if c == 'U' || c == 'u' {
        Some(PV::U)
    } else if c == 'D' || c == 'd' {
        Some(PV::D)
    } else {
        None
    }
}

/// The permission value a display letter stands for (how configuration
/// writes the base permissions), if it stands for one.
pub fn pv_from_label(c: char) -> (r: Option<PV>)
    ensures
        r == spec_pv_from_label(c),
{
    if c == 'N' || c == 'n' {
        Some(PV::N)
    } else if c == 'R' || c == 'r' {
        Some(PV::R)
    } else if c == 'E' || c == 'e' {
        Some(PV::E)
    } else if c == 'C' || c == 'c' {
        Some(PV::C)
    } else if c == 'U' || c == 'u' {
        Some(PV::U)
    } else if c == 'D' || c == 'd' {
        Some(PV::D)
    } else {
        None
    }
}

} // verus!
