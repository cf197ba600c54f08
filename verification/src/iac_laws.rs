//! What IAC promises of every resolution: the sudo bypass, the permission
//! ladder, highest-grant-wins at one scope, closest-scope-wins, the first
//! scope naming the requester decides, inheritance from the parent
//! namespace, deepest-override-wins for per-user overrides, and the access
//! list read as a map when its scopes are distinct.

use vstd::prelude::*;
use crate::iac::{
    acl_lookup, acl_walk, any_target_matches, best_grant, count_slashes, is_sudo, lemma_last_index_bounds,
    lemma_parent_shorter, lemma_scope_shape, lemma_strip_keep_one_bounds, last_index_of, match_at,
    spec_is_within, spec_parent_scope, spec_pv_value, spec_resolve_epv, spec_scope_for_slug,
    upv_best, upv_inner, RequesterView, PV, spec_pv_from_label, pv_letter, pv_order,
};
use crate::renderer::strip_slashes_from;

verus! {

/// `a` is not above `b` in the (depth, value) order of per-user overrides.
pub open spec fn lex_le(a: (nat, u8), b: (nat, u8)) -> bool {
    a.0 < b.0 || (a.0 == b.0 && pv_order(a.1) <= pv_order(b.1))
}

/// The `j`-th scope of the `i`-th per-user override covers `scope`.
pub open spec fn override_covers(upv: Seq<(u8, Seq<Seq<char>>)>, scope: Seq<char>, i: int, j: int) -> bool {
    &&& 0 <= i < upv.len()
    &&& 0 <= j < upv[i].1.len()
    &&& spec_is_within(scope, spec_scope_for_slug(upv[i].1[j]))
}

/// The depth and value of the `j`-th scope of the `i`-th override.
pub open spec fn override_rank(upv: Seq<(u8, Seq<Seq<char>>)>, i: int, j: int) -> (nat, u8) {
    (count_slashes(spec_scope_for_slug(upv[i].1[j])), upv[i].0)
}

/// Some grant of `gs` at index `i` names the requester.
pub open spec fn grant_matches(r: RequesterView, gs: Seq<(u8, Seq<Seq<char>>)>, i: int) -> bool {
    0 <= i < gs.len() && any_target_matches(r, gs[i].1)
}

proof fn lemma_best_grant(r: RequesterView, gs: Seq<(u8, Seq<Seq<char>>)>)
    ensures
        best_grant(r, gs) is None <==> (forall|i: int| !grant_matches(r, gs, i)),
        best_grant(r, gs) matches Some(h) ==> {
            &&& exists|i: int| grant_matches(r, gs, i) && gs[i].0 == h
            &&& forall|i: int| grant_matches(r, gs, i) ==> pv_order(gs[i].0) <= pv_order(h)
        },
    decreases gs.len(),
{
    if gs.len() > 0 {
        let init = gs.drop_last();
        lemma_best_grant(r, init);
        assert forall|i: int| 0 <= i < init.len() implies #[trigger] grant_matches(r, init, i)
            == grant_matches(r, gs, i) by {}
        let last = gs.len() - 1;
        if best_grant(r, gs) is None {
            assert forall|i: int| !grant_matches(r, gs, i) by {
                if grant_matches(r, gs, i) && i < last {
                    assert(grant_matches(r, init, i));
                }
            }
        } else {
            if best_grant(r, init) is None && !grant_matches(r, gs, last) {
                assert(false);
            }
        }
        if let Some(h) = best_grant(r, gs) {
            if any_target_matches(r, gs[last].1) {
                if let Some(p) = best_grant(r, init) {
                    if pv_order(p) >= pv_order(gs[last].0) {
                        let w = choose|i: int| grant_matches(r, init, i) && init[i].0 == p;
                        assert(grant_matches(r, gs, w) && gs[w].0 == h);
                    } else {
                        assert(grant_matches(r, gs, last) && gs[last].0 == h);
                    }
                } else {
                    assert(grant_matches(r, gs, last) && gs[last].0 == h);
                }
            } else {
                let w = choose|i: int| grant_matches(r, init, i) && init[i].0 == h;
                assert(grant_matches(r, gs, w) && gs[w].0 == h);
            }
            assert forall|i: int| grant_matches(r, gs, i) implies pv_order(gs[i].0) <= pv_order(h) by {
                if i < last {
                    assert(grant_matches(r, init, i));
                }
            }
        }
    }
}

proof fn lemma_upv_inner(best: Option<(nat, u8)>, pv: u8, scopes: Seq<Seq<char>>, scope: Seq<char>)
    ensures
        upv_inner(best, pv, scopes, scope) is None <==> (best is None && forall|j: int|
            0 <= j < scopes.len() ==> !spec_is_within(scope, spec_scope_for_slug(#[trigger] scopes[j]))),
        upv_inner(best, pv, scopes, scope) matches Some(x) ==> {
            &&& (best == Some(x) || exists|j: int|
                0 <= j < scopes.len() && spec_is_within(scope, spec_scope_for_slug(#[trigger] scopes[j]))
                    && x == (count_slashes(spec_scope_for_slug(scopes[j])), pv))
            &&& (best matches Some(b) ==> lex_le(b, x))
            &&& forall|j: int|
                0 <= j < scopes.len() && spec_is_within(scope, spec_scope_for_slug(#[trigger] scopes[j]))
                    ==> lex_le((count_slashes(spec_scope_for_slug(scopes[j])), pv), x)
        },
    decreases scopes.len(),
{
    if scopes.len() > 0 {
        let init = scopes.drop_last();
        let last = scopes.len() - 1;
        lemma_upv_inner(best, pv, init, scope);
        assert forall|j: int| 0 <= j < init.len() implies #[trigger] init[j] == scopes[j] by {}
        let prev = upv_inner(best, pv, init, scope);
        let res = upv_inner(best, pv, scopes, scope);
        if res is None {
            assert forall|j: int| 0 <= j < scopes.len() implies !spec_is_within(
                scope,
                spec_scope_for_slug(#[trigger] scopes[j]),
            ) by {
                if j < last {
                    assert(init[j] == scopes[j]);
                }
            }
        }
        if let Some(x) = res {
            if best == Some(x) {
            } else if prev == Some(x) {
                let w = choose|j: int|
                    0 <= j < init.len() && spec_is_within(scope, spec_scope_for_slug(#[trigger] init[j]))
                        && x == (count_slashes(spec_scope_for_slug(init[j])), pv);
                assert(init[w] == scopes[w]);
            } else {
                assert(spec_is_within(scope, spec_scope_for_slug(scopes[last])));
            }
            assert forall|j: int|
                0 <= j < scopes.len() && spec_is_within(scope, spec_scope_for_slug(#[trigger] scopes[j]))
                    implies lex_le((count_slashes(spec_scope_for_slug(scopes[j])), pv), x) by {
                if j < last {
                    assert(init[j] == scopes[j]);
                }
            }
        }
    }
}

proof fn lemma_upv_best(upv: Seq<(u8, Seq<Seq<char>>)>, scope: Seq<char>)
    ensures
        upv_best(upv, scope) is None <==> (forall|i: int, j: int| !override_covers(upv, scope, i, j)),
        upv_best(upv, scope) matches Some(x) ==> {
            &&& exists|i: int, j: int| override_covers(upv, scope, i, j) && override_rank(upv, i, j) == x
            &&& forall|i: int, j: int| override_covers(upv, scope, i, j) ==> lex_le(override_rank(upv, i, j), x)
        },
    decreases upv.len(),
{
    if upv.len() > 0 {
        let init = upv.drop_last();
        let last = upv.len() - 1;
        lemma_upv_best(init, scope);
        let prev = upv_best(init, scope);
        lemma_upv_inner(prev, upv[last].0, upv[last].1, scope);
        assert forall|i: int, j: int| 0 <= i < init.len() implies #[trigger] override_covers(init, scope, i, j)
            == override_covers(upv, scope, i, j) && override_rank(init, i, j) == override_rank(upv, i, j) by {}
        let res = upv_best(upv, scope);
        if res is None {
            assert forall|i: int, j: int| !override_covers(upv, scope, i, j) by {
                if i < last {
                    assert(override_covers(init, scope, i, j) == override_covers(upv, scope, i, j));
                } else if override_covers(upv, scope, i, j) {
                    assert(spec_is_within(scope, spec_scope_for_slug(upv[last].1[j])));
                }
            }
        } else {
            if prev is None {
                let j = choose|j: int|
                    0 <= j < upv[last].1.len() && spec_is_within(scope, spec_scope_for_slug(#[trigger] upv[last].1[j]));
                assert(override_covers(upv, scope, last, j));
            }
        }
        if let Some(x) = res {
            if prev == Some(x) {
                let (wi, wj) = choose|i: int, j: int| override_covers(init, scope, i, j) && override_rank(init, i, j) == x;
                assert(override_covers(init, scope, wi, wj) == override_covers(upv, scope, wi, wj));
                assert(override_covers(upv, scope, wi, wj) && override_rank(upv, wi, wj) == x);
            } else {
                let j = choose|j: int|
                    0 <= j < upv[last].1.len() && spec_is_within(scope, spec_scope_for_slug(#[trigger] upv[last].1[j]))
                        && x == (count_slashes(spec_scope_for_slug(upv[last].1[j])), upv[last].0);
                assert(override_covers(upv, scope, last, j) && override_rank(upv, last, j) == x);
            }
            assert forall|i: int, j: int| override_covers(upv, scope, i, j) implies lex_le(
                override_rank(upv, i, j),
                x,
            ) by {
                if i < last {
                    assert(override_covers(init, scope, i, j) == override_covers(upv, scope, i, j));
                } else {
                    assert(spec_is_within(scope, spec_scope_for_slug(upv[last].1[j])));
                }
            }
        }
    }
}

/// A scope of two or more characters ends in something other than `/`.
proof fn lemma_scope_no_trailing_slash(slug: Seq<char>)
    ensures
        spec_scope_for_slug(slug).len() >= 2 ==> spec_scope_for_slug(slug).last() != '/',
{
    let t = crate::chars::trim(slug);
    if t.len() > 0 {
        let u = if t[0] == '/' { t } else { seq!['/'] + t };
        lemma_strip_keep_one_bounds(u, u.len() as int);
    }
}

/// The parent of a scope `sc` (not the root, without a trailing `/`) is an
/// ancestor of it, and whatever covers the parent covers `sc`.
proof fn lemma_parent_is_ancestor(sc: Seq<char>, anc: Seq<char>)
    requires
        sc.len() >= 2,
        sc[0] == '/',
        sc.last() != '/',
    ensures
        spec_is_within(sc, spec_parent_scope(sc)),
        spec_is_within(spec_parent_scope(sc), anc) ==> spec_is_within(sc, anc),
{
    assert(strip_slashes_from(sc, sc.len() as int) == sc.len());
    let t = sc.subrange(0, sc.len() as int);
    assert(t =~= sc);
    lemma_last_index_bounds(t, '/', t.len() as int);
    lemma_last_index_found(t, '/', t.len() as int, 0);
    let p = spec_parent_scope(sc);
    if spec_is_within(p, anc) && anc != seq!['/'] {
        if p == anc {
            assert(sc.subrange(0, anc.len() as int) =~= anc);
        } else {
            assert(sc.subrange(0, anc.len() as int) =~= p.subrange(0, anc.len() as int));
        }
    }
    if p != seq!['/'] {
        assert(sc.subrange(0, p.len() as int) =~= p);
    }
}

proof fn lemma_last_index_found(s: Seq<char>, c: char, k: int, w: int)
    requires
        0 <= w < k <= s.len(),
        s[w] == c,
    ensures
        last_index_of(s, c, k) is Some,
    decreases k,
{
    if s[k - 1] != c {
        lemma_last_index_found(s, c, k - 1, w);
    }
}

/// Sudo bypass: a member of the `sudo` group gets D on every scope.
pub proof fn law_sudo_gets_delete(
    acl: Seq<(Seq<char>, Seq<(u8, Seq<Seq<char>>)>)>,
    r: RequesterView,
    scope: Seq<char>,
    base: Option<u8>,
    auth: Option<u8>,
)
    requires
        is_sudo(r),
    ensures
        spec_resolve_epv(acl, r, scope, base, auth) == spec_pv_value(PV::D),
{
}

/// The permission ladder N < R < E < U < C < D: each value allows the ones
/// below it, D allows everything and everything allows N; the ladder is a
/// total order on raw values.
pub proof fn law_pv_ladder(p: PV, a: u8, b: u8)
    ensures
        pv_order(spec_pv_value(PV::N)) < pv_order(spec_pv_value(PV::R)) < pv_order(spec_pv_value(PV::E))
            < pv_order(spec_pv_value(PV::U)) < pv_order(spec_pv_value(PV::C)) < pv_order(spec_pv_value(PV::D)),
        pv_order(spec_pv_value(PV::D)) >= pv_order(spec_pv_value(p)),
        pv_order(spec_pv_value(p)) >= pv_order(spec_pv_value(PV::N)),
        pv_order(a) == pv_order(b) ==> a == b,
{
}

/// No two entries of an access list name the same scope.
pub open spec fn scopes_distinct(acl: Seq<(Seq<char>, Seq<(u8, Seq<Seq<char>>)>)>) -> bool {
    forall|i: int, j: int| 0 <= i < j < acl.len() ==> #[trigger] acl[i].0 != #[trigger] acl[j].0
}

proof fn lemma_lookup_from(acl: Seq<(Seq<char>, Seq<(u8, Seq<Seq<char>>)>)>, scope: Seq<char>, i: int, k: int)
    requires
        scopes_distinct(acl),
        0 <= k <= i < acl.len(),
        acl[i].0 == scope,
    ensures
        acl_lookup(acl, scope, k) == Some(acl[i].1),
    decreases i - k,
{
    if k < i {
        assert(acl[k].0 != acl[i].0);
        lemma_lookup_from(acl, scope, i, k + 1);
    }
}

proof fn lemma_lookup_absent(acl: Seq<(Seq<char>, Seq<(u8, Seq<Seq<char>>)>)>, scope: Seq<char>, k: int)
    requires
        0 <= k,
        forall|i: int| 0 <= i < acl.len() ==> #[trigger] acl[i].0 != scope,
    ensures
        acl_lookup(acl, scope, k) is None,
    decreases acl.len() - k,
{
    if k < acl.len() {
        assert(acl[k].0 != scope);
        lemma_lookup_absent(acl, scope, k + 1);
    }
}

/// An access list is a map from scopes to grants: when its scopes are
/// distinct, the grants found for a scope are those of the entry that
/// names it, wherever that entry stands; when no entry names the scope,
/// nothing is found.
pub proof fn law_acl_is_a_map(acl: Seq<(Seq<char>, Seq<(u8, Seq<Seq<char>>)>)>, scope: Seq<char>)
    requires
        scopes_distinct(acl),
    ensures
        forall|i: int| 0 <= i < acl.len() && #[trigger] acl[i].0 == scope ==> acl_lookup(acl, scope, 0) == Some(acl[i].1),
        (forall|i: int| 0 <= i < acl.len() ==> #[trigger] acl[i].0 != scope) ==> acl_lookup(acl, scope, 0) is None,
{
    assert forall|i: int| 0 <= i < acl.len() && #[trigger] acl[i].0 == scope implies acl_lookup(acl, scope, 0) == Some(acl[i].1) by {
        lemma_lookup_from(acl, scope, i, 0);
    }
    if forall|i: int| 0 <= i < acl.len() ==> #[trigger] acl[i].0 != scope {
        lemma_lookup_absent(acl, scope, 0);
    }
}

/// Highest grant wins at one scope: when grants at a scope name the
/// requester, the result is the highest of their values; when none does,
/// that scope yields nothing.
pub proof fn law_highest_grant_wins(
    acl: Seq<(Seq<char>, Seq<(u8, Seq<Seq<char>>)>)>,
    r: RequesterView,
    scope: Seq<char>,
)
    ensures
        acl_lookup(acl, scope, 0) matches Some(gs) ==> {
            &&& (match_at(acl, r, scope) is None <==> forall|i: int| !grant_matches(r, gs, i))
            &&& (match_at(acl, r, scope) matches Some(h) ==> {
                &&& exists|i: int| grant_matches(r, gs, i) && gs[i].0 == h
                &&& forall|i: int| grant_matches(r, gs, i) ==> pv_order(gs[i].0) <= pv_order(h)
            })
        },
        acl_lookup(acl, scope, 0) is None ==> match_at(acl, r, scope) is None,
{
    if let Some(gs) = acl_lookup(acl, scope, 0) {
        lemma_best_grant(r, gs);
    }
}

/// Closest scope wins: once a grant at the requested scope names the
/// requester, grants at farther scopes are never consulted; two lists with
/// the same grants at that scope give the same permission.
pub proof fn law_closest_scope_wins(
    acl1: Seq<(Seq<char>, Seq<(u8, Seq<Seq<char>>)>)>,
    acl2: Seq<(Seq<char>, Seq<(u8, Seq<Seq<char>>)>)>,
    r: RequesterView,
    scope: Seq<char>,
    base: Option<u8>,
    auth: Option<u8>,
)
    requires
        acl_lookup(acl1, spec_scope_for_slug(scope), 0) == acl_lookup(acl2, spec_scope_for_slug(scope), 0),
        match_at(acl1, r, spec_scope_for_slug(scope)) is Some,
    ensures
        spec_resolve_epv(acl1, r, scope, base, auth) == spec_resolve_epv(acl2, r, scope, base, auth),
{
}

/// Two access lists give the same grants at every scope of the walk from
/// `cur` toward the root, up to and including the first scope where a
/// grant of `acl1` names the requester.
pub open spec fn agree_up_to_decider(
    acl1: Seq<(Seq<char>, Seq<(u8, Seq<Seq<char>>)>)>,
    acl2: Seq<(Seq<char>, Seq<(u8, Seq<Seq<char>>)>)>,
    r: RequesterView,
    cur: Seq<char>,
) -> bool
    decreases cur.len(),
{
    &&& acl_lookup(acl1, cur, 0) == acl_lookup(acl2, cur, 0)
    &&& (match_at(acl1, r, cur) is None && cur != seq!['/'] && spec_parent_scope(cur).len() < cur.len())
        ==> agree_up_to_decider(acl1, acl2, r, spec_parent_scope(cur))
}

proof fn lemma_walk_agree(
    acl1: Seq<(Seq<char>, Seq<(u8, Seq<Seq<char>>)>)>,
    acl2: Seq<(Seq<char>, Seq<(u8, Seq<Seq<char>>)>)>,
    r: RequesterView,
    cur: Seq<char>,
)
    requires
        agree_up_to_decider(acl1, acl2, r, cur),
    ensures
        acl_walk(acl1, r, cur) == acl_walk(acl2, r, cur),
    decreases cur.len(),
{
    if match_at(acl1, r, cur) is None && cur != seq!['/'] && spec_parent_scope(cur).len() < cur.len() {
        lemma_walk_agree(acl1, acl2, r, spec_parent_scope(cur));
    }
}

/// The first scope that names the requester decides: walking from the
/// requested scope toward the root, the first scope with a grant naming
/// the requester gives the permission (the highest such grant there), so
/// grants at scopes past it on the walk, or off the walk, change nothing:
/// two lists that agree on the walk up to that scope give the same
/// permission.
pub proof fn law_first_naming_scope_decides(
    acl1: Seq<(Seq<char>, Seq<(u8, Seq<Seq<char>>)>)>,
    acl2: Seq<(Seq<char>, Seq<(u8, Seq<Seq<char>>)>)>,
    r: RequesterView,
    scope: Seq<char>,
    base: Option<u8>,
    auth: Option<u8>,
)
    requires
        agree_up_to_decider(acl1, acl2, r, spec_scope_for_slug(scope)),
    ensures
        spec_resolve_epv(acl1, r, scope, base, auth) == spec_resolve_epv(acl2, r, scope, base, auth),
        !is_sudo(r) && upv_best(r.userpv, spec_scope_for_slug(scope)) is None ==> (acl_walk(
            acl1,
            r,
            spec_scope_for_slug(scope),
        ) matches Some(h) ==> spec_resolve_epv(acl1, r, scope, base, auth) == h),
{
    lemma_walk_agree(acl1, acl2, r, spec_scope_for_slug(scope));
}

/// Inheritance: without a per-user override and without a grant of its own
/// that names the requester, a page gets the permission of its parent
/// namespace (written as a scope already).
pub proof fn law_inherits_from_parent(
    acl: Seq<(Seq<char>, Seq<(u8, Seq<Seq<char>>)>)>,
    r: RequesterView,
    scope: Seq<char>,
    base: Option<u8>,
    auth: Option<u8>,
)
    requires
        upv_best(r.userpv, spec_scope_for_slug(scope)) is None,
        match_at(acl, r, spec_scope_for_slug(scope)) is None,
        spec_scope_for_slug(scope) != seq!['/'],
        spec_scope_for_slug(spec_parent_scope(spec_scope_for_slug(scope))) == spec_parent_scope(
            spec_scope_for_slug(scope),
        ),
    ensures
        spec_resolve_epv(acl, r, scope, base, auth) == spec_resolve_epv(
            acl,
            r,
            spec_parent_scope(spec_scope_for_slug(scope)),
            base,
            auth,
        ),
{
    let sc = spec_scope_for_slug(scope);
    let p = spec_parent_scope(sc);
    lemma_scope_shape(scope);
    if sc.len() == 1 {
        assert(sc =~= seq!['/']);
    }
    lemma_scope_no_trailing_slash(scope);
    lemma_parent_shorter(sc);
    lemma_upv_best(r.userpv, sc);
    lemma_upv_best(r.userpv, p);
    assert forall|i: int, j: int| !override_covers(r.userpv, p, i, j) by {
        lemma_parent_is_ancestor(sc, spec_scope_for_slug(r.userpv[i].1[j]));
        assert(!override_covers(r.userpv, sc, i, j));
    }
}

/// Deepest override wins: the per-user override that decides is one that
/// covers the scope, and no covering override is deeper, or as deep with a
/// higher value; with none covering, overrides play no part.
pub proof fn law_deepest_override_wins(upv: Seq<(u8, Seq<Seq<char>>)>, scope: Seq<char>)
    ensures
        upv_best(upv, scope) is None <==> (forall|i: int, j: int| !override_covers(upv, scope, i, j)),
        upv_best(upv, scope) matches Some(x) ==> {
            &&& exists|i: int, j: int| override_covers(upv, scope, i, j) && override_rank(upv, i, j) == x
            &&& forall|i: int, j: int| override_covers(upv, scope, i, j) ==> lex_le(override_rank(upv, i, j), x)
        },
{
    lemma_upv_best(upv, scope);
}

/// A per-user override decides: for a requester who is not sudo, when
/// some override covers the requested scope, the permission is the value
/// of a covering override that no other covering override outranks
/// (deeper, or as deep with a higher value), whatever the access list or
/// the configured defaults grant.
pub proof fn law_override_decides(
    acl: Seq<(Seq<char>, Seq<(u8, Seq<Seq<char>>)>)>,
    r: RequesterView,
    scope: Seq<char>,
    base: Option<u8>,
    auth: Option<u8>,
)
    requires
        !is_sudo(r),
        exists|i: int, j: int| override_covers(r.userpv, spec_scope_for_slug(scope), i, j),
    ensures
        exists|i: int, j: int|
            override_covers(r.userpv, spec_scope_for_slug(scope), i, j)
            && spec_resolve_epv(acl, r, scope, base, auth) == r.userpv[i].0
            && forall|i2: int, j2: int| override_covers(r.userpv, spec_scope_for_slug(scope), i2, j2)
                ==> lex_le(override_rank(r.userpv, i2, j2), override_rank(r.userpv, i, j)),
{
    let sc = spec_scope_for_slug(scope);
    lemma_upv_best(r.userpv, sc);
    let x = upv_best(r.userpv, sc).unwrap();
    let (i, j) = choose|i: int, j: int| override_covers(r.userpv, sc, i, j) && override_rank(r.userpv, i, j) == x;
    assert(override_covers(r.userpv, sc, i, j) && spec_resolve_epv(acl, r, scope, base, auth) == r.userpv[i].0);
}

/// With nothing naming the requester, the configured defaults decide: for
/// a requester who is not sudo, with no override covering the scope and
/// no grant on the walk naming them, a guest gets the base permission (N
/// when none is set) and a logged-in user the higher on the ladder of the
/// base and the authenticated permission.
pub proof fn law_defaults_when_nothing_names(
    acl: Seq<(Seq<char>, Seq<(u8, Seq<Seq<char>>)>)>,
    r: RequesterView,
    scope: Seq<char>,
    base: Option<u8>,
    auth: Option<u8>,
)
    requires
        !is_sudo(r),
        forall|i: int, j: int| !override_covers(r.userpv, spec_scope_for_slug(scope), i, j),
        acl_walk(acl, r, spec_scope_for_slug(scope)) is None,
    ensures
        ({
            let b = match base { Some(x) => x, None => 0u8 };
            let a = match auth { Some(x) => x, None => 0u8 };
            let e = spec_resolve_epv(acl, r, scope, base, auth);
            &&& r.username is None ==> e == b
            &&& r.username is Some ==> (e == a || e == b) && pv_order(e) >= pv_order(a) && pv_order(e) >= pv_order(b)
        }),
{
    lemma_upv_best(r.userpv, spec_scope_for_slug(scope));
}

/// Overrides cascade to children: an override that covers a namespace
/// covers every page directly beneath it.
pub proof fn law_override_cascades(upv: Seq<(u8, Seq<Seq<char>>)>, slug: Seq<char>)
    requires
        spec_scope_for_slug(slug) != seq!['/'],
        upv_best(upv, spec_parent_scope(spec_scope_for_slug(slug))) is Some,
    ensures
        upv_best(upv, spec_scope_for_slug(slug)) is Some,
{
    let sc = spec_scope_for_slug(slug);
    let p = spec_parent_scope(sc);
    lemma_scope_shape(slug);
    if sc.len() == 1 {
        assert(sc =~= seq!['/']);
    }
    lemma_scope_no_trailing_slash(slug);
    lemma_upv_best(upv, sc);
    lemma_upv_best(upv, p);
    let (i, j) = choose|i: int, j: int| override_covers(upv, p, i, j);
    lemma_parent_is_ancestor(sc, spec_scope_for_slug(upv[i].1[j]));
    assert(override_covers(upv, sc, i, j));
}

/// A display letter reads back as the permission value it labels.
pub proof fn law_label_round_trip(p: PV)
    ensures
        spec_pv_from_label(pv_letter(p)) == Some(p),
{
}

} // verus!
