use vstd::prelude::*;
use crate::decision::{
    compile, compile_cases, lemma_con_cols_first, lemma_first_con_col, lemma_swap_front, stage,
    TreeView,
};
use crate::laws::{
    law_default_concat, law_specialize_arity, law_specialize_concat, wf_matrix, wf_pat,
};
use crate::matrix::{
    all_wild, arity_of, col_ctors, col_has_con, complete, con_cols, default_matrix, default_pat,
    default_row, heads, is_wild, specialize, specialize_pat, specialize_row, swap_cols, swap_pats,
    wilds, RowView,
};
use crate::measure::{lemma_default_weight, lemma_specialize_weight, lemma_swap_weight, mat_weight};
use crate::pattern::{head_ctors, lemma_add_new_members, CtorView, PatView};
use crate::usefulness::{useful, useful_cases};

verus! {

/// Whether a tree holds a `Fail` leaf.
pub open spec fn has_fail(t: TreeView) -> bool
    decreases t,
{
    match t {
        TreeView::Leaf(_) => false,
        TreeView::Fail => true,
        TreeView::Switch(cs, d) => cases_fail(cs) || match d {
            Some(b) => has_fail(*b),
            None => false,
        },
        TreeView::Swap(_, b) => has_fail(*b),
    }
}

/// Whether one of the cases' subtrees holds a `Fail` leaf.
pub open spec fn cases_fail(cs: Seq<(CtorView, TreeView)>) -> bool
    decreases cs,
{
    if cs.len() == 0 {
        false
    } else {
        cases_fail(cs.subrange(0, cs.len() - 1)) || has_fail(cs[cs.len() - 1].1)
    }
}

proof fn lemma_cases_fail(cs: Seq<(CtorView, TreeView)>, k: int)
    requires
        0 <= k < cs.len(),
        has_fail(cs[k].1),
    ensures
        cases_fail(cs),
    decreases cs.len(),
{
    if k < cs.len() - 1 {
        let s = cs.subrange(0, cs.len() - 1);
        assert(s[k] == cs[k]);
        lemma_cases_fail(s, k);
    }
}

proof fn lemma_compile_cases_at(m: Seq<RowView>, k: nat, j: int)
    requires
        k <= heads(m, 0).len(),
        0 <= j < heads(m, 0).len() - k,
    ensures
        compile_cases(m, k).len() == heads(m, 0).len() - k,
        compile_cases(m, k)[j] == (
        heads(m, 0)[k + j],
        compile(specialize(m, heads(m, 0)[k + j])),
        ),
    decreases heads(m, 0).len() - k,
{
    if j > 0 {
        lemma_compile_cases_at(m, k + 1, j - 1);
    } else if k + 1 < heads(m, 0).len() {
        lemma_compile_cases_at(m, k + 1, 0);
    } else {
        assert(compile_cases(m, k + 1).len() == 0);
    }
}

proof fn lemma_useful_cases_witness(p: Seq<RowView>, t: Seq<PatView>, k: nat)
    requires
        useful_cases(p, t, k),
    ensures
        exists|j: int|
            k <= j < heads(p, 0).len() && #[trigger] useful(
                specialize(p, heads(p, 0)[j]),
                wilds(arity_of(heads(p, 0)[j])) + t,
            ),
    decreases heads(p, 0).len() - k,
{
    let h = heads(p, 0);
    if !useful(specialize(p, h[k as int]), wilds(arity_of(h[k as int])) + t) {
        lemma_useful_cases_witness(p, t, k + 1);
    }
}

proof fn lemma_useful_cases_none(p: Seq<RowView>, t: Seq<PatView>, k: nat)
    requires
        forall|j: int|
            k <= j < heads(p, 0).len() ==> !#[trigger] useful(
                specialize(p, heads(p, 0)[j]),
                wilds(arity_of(heads(p, 0)[j])) + t,
            ),
    ensures
        !useful_cases(p, t, k),
    decreases heads(p, 0).len() - k,
{
    if k < heads(p, 0).len() {
        let h = heads(p, 0);
        assert(!useful(specialize(p, h[k as int]), wilds(arity_of(h[k as int])) + t));
        lemma_useful_cases_none(p, t, k + 1);
    }
}

proof fn lemma_specialize_front(m: Seq<RowView>, c: CtorView)
    requires
        m.len() > 0,
    ensures
        specialize(m, c) == specialize_row(m[0], c) + specialize(m.drop_first(), c),
{
    assert(m =~= seq![m[0]] + m.drop_first());
    law_specialize_concat(seq![m[0]], m.drop_first(), c);
    crate::laws::lemma_specialize_single(m[0], c);
}

proof fn lemma_default_front(m: Seq<RowView>)
    requires
        m.len() > 0,
    ensures
        default_matrix(m) == default_row(m[0]) + default_matrix(m.drop_first()),
{
    assert(m =~= seq![m[0]] + m.drop_first());
    law_default_concat(seq![m[0]], m.drop_first());
    assert(seq![m[0]].drop_last() =~= Seq::<RowView>::empty());
    assert(default_matrix(Seq::<RowView>::empty()) == Seq::<RowView>::empty());
    assert(default_matrix(seq![m[0]]) =~= default_row(m[0]));
}

/// A constructor at the head of a well-formed pattern has a non-negative
/// arity.
proof fn lemma_head_arity(p: PatView, c: CtorView)
    requires
        wf_pat(p),
        head_ctors(p).contains(c),
    ensures
        c.arity >= 0,
    decreases p,
{
    match p {
        PatView::Con(d, args) => {
            assert(head_ctors(p)[0] == d);
            assert(seq![d].contains(c));
            let j = choose|j: int| 0 <= j < seq![d].len() && seq![d][j] == c;
            assert(j == 0);
        },
        PatView::Wild => {
            assert(head_ctors(p).len() == 0);
        },
        PatView::Or(l, r) => {
            let j = choose|j: int| 0 <= j < head_ctors(p).len() && head_ctors(p)[j] == c;
            if j < head_ctors(*l).len() {
                assert(head_ctors(*l)[j] == c);
                lemma_head_arity(*l, c);
            } else {
                assert(head_ctors(*r)[j - head_ctors(*l).len()] == c);
                lemma_head_arity(*r, c);
            }
        },
    }
}

/// The head constructors of a well-formed matrix have non-negative arities.
proof fn lemma_heads_arity(m: Seq<RowView>, n: nat, c: CtorView)
    requires
        wf_matrix(m, n),
        n >= 1,
        heads(m, 0).contains(c),
    ensures
        c.arity >= 0,
{
    lemma_add_new_members(seq![], col_ctors(m, 0));
    lemma_col_ctors_arity(m, n, c);
}

proof fn lemma_col_ctors_arity(m: Seq<RowView>, n: nat, c: CtorView)
    requires
        wf_matrix(m, n),
        n >= 1,
        col_ctors(m, 0).contains(c),
    ensures
        c.arity >= 0,
    decreases m.len(),
{
    let prev = col_ctors(m.drop_last(), 0);
    let here = head_ctors(m.last().pats[0]);
    assert(m.last() == m[m.len() - 1]);
    assert(col_ctors(m, 0) == prev + here);
    let j = choose|j: int| 0 <= j < col_ctors(m, 0).len() && col_ctors(m, 0)[j] == c;
    if j < prev.len() {
        assert(prev[j] == c);
        assert(wf_matrix(m.drop_last(), n)) by {
            assert forall|r: int| 0 <= r < m.drop_last().len() implies (#[trigger] m.drop_last()[r]).pats.len() == n
                && forall|k: int| 0 <= k < n ==> #[trigger] wf_pat(m.drop_last()[r].pats[k]) by {
                assert(m.drop_last()[r] == m[r]);
            }
        }
        lemma_col_ctors_arity(m.drop_last(), n, c);
    } else {
        assert(here[j - prev.len()] == c);
        assert(wf_pat(m[m.len() - 1].pats[0]));
        lemma_head_arity(m.last().pats[0], c);
    }
}

/// A matrix whose first row holds only wildcards leaves no row of wildcards
/// useful.
proof fn lemma_wild_first_row(p: Seq<RowView>, n: nat)
    requires
        p.len() > 0,
        p[0].pats == wilds(n),
    ensures
        !useful(p, wilds(n)),
    decreases mat_weight(p), n,
{
    if n > 0 {
        let q = wilds(n);
        let tail = q.drop_first();
        assert(tail =~= wilds((n - 1) as nat));
        assert(q[0] == PatView::Wild);
        let h = heads(p, 0);
        if complete(h) {
            lemma_add_new_members(seq![], col_ctors(p, 0));
            assert forall|j: int| 0 <= j < h.len() implies !#[trigger] useful(
                specialize(p, h[j]),
                wilds(arity_of(h[j])) + tail,
            ) by {
                let c = h[j];
                assert(h.contains(c));
                lemma_specialize_weight(p, c);
                lemma_specialize_front(p, c);
                let s = specialize(p, c);
                let m = (arity_of(c) + n - 1) as nat;
                assert(wilds(arity_of(c)) + tail =~= wilds(m));
                assert(p[0].pats.drop_first() =~= tail);
                assert(specialize_row(p[0], c) == seq![
                    RowView { pats: wilds(arity_of(c)) + tail, action: p[0].action },
                ]);
                assert(s[0].pats == wilds(m));
                lemma_wild_first_row(s, m);
            }
            lemma_useful_cases_none(p, tail, 0);
        } else {
            lemma_default_weight(p);
            lemma_default_front(p);
            let d = default_matrix(p);
            assert(p[0].pats.drop_first() =~= tail);
            assert(default_row(p[0]) == seq![RowView { pats: tail, action: p[0].action }]);
            assert(d[0].pats == wilds((n - 1) as nat));
            lemma_wild_first_row(d, (n - 1) as nat);
        }
    }
}

/// `ps` without its `j`-th element.
pub open spec fn remove_at(ps: Seq<PatView>, j: int) -> Seq<PatView> {
    ps.subrange(0, j) + ps.subrange(j + 1, ps.len() as int)
}

/// The matrix without column `j`.
pub open spec fn remove_col(m: Seq<RowView>, j: int) -> Seq<RowView> {
    m.map(|i: int, r: RowView| RowView { pats: remove_at(r.pats, j), action: r.action })
}

/// Column `j` holds only wildcards.
pub open spec fn col_all_wild(m: Seq<RowView>, j: int) -> bool {
    forall|r: int| 0 <= r < m.len() ==> is_wild(#[trigger] m[r].pats[j])
}

/// Every row has more than `j` columns.
pub open spec fn rows_longer(m: Seq<RowView>, j: int) -> bool {
    forall|r: int| 0 <= r < m.len() ==> (#[trigger] m[r]).pats.len() > j
}

proof fn lemma_remove_col_concat(a: Seq<RowView>, b: Seq<RowView>, j: int)
    ensures
        remove_col(a + b, j) == remove_col(a, j) + remove_col(b, j),
{
    assert(remove_col(a + b, j) =~= remove_col(a, j) + remove_col(b, j));
}

proof fn lemma_remove_at_concat(x: Seq<PatView>, t: Seq<PatView>, j: int)
    requires
        0 <= j < t.len(),
    ensures
        remove_at(x + t, x.len() + j) == x + remove_at(t, j),
{
    assert(remove_at(x + t, x.len() + j) =~= x + remove_at(t, j));
}

proof fn lemma_specialize_pat_remove(h: PatView, t: Seq<PatView>, act: usize, c: CtorView, j: int)
    requires
        wf_pat(h),
        c.arity >= 0,
        0 <= j < t.len(),
    ensures
        remove_col(specialize_pat(h, t, act, c), c.arity + j) == specialize_pat(
            h,
            remove_at(t, j),
            act,
            c,
        ),
        rows_longer(specialize_pat(h, t, act, c), c.arity + j),
        is_wild(t[j]) ==> col_all_wild(specialize_pat(h, t, act, c), c.arity + j),
    decreases h,
{
    match h {
        PatView::Con(d, args) => {
            if d == c {
                lemma_remove_at_concat(args, t, j);
                let s = specialize_pat(h, t, act, c);
                assert(remove_col(s, c.arity + j) =~= specialize_pat(h, remove_at(t, j), act, c));
                assert(s[0].pats[c.arity + j] == t[j]);
            } else {
                assert(remove_col(seq![], c.arity + j) =~= Seq::<RowView>::empty());
            }
        },
        PatView::Wild => {
            let w = wilds(arity_of(c));
            lemma_remove_at_concat(w, t, j);
            let s = specialize_pat(h, t, act, c);
            assert(remove_col(s, c.arity + j) =~= specialize_pat(h, remove_at(t, j), act, c));
            assert(s[0].pats[c.arity + j] == t[j]);
        },
        PatView::Or(l, r) => {
            lemma_specialize_pat_remove(*l, t, act, c, j);
            lemma_specialize_pat_remove(*r, t, act, c, j);
            let a = specialize_pat(*l, t, act, c);
            let b = specialize_pat(*r, t, act, c);
            lemma_remove_col_concat(a, b, c.arity + j);
            assert forall|i: int| 0 <= i < (a + b).len() implies (#[trigger] (a + b)[i]).pats.len()
                > c.arity + j by {
                if i >= a.len() {
                    assert((a + b)[i] == b[i - a.len()]);
                }
            }
            if is_wild(t[j]) {
                assert forall|i: int| 0 <= i < (a + b).len() implies is_wild(
                    #[trigger] (a + b)[i].pats[c.arity + j],
                ) by {
                    if i >= a.len() {
                        assert((a + b)[i] == b[i - a.len()]);
                    }
                }
            }
        },
    }
}

proof fn lemma_default_pat_remove(h: PatView, t: Seq<PatView>, act: usize, j: int)
    requires
        0 <= j < t.len(),
    ensures
        remove_col(default_pat(h, t, act), j) == default_pat(h, remove_at(t, j), act),
        forall|i: int|
            0 <= i < default_pat(h, t, act).len() ==> (#[trigger] default_pat(h, t, act)[i]).pats
                == t,
    decreases h,
{
    match h {
        PatView::Con(_, _) => {
            assert(remove_col(seq![], j) =~= Seq::<RowView>::empty());
        },
        PatView::Wild => {
            assert(remove_col(default_pat(h, t, act), j) =~= default_pat(h, remove_at(t, j), act));
        },
        PatView::Or(l, r) => {
            lemma_default_pat_remove(*l, t, act, j);
            lemma_default_pat_remove(*r, t, act, j);
            let a = default_pat(*l, t, act);
            let b = default_pat(*r, t, act);
            lemma_remove_col_concat(a, b, j);
            assert forall|i: int| 0 <= i < (a + b).len() implies (#[trigger] (a + b)[i]).pats == t by {
                if i >= a.len() {
                    assert((a + b)[i] == b[i - a.len()]);
                }
            }
        },
    }
}

proof fn lemma_wf_drop_last(m: Seq<RowView>, n: nat)
    requires
        wf_matrix(m, n),
        m.len() > 0,
    ensures
        wf_matrix(m.drop_last(), n),
        m.last().pats.len() == n,
        forall|k: int| 0 <= k < n ==> #[trigger] wf_pat(m.last().pats[k]),
{
    assert(m.last() == m[m.len() - 1]);
    assert forall|r: int| 0 <= r < m.drop_last().len() implies (#[trigger] m.drop_last()[r]).pats.len()
        == n && forall|k: int| 0 <= k < n ==> #[trigger] wf_pat(m.drop_last()[r].pats[k]) by {
        assert(m.drop_last()[r] == m[r]);
    }
}

/// Removing a column other than the first commutes with specialization, the
/// removed column moving right by the constructor's arity less one.
proof fn lemma_specialize_remove(m: Seq<RowView>, n: nat, c: CtorView, j: int)
    requires
        wf_matrix(m, n),
        1 <= j < n,
        c.arity >= 0,
    ensures
        remove_col(specialize(m, c), c.arity + j - 1) == specialize(remove_col(m, j), c),
        rows_longer(specialize(m, c), c.arity + j - 1),
        col_all_wild(m, j) ==> col_all_wild(specialize(m, c), c.arity + j - 1),
    decreases m.len(),
{
    if m.len() == 0 {
        assert(remove_col(m, j) =~= Seq::<RowView>::empty());
        assert(remove_col(Seq::<RowView>::empty(), c.arity + j - 1) =~= Seq::<RowView>::empty());
    } else {
        lemma_wf_drop_last(m, n);
        lemma_specialize_remove(m.drop_last(), n, c, j);
        let r = m.last();
        let t = r.pats.drop_first();
        assert(t[j - 1] == r.pats[j]);
        lemma_specialize_pat_remove(r.pats[0], t, r.action, c, j - 1);
        let rm = remove_col(m, j);
        assert(rm.drop_last() =~= remove_col(m.drop_last(), j));
        assert(rm.last().pats[0] == r.pats[0]);
        assert(rm.last().pats.drop_first() =~= remove_at(t, j - 1));
        assert(rm.last().action == r.action);
        let a = specialize(m.drop_last(), c);
        let b = specialize_row(r, c);
        lemma_remove_col_concat(a, b, c.arity + j - 1);
        assert forall|i: int| 0 <= i < (a + b).len() implies (#[trigger] (a + b)[i]).pats.len() > c.arity
            + j - 1 by {
            if i >= a.len() {
                assert((a + b)[i] == b[i - a.len()]);
            }
        }
        if col_all_wild(m, j) {
            assert(col_all_wild(m.drop_last(), j)) by {
                assert forall|i: int| 0 <= i < m.drop_last().len() implies is_wild(
                    #[trigger] m.drop_last()[i].pats[j],
                ) by {
                    assert(m.drop_last()[i] == m[i]);
                }
            }
            assert(is_wild(m[m.len() - 1].pats[j]));
            assert forall|i: int| 0 <= i < (a + b).len() implies is_wild(
                #[trigger] (a + b)[i].pats[c.arity + j - 1],
            ) by {
                if i >= a.len() {
                    assert((a + b)[i] == b[i - a.len()]);
                }
            }
        }
    }
}

/// Removing a column other than the first commutes with the default matrix,
/// the removed column moving left by one.
proof fn lemma_default_remove(m: Seq<RowView>, n: nat, j: int)
    requires
        wf_matrix(m, n),
        1 <= j < n,
    ensures
        remove_col(default_matrix(m), j - 1) == default_matrix(remove_col(m, j)),
        wf_matrix(default_matrix(m), (n - 1) as nat),
        col_all_wild(m, j) ==> col_all_wild(default_matrix(m), j - 1),
    decreases m.len(),
{
    if m.len() == 0 {
        assert(remove_col(m, j) =~= Seq::<RowView>::empty());
        assert(remove_col(Seq::<RowView>::empty(), j - 1) =~= Seq::<RowView>::empty());
    } else {
        lemma_wf_drop_last(m, n);
        lemma_default_remove(m.drop_last(), n, j);
        let r = m.last();
        let t = r.pats.drop_first();
        assert(t[j - 1] == r.pats[j]);
        lemma_default_pat_remove(r.pats[0], t, r.action, j - 1);
        let rm = remove_col(m, j);
        assert(rm.drop_last() =~= remove_col(m.drop_last(), j));
        assert(rm.last().pats[0] == r.pats[0]);
        assert(rm.last().pats.drop_first() =~= remove_at(t, j - 1));
        assert(rm.last().action == r.action);
        let a = default_matrix(m.drop_last());
        let b = default_row(r);
        lemma_remove_col_concat(a, b, j - 1);
        assert forall|i: int| 0 <= i < (a + b).len() implies (#[trigger] (a + b)[i]).pats.len()
            == (n - 1) as nat && forall|k: int|
            0 <= k < (n - 1) as nat ==> #[trigger] wf_pat((a + b)[i].pats[k]) by {
            if i >= a.len() {
                assert((a + b)[i] == b[i - a.len()]);
                assert forall|k: int| 0 <= k < (n - 1) as nat implies #[trigger] wf_pat(
                    (a + b)[i].pats[k],
                ) by {
                    assert(t[k] == r.pats[k + 1]);
                }
            }
        }
        if col_all_wild(m, j) {
            assert(col_all_wild(m.drop_last(), j)) by {
                assert forall|i: int| 0 <= i < m.drop_last().len() implies is_wild(
                    #[trigger] m.drop_last()[i].pats[j],
                ) by {
                    assert(m.drop_last()[i] == m[i]);
                }
            }
            assert(is_wild(m[m.len() - 1].pats[j]));
            assert forall|i: int| 0 <= i < (a + b).len() implies is_wild(
                #[trigger] (a + b)[i].pats[j - 1],
            ) by {
                if i >= a.len() {
                    assert((a + b)[i] == b[i - a.len()]);
                }
            }
        }
    }
}

proof fn lemma_useful_cases_some(p: Seq<RowView>, t: Seq<PatView>, k: nat, j: int)
    requires
        k <= j < heads(p, 0).len(),
        useful(specialize(p, heads(p, 0)[j]), wilds(arity_of(heads(p, 0)[j])) + t),
    ensures
        useful_cases(p, t, k),
    decreases j - k,
{
    if k < j {
        lemma_useful_cases_some(p, t, k + 1, j);
    }
}

/// With a first column of wildcards, the default matrix drops that column,
/// and the column has no head constructors.
proof fn lemma_default_wild_col(m: Seq<RowView>)
    requires
        rows_longer(m, 0),
        col_all_wild(m, 0),
    ensures
        default_matrix(m) == remove_col(m, 0),
        col_ctors(m, 0) == Seq::<CtorView>::empty(),
    decreases m.len(),
{
    if m.len() == 0 {
        assert(remove_col(m, 0) =~= Seq::<RowView>::empty());
    } else {
        assert(rows_longer(m.drop_last(), 0)) by {
            assert forall|i: int| 0 <= i < m.drop_last().len() implies (#[trigger] m.drop_last()[i]).pats.len() > 0 by {
                assert(m.drop_last()[i] == m[i]);
            }
        }
        assert(col_all_wild(m.drop_last(), 0)) by {
            assert forall|i: int| 0 <= i < m.drop_last().len() implies is_wild(
                #[trigger] m.drop_last()[i].pats[0],
            ) by {
                assert(m.drop_last()[i] == m[i]);
            }
        }
        lemma_default_wild_col(m.drop_last());
        let r = m.last();
        assert(r == m[m.len() - 1]);
        assert(is_wild(r.pats[0]));
        assert(r.pats.len() > 0);
        assert(remove_at(r.pats, 0) =~= r.pats.drop_first());
        assert(remove_col(m, 0) =~= remove_col(m.drop_last(), 0) + default_row(r));
        assert(head_ctors(r.pats[0]) =~= Seq::<CtorView>::empty());
        assert(col_ctors(m, 0) =~= Seq::<CtorView>::empty());
    }
}

proof fn lemma_col_ctors_remove(m: Seq<RowView>, j: int)
    requires
        j >= 1,
        rows_longer(m, j),
    ensures
        col_ctors(remove_col(m, j), 0) == col_ctors(m, 0),
    decreases m.len(),
{
    if m.len() > 0 {
        assert(rows_longer(m.drop_last(), j)) by {
            assert forall|i: int| 0 <= i < m.drop_last().len() implies (#[trigger] m.drop_last()[i]).pats.len() > j by {
                assert(m.drop_last()[i] == m[i]);
            }
        }
        lemma_col_ctors_remove(m.drop_last(), j);
        let rm = remove_col(m, j);
        assert(rm.drop_last() =~= remove_col(m.drop_last(), j));
        assert(m.last() == m[m.len() - 1]);
        assert(rm.last().pats[0] == m.last().pats[0]);
    }
}

proof fn lemma_remove_col_wf(m: Seq<RowView>, n: nat, j: int)
    requires
        wf_matrix(m, n),
        0 <= j < n,
    ensures
        wf_matrix(remove_col(m, j), (n - 1) as nat),
        rows_longer(m, j),
{
    let rm = remove_col(m, j);
    assert forall|r: int| 0 <= r < rm.len() implies (#[trigger] rm[r]).pats.len() == (n - 1) as nat
        && forall|k: int| 0 <= k < (n - 1) as nat ==> #[trigger] wf_pat(rm[r].pats[k]) by {
        assert(m[r].pats.len() == n);
        assert forall|k: int| 0 <= k < (n - 1) as nat implies #[trigger] wf_pat(rm[r].pats[k]) by {
            if k < j {
                assert(rm[r].pats[k] == m[r].pats[k]);
            } else {
                assert(rm[r].pats[k] == m[r].pats[k + 1]);
            }
        }
    }
    assert forall|r: int| 0 <= r < m.len() implies (#[trigger] m[r]).pats.len() > j by {}
}

/// A column of wildcards changes nothing to the usefulness of a row of
/// wildcards: removing it from the matrix and one wildcard from the row keeps
/// the answer.
proof fn lemma_remove_wild_col(p: Seq<RowView>, n: nat, j: int)
    requires
        wf_matrix(p, n),
        0 <= j < n,
        col_all_wild(p, j),
    ensures
        useful(p, wilds(n)) == useful(remove_col(p, j), wilds((n - 1) as nat)),
    decreases mat_weight(p), n,
{
    lemma_remove_col_wf(p, n, j);
    let q = wilds(n);
    let tail = q.drop_first();
    assert(tail =~= wilds((n - 1) as nat));
    assert(q[0] == PatView::Wild);
    if j == 0 {
        lemma_default_wild_col(p);
        assert(heads(p, 0) == Seq::<CtorView>::empty());
    } else {
        let p2 = remove_col(p, j);
        let q2 = wilds((n - 1) as nat);
        let tail2 = q2.drop_first();
        assert(tail2 =~= wilds((n - 2) as nat));
        assert(q2[0] == PatView::Wild);
        lemma_col_ctors_remove(p, j);
        let h = heads(p, 0);
        assert(heads(p2, 0) == h);
        if complete(h) {
            lemma_add_new_members(seq![], col_ctors(p, 0));
            assert forall|k: int| 0 <= k < h.len() implies #[trigger] useful(
                specialize(p, h[k]),
                wilds(arity_of(h[k])) + tail,
            ) == useful(specialize(p2, h[k]), wilds(arity_of(h[k])) + tail2) by {
                let c = h[k];
                assert(h.contains(c));
                lemma_heads_arity(p, n, c);
                lemma_specialize_weight(p, c);
                law_specialize_arity(p, n, c);
                lemma_specialize_remove(p, n, c, j);
                let a = arity_of(c);
                assert(wilds(a) + tail =~= wilds((a + n - 1) as nat));
                assert(wilds(a) + tail2 =~= wilds((a + n - 2) as nat));
                lemma_remove_wild_col(specialize(p, c), (a + n - 1) as nat, c.arity + j - 1);
            }
            if useful_cases(p, tail, 0) {
                lemma_useful_cases_witness(p, tail, 0);
                let k = choose|k: int|
                    0 <= k < h.len() && #[trigger] useful(
                        specialize(p, h[k]),
                        wilds(arity_of(h[k])) + tail,
                    );
                lemma_useful_cases_some(p2, tail2, 0, k);
            } else {
                assert forall|k: int| 0 <= k < h.len() implies !#[trigger] useful(
                    specialize(p2, h[k]),
                    wilds(arity_of(h[k])) + tail2,
                ) by {
                    if useful(specialize(p2, h[k]), wilds(arity_of(h[k])) + tail2) {
                        lemma_useful_cases_some(p, tail, 0, k);
                    }
                }
                lemma_useful_cases_none(p2, tail2, 0);
            }
        } else {
            lemma_default_weight(p);
            lemma_default_remove(p, n, j);
            lemma_remove_wild_col(default_matrix(p), (n - 1) as nat, j - 1);
        }
    }
}

/// The matrix without columns `s` to `s + len - 1`.
pub open spec fn remove_block(m: Seq<RowView>, s: int, len: int) -> Seq<RowView> {
    m.map(
        |i: int, r: RowView|
            RowView {
                pats: r.pats.subrange(0, s) + r.pats.subrange(s + len, r.pats.len() as int),
                action: r.action,
            },
    )
}

proof fn lemma_remove_wild_block(p: Seq<RowView>, n: nat, s: int, len: int)
    requires
        wf_matrix(p, n),
        0 <= s,
        0 <= len,
        s + len <= n,
        forall|x: int| s <= x < s + len ==> #[trigger] col_all_wild(p, x),
    ensures
        useful(p, wilds(n)) == useful(remove_block(p, s, len), wilds((n - len) as nat)),
    decreases len,
{
    if len == 0 {
        assert forall|r: int| 0 <= r < p.len() implies #[trigger] remove_block(p, s, len)[r] == p[r] by {
            assert(p[r].pats.subrange(0, s) + p[r].pats.subrange(s, p[r].pats.len() as int)
                =~= p[r].pats);
        }
        assert(remove_block(p, s, len) =~= p);
    } else {
        assert(col_all_wild(p, s));
        lemma_remove_wild_col(p, n, s);
        lemma_remove_col_wf(p, n, s);
        let p1 = remove_col(p, s);
        assert forall|x: int| s <= x < s + len - 1 implies #[trigger] col_all_wild(p1, x) by {
            assert(col_all_wild(p, x + 1));
            assert forall|r: int| 0 <= r < p1.len() implies is_wild(#[trigger] p1[r].pats[x]) by {
                assert(p1[r].pats[x] == p[r].pats[x + 1]);
            }
        }
        lemma_remove_wild_block(p1, (n - 1) as nat, s, len - 1);
        assert forall|r: int| 0 <= r < p.len() implies #[trigger] remove_block(p1, s, len - 1)[r]
            == remove_block(p, s, len)[r] by {
            assert(p[r].pats.len() == n);
            assert(p1[r].pats.subrange(0, s) + p1[r].pats.subrange(
                s + len - 1,
                p1[r].pats.len() as int,
            ) =~= p[r].pats.subrange(0, s) + p[r].pats.subrange(s + len, p[r].pats.len() as int));
        }
        assert(remove_block(p1, s, len - 1) =~= remove_block(p, s, len));
    }
}

/// Bringing column `i` to the front, when the columns before it hold only
/// wildcards, keeps the usefulness of a row of wildcards.
proof fn lemma_swap_useful(p: Seq<RowView>, n: nat, i: int)
    requires
        wf_matrix(p, n),
        0 < i < n,
        forall|x: int| 0 <= x < i ==> #[trigger] col_all_wild(p, x),
    ensures
        useful(swap_cols(p, i), wilds(n)) == useful(p, wilds(n)),
        wf_matrix(swap_cols(p, i), n),
{
    let sp = swap_cols(p, i);
    assert forall|r: int| 0 <= r < sp.len() implies (#[trigger] sp[r]).pats.len() == n && forall|k: int|
        0 <= k < n ==> #[trigger] wf_pat(sp[r].pats[k]) by {
        assert(sp[r].pats == swap_pats(p[r].pats, i));
        assert forall|k: int| 0 <= k < n implies #[trigger] wf_pat(sp[r].pats[k]) by {
            if k == 0 {
                assert(sp[r].pats[k] == p[r].pats[i]);
            } else if k == i {
                assert(sp[r].pats[k] == p[r].pats[0]);
            } else {
                assert(sp[r].pats[k] == p[r].pats[k]);
            }
        }
    }
    lemma_remove_wild_block(p, n, 0, i);
    assert forall|x: int| 1 <= x < 1 + i implies #[trigger] col_all_wild(sp, x) by {
        assert forall|r: int| 0 <= r < sp.len() implies is_wild(#[trigger] sp[r].pats[x]) by {
            assert(sp[r].pats == swap_pats(p[r].pats, i));
            assert(p[r].pats.len() == n);
            if x == i {
                assert(col_all_wild(p, 0));
                assert(sp[r].pats[x] == p[r].pats[0]);
            } else {
                assert(col_all_wild(p, x));
                assert(sp[r].pats[x] == p[r].pats[x]);
            }
        }
    }
    lemma_remove_wild_block(sp, n, 1, i);
    assert forall|r: int| 0 <= r < p.len() implies #[trigger] remove_block(sp, 1, i)[r]
        == remove_block(p, 0, i)[r] by {
        assert(sp[r].pats == swap_pats(p[r].pats, i));
        assert(p[r].pats.len() == n);
        assert(sp[r].pats.subrange(0, 1) + sp[r].pats.subrange(1 + i, sp[r].pats.len() as int)
            =~= p[r].pats.subrange(0, 0) + p[r].pats.subrange(i, p[r].pats.len() as int));
    }
    assert(remove_block(sp, 1, i) =~= remove_block(p, 0, i));
}

proof fn lemma_default_wf(m: Seq<RowView>, n: nat)
    requires
        wf_matrix(m, n),
        n >= 1,
    ensures
        wf_matrix(default_matrix(m), (n - 1) as nat),
    decreases m.len(),
{
    if m.len() > 0 {
        lemma_wf_drop_last(m, n);
        lemma_default_wf(m.drop_last(), n);
        let r = m.last();
        let t = r.pats.drop_first();
        lemma_default_pat_remove(r.pats[0], t + seq![PatView::Wild], r.action, t.len() as int);
        let a = default_matrix(m.drop_last());
        let b = default_row(r);
        assert forall|i: int| 0 <= i < (a + b).len() implies (#[trigger] (a + b)[i]).pats.len()
            == (n - 1) as nat && forall|k: int|
            0 <= k < (n - 1) as nat ==> #[trigger] wf_pat((a + b)[i].pats[k]) by {
            if i >= a.len() {
                assert((a + b)[i] == b[i - a.len()]);
                lemma_default_rows(r.pats[0], t, r.action);
                assert forall|k: int| 0 <= k < (n - 1) as nat implies #[trigger] wf_pat(
                    (a + b)[i].pats[k],
                ) by {
                    assert(t[k] == r.pats[k + 1]);
                }
            }
        }
    }
}

proof fn lemma_default_rows(h: PatView, t: Seq<PatView>, act: usize)
    ensures
        forall|i: int| 0 <= i < default_pat(h, t, act).len() ==> (#[trigger] default_pat(h, t, act)[i]).pats == t,
    decreases h,
{
    match h {
        PatView::Or(l, r) => {
            lemma_default_rows(*l, t, act);
            lemma_default_rows(*r, t, act);
            let a = default_pat(*l, t, act);
            let b = default_pat(*r, t, act);
            assert forall|i: int| 0 <= i < (a + b).len() implies (#[trigger] (a + b)[i]).pats == t by {
                if i >= a.len() {
                    assert((a + b)[i] == b[i - a.len()]);
                }
            }
        },
        _ => {},
    }
}

/// When a row of wildcards is useful against a well-formed matrix (the match
/// is not exhaustive), the decision tree compiled from it holds a `Fail`
/// leaf.
pub proof fn law_not_exhaustive_has_fail(p: Seq<RowView>, n: nat)
    requires
        wf_matrix(p, n),
        useful(p, wilds(n)),
    ensures
        has_fail(compile(p)),
    decreases mat_weight(p), stage(p),
{
    if p.len() == 0 {
    } else if all_wild(p[0].pats) {
        assert(p[0].pats =~= wilds(n));
        lemma_wild_first_row(p, n);
    } else {
        lemma_first_con_col(p);
        let i = con_cols(p, 0)[0];
        let first = con_cols(p, 0);
        assert(col_has_con(p, i as int));
        let r0 = choose|r: int| 0 <= r < p.len() && i < p[r].pats.len() && !is_wild(#[trigger] p[r].pats[i as int]);
        assert(i < n);
        if i > 0 {
            lemma_con_cols_first(p, 0, i);
            assert forall|x: int| 0 <= x < i implies #[trigger] col_all_wild(p, x) by {
                assert(!col_has_con(p, x));
                assert forall|r: int| 0 <= r < p.len() implies is_wild(#[trigger] p[r].pats[x]) by {
                    assert(p[r].pats.len() == n);
                }
            }
            lemma_swap_useful(p, n, i as int);
            lemma_swap_weight(p, i as int);
            lemma_swap_front(p, i as int);
            law_not_exhaustive_has_fail(swap_cols(p, i as int), n);
        } else {
            let q = wilds(n);
            let tail = q.drop_first();
            assert(tail =~= wilds((n - 1) as nat));
            assert(q[0] == PatView::Wild);
            let h = heads(p, 0);
            if complete(h) {
                lemma_useful_cases_witness(p, tail, 0);
                let k = choose|k: int|
                    0 <= k < h.len() && #[trigger] useful(
                        specialize(p, h[k]),
                        wilds(arity_of(h[k])) + tail,
                    );
                let c = h[k];
                lemma_add_new_members(seq![], col_ctors(p, 0));
                assert(h.contains(c));
                lemma_heads_arity(p, n, c);
                lemma_specialize_weight(p, c);
                law_specialize_arity(p, n, c);
                let a = arity_of(c);
                assert(wilds(a) + tail =~= wilds((a + n - 1) as nat));
                law_not_exhaustive_has_fail(specialize(p, c), (a + n - 1) as nat);
                lemma_compile_cases_at(p, 0, k);
                lemma_cases_fail(compile_cases(p, 0), k);
            } else {
                lemma_default_weight(p);
                lemma_default_wf(p, n);
                law_not_exhaustive_has_fail(default_matrix(p), (n - 1) as nat);
            }
        }
    }
}

} // verus!
