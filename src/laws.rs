use vstd::prelude::*;
use crate::matrix::{
    arity_of, default_matrix, default_pat, default_row, specialize, specialize_pat, specialize_row,
    wilds, RowView,
};
use crate::pattern::{CtorView, PatView};

verus! {

/// A well-formed pattern: every constructor in it carries as many
/// sub-patterns as its arity says.
pub open spec fn wf_pat(p: PatView) -> bool
    decreases p,
{
    match p {
        PatView::Con(c, args) => args.len() == c.arity && all_true(wf_flags(args)),
        PatView::Wild => true,
        PatView::Or(l, r) => wf_pat(*l) && wf_pat(*r),
    }
}

pub open spec fn all_true(s: Seq<bool>) -> bool
    decreases s.len(),
{
    s.len() == 0 || (s.last() && all_true(s.drop_last()))
}

pub proof fn lemma_all_true(s: Seq<bool>, k: int)
    requires
        all_true(s),
        0 <= k < s.len(),
    ensures
        s[k],
    decreases s.len(),
{
    if k < s.len() - 1 {
        lemma_all_true(s.drop_last(), k);
    }
}

/// Which of `ps` are well-formed.
pub open spec fn wf_flags(ps: Seq<PatView>) -> Seq<bool>
    decreases ps,
{
    ps.map(|i: int, a: PatView| 0 <= i < ps.len() && a == ps[i] && wf_pat(a))
}

/// A well-formed matrix of `n` columns: every row has `n` patterns, all
/// well-formed.
pub open spec fn wf_matrix(m: Seq<RowView>, n: nat) -> bool {
    forall|r: int|
        0 <= r < m.len() ==> (#[trigger] m[r]).pats.len() == n && forall|k: int|
            0 <= k < n ==> #[trigger] wf_pat(m[r].pats[k])
}

proof fn lemma_specialize_pat_arity(head: PatView, tail: Seq<PatView>, action: usize, c: CtorView)
    requires
        wf_pat(head),
        c.arity >= 0,
        forall|k: int| 0 <= k < tail.len() ==> #[trigger] wf_pat(tail[k]),
    ensures
        forall|j: int|
            0 <= j < specialize_pat(head, tail, action, c).len() ==> (#[trigger] specialize_pat(
                head,
                tail,
                action,
                c,
            )[j]).pats.len() == c.arity + tail.len() && forall|k: int|
                0 <= k < specialize_pat(head, tail, action, c)[j].pats.len() ==> #[trigger] wf_pat(
                    specialize_pat(head, tail, action, c)[j].pats[k],
                ),
    decreases head,
{
    match head {
        PatView::Con(d, args) => {
            if d == c {
                let ps = args + tail;
                assert forall|k: int| 0 <= k < args.len() implies #[trigger] wf_pat(args[k]) by {
                    lemma_all_true(wf_flags(args), k);
                }
                assert forall|k: int| 0 <= k < ps.len() implies #[trigger] wf_pat(ps[k]) by {
                    if k < args.len() {
                        assert(wf_pat(args[k]));
                    } else {
                        assert(ps[k] == tail[k - args.len()]);
                    }
                }
            }
        },
        PatView::Wild => {
            let ps = wilds(arity_of(c)) + tail;
            assert forall|k: int| 0 <= k < ps.len() implies #[trigger] wf_pat(ps[k]) by {
                if k >= arity_of(c) {
                    assert(ps[k] == tail[k - arity_of(c)]);
                }
            }
        },
        PatView::Or(l, r) => {
            lemma_specialize_pat_arity(*l, tail, action, c);
            lemma_specialize_pat_arity(*r, tail, action, c);
            let a = specialize_pat(*l, tail, action, c);
            let b = specialize_pat(*r, tail, action, c);
            assert forall|j: int| 0 <= j < (a + b).len() implies (#[trigger] (a + b)[j]).pats.len()
                == c.arity + tail.len() && forall|k: int|
                0 <= k < (a + b)[j].pats.len() ==> #[trigger] wf_pat((a + b)[j].pats[k]) by {
                if j >= a.len() {
                    assert((a + b)[j] == b[j - a.len()]);
                }
            }
        },
    }
}

/// Specialization goes row by row: the specialized matrix of two blocks of
/// rows is the specialized first block followed by the specialized second.
pub proof fn law_specialize_concat(a: Seq<RowView>, b: Seq<RowView>, c: CtorView)
    ensures
        specialize(a + b, c) == specialize(a, c) + specialize(b, c),
    decreases b.len(),
{
    if b.len() == 0 {
        assert(a + b =~= a);
        assert(specialize(a, c) + specialize(b, c) =~= specialize(a, c));
    } else {
        assert((a + b).drop_last() =~= a + b.drop_last());
        law_specialize_concat(a, b.drop_last(), c);
        assert(specialize(a + b, c) =~= specialize(a, c) + specialize(b, c));
    }
}

/// A row whose first pattern is an or-pattern specializes as the row with the
/// left side first followed by the row with the right side first.
pub proof fn law_specialize_or(l: PatView, r: PatView, tail: Seq<PatView>, action: usize, c: CtorView)
    ensures
        specialize(seq![RowView { pats: seq![PatView::Or(Box::new(l), Box::new(r))] + tail, action }], c)
            == specialize(seq![RowView { pats: seq![l] + tail, action }], c) + specialize(
            seq![RowView { pats: seq![r] + tail, action }],
            c,
        ),
{
    lemma_specialize_single(RowView { pats: seq![PatView::Or(Box::new(l), Box::new(r))] + tail, action }, c);
    lemma_specialize_single(RowView { pats: seq![l] + tail, action }, c);
    lemma_specialize_single(RowView { pats: seq![r] + tail, action }, c);
    assert((seq![PatView::Or(Box::new(l), Box::new(r))] + tail).drop_first() =~= tail);
    assert((seq![l] + tail).drop_first() =~= tail);
    assert((seq![r] + tail).drop_first() =~= tail);
}

pub proof fn lemma_specialize_single(r: RowView, c: CtorView)
    ensures
        specialize(seq![r], c) == specialize_row(r, c),
{
    assert(seq![r].drop_last() =~= Seq::<RowView>::empty());
    assert(specialize(Seq::<RowView>::empty(), c) == Seq::<RowView>::empty());
    assert(Seq::<RowView>::empty() + specialize_row(r, c) =~= specialize_row(r, c));
}

/// Specializing a well-formed matrix of `n` columns (`n` at least one) by a
/// constructor of arity `a` gives a well-formed matrix of `n - 1 + a`
/// columns.
pub proof fn law_specialize_arity(m: Seq<RowView>, n: nat, c: CtorView)
    requires
        n >= 1,
        c.arity >= 0,
        wf_matrix(m, n),
    ensures
        wf_matrix(specialize(m, c), (n - 1 + c.arity) as nat),
    decreases m.len(),
{
    if m.len() > 0 {
        let r = m.last();
        assert(wf_matrix(m.drop_last(), n)) by {
            assert forall|i: int| 0 <= i < m.drop_last().len() implies (#[trigger] m.drop_last()[i]).pats.len()
                == n && forall|k: int| 0 <= k < n ==> #[trigger] wf_pat(m.drop_last()[i].pats[k]) by {
                assert(m.drop_last()[i] == m[i]);
            }
        }
        law_specialize_arity(m.drop_last(), n, c);
        assert(r == m[m.len() - 1]);
        assert(wf_pat(r.pats[0]));
        assert forall|k: int| 0 <= k < r.pats.drop_first().len() implies #[trigger] wf_pat(
            r.pats.drop_first()[k],
        ) by {
            assert(r.pats.drop_first()[k] == r.pats[k + 1]);
        }
        lemma_specialize_pat_arity(r.pats[0], r.pats.drop_first(), r.action, c);
        let a = specialize(m.drop_last(), c);
        let b = specialize_row(r, c);
        assert forall|j: int| 0 <= j < (a + b).len() implies (#[trigger] (a + b)[j]).pats.len() == (n
            - 1 + c.arity) as nat && forall|k: int|
            0 <= k < (n - 1 + c.arity) as nat ==> #[trigger] wf_pat((a + b)[j].pats[k]) by {
            if j >= a.len() {
                assert((a + b)[j] == b[j - a.len()]);
            } else {
                assert((a + b)[j] == a[j]);
            }
        }
    }
}

/// The default matrix goes row by row: that of two blocks of rows is the
/// first block's followed by the second's.
pub proof fn law_default_concat(a: Seq<RowView>, b: Seq<RowView>)
    ensures
        default_matrix(a + b) == default_matrix(a) + default_matrix(b),
    decreases b.len(),
{
    if b.len() == 0 {
        assert(a + b =~= a);
        assert(default_matrix(a) + default_matrix(b) =~= default_matrix(a));
    } else {
        assert((a + b).drop_last() =~= a + b.drop_last());
        law_default_concat(a, b.drop_last());
        assert(default_matrix(a + b) =~= default_matrix(a) + default_matrix(b));
    }
}

/// A row whose first pattern is a constructor pattern gives no row of the
/// default matrix: the default matrix is that of the rows before it followed
/// by that of the rows after it.
pub proof fn law_default_drops_constructed(m: Seq<RowView>, k: int)
    requires
        0 <= k < m.len(),
        m[k].pats.len() > 0,
        m[k].pats[0] is Con,
    ensures
        default_matrix(m) == default_matrix(m.subrange(0, k)) + default_matrix(
            m.subrange(k + 1, m.len() as int),
        ),
{
    let a = m.subrange(0, k);
    let b = m.subrange(k + 1, m.len() as int);
    assert(m =~= a + seq![m[k]] + b);
    law_default_concat(a + seq![m[k]], b);
    law_default_concat(a, seq![m[k]]);
    assert(seq![m[k]].drop_last() =~= Seq::<RowView>::empty());
    assert(default_matrix(Seq::<RowView>::empty()) == Seq::<RowView>::empty());
    assert(default_row(m[k]) == Seq::<RowView>::empty());
    assert(default_matrix(seq![m[k]]) == default_matrix(seq![m[k]].drop_last()) + default_row(
        seq![m[k]].last(),
    ));
    assert(default_matrix(seq![m[k]]) =~= Seq::<RowView>::empty());
    assert(default_matrix(a) + Seq::<RowView>::empty() =~= default_matrix(a));
}

proof fn lemma_specialize_pat_rows(h: PatView, t: Seq<PatView>, act: usize, c: CtorView)
    ensures
        forall|j: int|
            0 <= j < specialize_pat(h, t, act, c).len() ==> {
                let r = #[trigger] specialize_pat(h, t, act, c)[j];
                &&& r.action == act
                &&& r.pats.len() >= t.len()
                &&& r.pats.subrange(r.pats.len() - t.len(), r.pats.len() as int) == t
            },
    decreases h,
{
    match h {
        PatView::Con(d, args) => {
            if d == c {
                let ps = args + t;
                assert(ps.subrange(ps.len() - t.len(), ps.len() as int) =~= t);
            }
        },
        PatView::Wild => {
            let ps = wilds(arity_of(c)) + t;
            assert(ps.subrange(ps.len() - t.len(), ps.len() as int) =~= t);
        },
        PatView::Or(l, r) => {
            lemma_specialize_pat_rows(*l, t, act, c);
            lemma_specialize_pat_rows(*r, t, act, c);
            let a = specialize_pat(*l, t, act, c);
            let b = specialize_pat(*r, t, act, c);
            assert forall|j: int| 0 <= j < (a + b).len() implies {
                let r = #[trigger] (a + b)[j];
                &&& r.action == act
                &&& r.pats.len() >= t.len()
                &&& r.pats.subrange(r.pats.len() - t.len(), r.pats.len() as int) == t
            } by {
                if j >= a.len() {
                    assert((a + b)[j] == b[j - a.len()]);
                } else {
                    assert((a + b)[j] == a[j]);
                }
            }
        },
    }
}

/// The source row of the `j`-th row of `specialize(m, c)`.
pub open spec fn specialize_origin(m: Seq<RowView>, c: CtorView, j: int) -> int
    decreases m.len(),
{
    if m.len() == 0 {
        0
    } else if j < specialize(m.drop_last(), c).len() {
        specialize_origin(m.drop_last(), c, j)
    } else {
        m.len() - 1
    }
}

/// Specialization keeps the order of rows: each row of the result comes from
/// a source row, with that row's action and the source row's patterns after
/// the first as its last columns, and the source rows of the result's rows
/// never go back up the matrix.
pub proof fn law_specialize_order(m: Seq<RowView>, c: CtorView)
    ensures
        forall|j: int|
            0 <= j < specialize(m, c).len() ==> {
                let o = #[trigger] specialize_origin(m, c, j);
                let r = specialize(m, c)[j];
                let t = m[o].pats.drop_first();
                &&& 0 <= o < m.len()
                &&& m[o].pats.len() > 0
                &&& r.action == m[o].action
                &&& r.pats.len() >= t.len()
                &&& r.pats.subrange(r.pats.len() - t.len(), r.pats.len() as int) == t
            },
        forall|j1: int, j2: int|
            0 <= j1 <= j2 < specialize(m, c).len() ==> #[trigger] specialize_origin(m, c, j1)
                <= #[trigger] specialize_origin(m, c, j2),
    decreases m.len(),
{
    if m.len() > 0 {
        let init = m.drop_last();
        let last = m.last();
        law_specialize_order(init, c);
        let a = specialize(init, c);
        let b = specialize_row(last, c);
        if last.pats.len() > 0 {
            lemma_specialize_pat_rows(last.pats[0], last.pats.drop_first(), last.action, c);
        }
        assert forall|j: int| 0 <= j < specialize(m, c).len() implies {
            let o = #[trigger] specialize_origin(m, c, j);
            let r = specialize(m, c)[j];
            let t = m[o].pats.drop_first();
            &&& 0 <= o < m.len()
            &&& m[o].pats.len() > 0
            &&& r.action == m[o].action
            &&& r.pats.len() >= t.len()
            &&& r.pats.subrange(r.pats.len() - t.len(), r.pats.len() as int) == t
        } by {
            if j < a.len() {
                let o = specialize_origin(init, c, j);
                assert(init[o] == m[o]);
                assert((a + b)[j] == a[j]);
            } else {
                assert((a + b)[j] == b[j - a.len()]);
                assert(m[m.len() - 1] == last);
            }
        }
        assert forall|j1: int, j2: int|
            0 <= j1 <= j2 < specialize(m, c).len() implies #[trigger] specialize_origin(m, c, j1)
                <= #[trigger] specialize_origin(m, c, j2) by {
            if j2 < a.len() {
                assert(specialize_origin(m, c, j1) == specialize_origin(init, c, j1));
                assert(specialize_origin(m, c, j2) == specialize_origin(init, c, j2));
                assert(specialize_origin(init, c, j1) <= specialize_origin(init, c, j2));
            } else if j1 < a.len() {
                assert(specialize_origin(m, c, j1) == specialize_origin(init, c, j1));
                assert(0 <= specialize_origin(init, c, j1) < init.len());
            }
        }
    }
}

/// Every row of the default matrix comes from a source row whose first
/// pattern is not a constructor pattern: it is that row without its first
/// column.
pub proof fn law_default_origin(m: Seq<RowView>)
    ensures
        forall|j: int|
            0 <= j < default_matrix(m).len() ==> exists|o: int|
                0 <= o < m.len() && m[o].pats.len() > 0 && !(m[o].pats[0] is Con)
                    && #[trigger] default_matrix(m)[j] == (RowView {
                    pats: m[o].pats.drop_first(),
                    action: m[o].action,
                }),
    decreases m.len(),
{
    if m.len() > 0 {
        let init = m.drop_last();
        let last = m.last();
        law_default_origin(init);
        let a = default_matrix(init);
        let b = default_row(last);
        if last.pats.len() > 0 {
            lemma_default_pat_rows(last.pats[0], last.pats.drop_first(), last.action);
        }
        assert forall|j: int| 0 <= j < default_matrix(m).len() implies exists|o: int|
            0 <= o < m.len() && m[o].pats.len() > 0 && !(m[o].pats[0] is Con)
                && #[trigger] default_matrix(m)[j] == (RowView {
                pats: m[o].pats.drop_first(),
                action: m[o].action,
            }) by {
            if j < a.len() {
                assert((a + b)[j] == a[j]);
                let o = choose|o: int|
                    0 <= o < init.len() && init[o].pats.len() > 0 && !(init[o].pats[0] is Con)
                        && #[trigger] a[j] == (RowView {
                        pats: init[o].pats.drop_first(),
                        action: init[o].action,
                    });
                assert(init[o] == m[o]);
            } else {
                assert((a + b)[j] == b[j - a.len()]);
                assert(m[m.len() - 1] == last);
            }
        }
    }
}

proof fn lemma_default_pat_rows(h: PatView, t: Seq<PatView>, act: usize)
    ensures
        default_pat(h, t, act).len() > 0 ==> !(h is Con),
        forall|j: int|
            0 <= j < default_pat(h, t, act).len() ==> #[trigger] default_pat(h, t, act)[j] == (
            RowView { pats: t, action: act }),
    decreases h,
{
    match h {
        PatView::Or(l, r) => {
            lemma_default_pat_rows(*l, t, act);
            lemma_default_pat_rows(*r, t, act);
            let a = default_pat(*l, t, act);
            let b = default_pat(*r, t, act);
            assert forall|j: int| 0 <= j < (a + b).len() implies #[trigger] (a + b)[j] == (RowView {
                pats: t,
                action: act,
            }) by {
                if j >= a.len() {
                    assert((a + b)[j] == b[j - a.len()]);
                } else {
                    assert((a + b)[j] == a[j]);
                }
            }
        },
        _ => {},
    }
}

} // verus!
