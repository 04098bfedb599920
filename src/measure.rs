use vstd::prelude::*;
use crate::matrix::{
    arity_of, col_ctors, col_has_con, default_matrix, default_pat, default_row, is_wild, specialize,
    specialize_pat, specialize_row, swap_cols, swap_pats, wilds, RowView,
};
use crate::pattern::{head_ctors, CtorView, PatView};

verus! {

pub open spec fn prod(s: Seq<nat>) -> nat
    decreases s.len(),
{
    if s.len() == 0 {
        1
    } else {
        prod(s.drop_last()) * s.last()
    }
}

pub open spec fn sum(s: Seq<nat>) -> nat
    decreases s.len(),
{
    if s.len() == 0 {
        0
    } else {
        sum(s.drop_last()) + s.last()
    }
}

pub proof fn lemma_prod_concat(a: Seq<nat>, b: Seq<nat>)
    ensures
        prod(a + b) == prod(a) * prod(b),
    decreases b.len(),
{
    if b.len() == 0 {
        assert(a + b =~= a);
        assert(prod(b) == 1);
        assert(prod(a) * 1 == prod(a));
    } else {
        assert((a + b).drop_last() =~= a + b.drop_last());
        lemma_prod_concat(a, b.drop_last());
        assert(prod(b) == prod(b.drop_last()) * b.last());
        assert((a + b).last() == b.last());
        let x = prod(a);
        let y = prod(b.drop_last());
        let z = b.last();
        assert(prod(a + b) == prod(a + b.drop_last()) * z);
        assert(x * y * z == x * (y * z)) by (nonlinear_arith);
    }
}

pub proof fn lemma_sum_concat(a: Seq<nat>, b: Seq<nat>)
    ensures
        sum(a + b) == sum(a) + sum(b),
    decreases b.len(),
{
    if b.len() == 0 {
        assert(a + b =~= a);
    } else {
        assert((a + b).drop_last() =~= a + b.drop_last());
        lemma_sum_concat(a, b.drop_last());
    }
}

pub proof fn lemma_prod_pos(s: Seq<nat>)
    requires
        forall|i: int| 0 <= i < s.len() ==> s[i] >= 1,
    ensures
        prod(s) >= 1,
    decreases s.len(),
{
    if s.len() > 0 {
        lemma_prod_pos(s.drop_last());
        let x = prod(s.drop_last());
        let y = s.last();
        assert(x * y >= 1) by (nonlinear_arith)
            requires
                x >= 1,
                y >= 1,
        ;
    }
}

pub proof fn lemma_prod_ones(s: Seq<nat>)
    requires
        forall|i: int| 0 <= i < s.len() ==> s[i] == 1,
    ensures
        prod(s) == 1,
    decreases s.len(),
{
    if s.len() > 0 {
        lemma_prod_ones(s.drop_last());
        assert(s.last() == 1);
    }
}

pub proof fn lemma_prod_single(x: nat)
    ensures
        prod(seq![x]) == x,
{
    let s = seq![x];
    assert(s.drop_last() =~= Seq::<nat>::empty());
    assert(prod(Seq::<nat>::empty()) == 1);
    assert(s.last() == x);
    assert(prod(s) == prod(s.drop_last()) * s.last());
}

/// Exchanging two elements keeps the product.
pub proof fn lemma_prod_exchange(s: Seq<nat>, i: int)
    requires
        0 < i < s.len(),
    ensures
        prod(s.update(0, s[i]).update(i, s[0])) == prod(s),
{
    let t = s.update(0, s[i]).update(i, s[0]);
    let a = s.subrange(1, i);
    let b = s.subrange(i + 1, s.len() as int);
    assert(s =~= seq![s[0]] + a + seq![s[i]] + b);
    assert(t =~= seq![s[i]] + a + seq![s[0]] + b);
    lemma_prod_concat(seq![s[0]] + a + seq![s[i]], b);
    lemma_prod_concat(seq![s[0]] + a, seq![s[i]]);
    lemma_prod_concat(seq![s[0]], a);
    lemma_prod_concat(seq![s[i]] + a + seq![s[0]], b);
    lemma_prod_concat(seq![s[i]] + a, seq![s[0]]);
    lemma_prod_concat(seq![s[i]], a);
    lemma_prod_single(s[0]);
    lemma_prod_single(s[i]);
    let x = s[0];
    let y = s[i];
    let pa = prod(a);
    assert(x * pa * y == y * pa * x) by (nonlinear_arith);
}

/// A measure on patterns that no step of the compiler or of the usefulness
/// check lets grow: a wildcard weighs one, a constructor pattern one more than
/// the product of its arguments' weights, an or-pattern one more than the sum
/// of its sides.
pub open spec fn pat_weight(p: PatView) -> nat
    decreases p,
{
    match p {
        PatView::Con(_, args) => 1 + prod(weights(args)),
        PatView::Wild => 1,
        PatView::Or(l, r) => pat_weight(*l) + pat_weight(*r) + 1,
    }
}

pub open spec fn weights(ps: Seq<PatView>) -> Seq<nat>
    decreases ps,
{
    ps.map(
        |i: int, a: PatView|
            if 0 <= i < ps.len() && a == ps[i] {
                pat_weight(a)
            } else {
                1
            },
    )
}

/// The weight of a row of patterns: the product of their weights.
pub open spec fn pats_weight(ps: Seq<PatView>) -> nat {
    prod(weights(ps))
}

pub proof fn lemma_pats_weight_concat(a: Seq<PatView>, b: Seq<PatView>)
    ensures
        pats_weight(a + b) == pats_weight(a) * pats_weight(b),
{
    assert(weights(a + b) =~= weights(a) + weights(b));
    lemma_prod_concat(weights(a), weights(b));
}

pub proof fn lemma_pats_weight_pos(ps: Seq<PatView>)
    ensures
        pats_weight(ps) >= 1,
{
    lemma_prod_pos(weights(ps));
}

pub proof fn lemma_wilds_weight(ps: Seq<PatView>)
    requires
        forall|i: int| 0 <= i < ps.len() ==> ps[i] == PatView::Wild,
    ensures
        pats_weight(ps) == 1,
{
    lemma_prod_ones(weights(ps));
}

/// The size of a pattern: the number of its nodes.
pub open spec fn pat_size(p: PatView) -> nat
    decreases p,
{
    match p {
        PatView::Con(_, args) => 1 + sum(sizes(args)),
        PatView::Wild => 1,
        PatView::Or(l, r) => pat_size(*l) + pat_size(*r) + 1,
    }
}

pub open spec fn sizes(ps: Seq<PatView>) -> Seq<nat>
    decreases ps,
{
    ps.map(
        |i: int, a: PatView|
            if 0 <= i < ps.len() && a == ps[i] {
                pat_size(a)
            } else {
                0
            },
    )
}

pub open spec fn pats_size(ps: Seq<PatView>) -> nat {
    sum(sizes(ps))
}

pub proof fn lemma_pats_size_concat(a: Seq<PatView>, b: Seq<PatView>)
    ensures
        pats_size(a + b) == pats_size(a) + pats_size(b),
{
    assert(sizes(a + b) =~= sizes(a) + sizes(b));
    lemma_sum_concat(sizes(a), sizes(b));
}

pub proof fn lemma_pats_size_first(ps: Seq<PatView>)
    requires
        ps.len() > 0,
    ensures
        pats_size(ps) == pat_size(ps[0]) + pats_size(ps.drop_first()),
{
    assert(ps =~= seq![ps[0]] + ps.drop_first());
    lemma_pats_size_concat(seq![ps[0]], ps.drop_first());
    assert(sizes(seq![ps[0]]).drop_last() =~= Seq::<nat>::empty());
    assert(sum(Seq::<nat>::empty()) == 0);
}

/// The measure that the compiler and the usefulness check decrease: the sum
/// of the rows' weights.
pub open spec fn mat_weight(m: Seq<RowView>) -> nat
    decreases m.len(),
{
    if m.len() == 0 {
        0
    } else {
        mat_weight(m.drop_last()) + pats_weight(m.last().pats)
    }
}

pub proof fn lemma_mat_weight_concat(a: Seq<RowView>, b: Seq<RowView>)
    ensures
        mat_weight(a + b) == mat_weight(a) + mat_weight(b),
    decreases b.len(),
{
    if b.len() == 0 {
        assert(a + b =~= a);
    } else {
        assert((a + b).drop_last() =~= a + b.drop_last());
        lemma_mat_weight_concat(a, b.drop_last());
    }
}

pub proof fn lemma_mat_weight_single(r: RowView)
    ensures
        mat_weight(seq![r]) == pats_weight(r.pats),
{
    let s = seq![r];
    assert(s.drop_last() =~= Seq::<RowView>::empty());
    assert(mat_weight(Seq::<RowView>::empty()) == 0);
    assert(s.last() == r);
}

pub proof fn lemma_pats_weight_first(ps: Seq<PatView>)
    requires
        ps.len() > 0,
    ensures
        pats_weight(ps) == pat_weight(ps[0]) * pats_weight(ps.drop_first()),
{
    assert(ps =~= seq![ps[0]] + ps.drop_first());
    lemma_pats_weight_concat(seq![ps[0]], ps.drop_first());
    lemma_prod_single(pat_weight(ps[0]));
    assert(weights(seq![ps[0]]) =~= seq![pat_weight(ps[0])]);
}

pub proof fn lemma_specialize_pat_weight(head: PatView, tail: Seq<PatView>, action: usize, c: CtorView)
    ensures
        mat_weight(specialize_pat(head, tail, action, c)) <= pat_weight(head) * pats_weight(tail),
        head_ctors(head).contains(c) ==> mat_weight(specialize_pat(head, tail, action, c))
            < pat_weight(head) * pats_weight(tail),
    decreases head,
{
    let w = pats_weight(tail);
    lemma_pats_weight_pos(tail);
    match head {
        PatView::Con(d, args) => {
            if d == c {
                lemma_mat_weight_single(RowView { pats: args + tail, action });
                lemma_pats_weight_concat(args, tail);
                let x = pats_weight(args);
                assert(x * w < (1 + x) * w) by (nonlinear_arith)
                    requires
                        w >= 1,
                ;
            } else {
                assert(!seq![d].contains(c)) by {
                    if seq![d].contains(c) {
                        assert(seq![d][0] == c);
                    }
                }
                assert(mat_weight(Seq::<RowView>::empty()) == 0);
                assert(0 <= pat_weight(head) * w) by (nonlinear_arith);
            }
        },
        PatView::Wild => {
            let ws = wilds(arity_of(c));
            lemma_mat_weight_single(RowView { pats: ws + tail, action });
            lemma_pats_weight_concat(ws, tail);
            lemma_wilds_weight(ws);
        },
        PatView::Or(l, r) => {
            lemma_specialize_pat_weight(*l, tail, action, c);
            lemma_specialize_pat_weight(*r, tail, action, c);
            lemma_mat_weight_concat(
                specialize_pat(*l, tail, action, c),
                specialize_pat(*r, tail, action, c),
            );
            let a = pat_weight(*l);
            let b = pat_weight(*r);
            assert(a * w + b * w < (a + b + 1) * w) by (nonlinear_arith)
                requires
                    w >= 1,
            ;
        },
    }
}

pub proof fn lemma_default_pat_weight(head: PatView, tail: Seq<PatView>, action: usize)
    ensures
        mat_weight(default_pat(head, tail, action)) <= pat_weight(head) * pats_weight(tail),
        !is_wild(head) ==> mat_weight(default_pat(head, tail, action)) < pat_weight(head)
            * pats_weight(tail),
    decreases head,
{
    let w = pats_weight(tail);
    lemma_pats_weight_pos(tail);
    match head {
        PatView::Con(d, args) => {
            assert(default_pat(head, tail, action) == Seq::<RowView>::empty());
            assert(mat_weight(Seq::<RowView>::empty()) == 0);
            let h = pat_weight(head);
            assert(h >= 1);
            assert(0 < h * w) by (nonlinear_arith)
                requires
                    w >= 1,
                    h >= 1,
            ;
        },
        PatView::Wild => {
            lemma_mat_weight_single(RowView { pats: tail, action });
            assert(default_pat(head, tail, action) == seq![RowView { pats: tail, action }]);
            assert(pat_weight(head) == 1);
            assert(1 * w == w);
        },
        PatView::Or(l, r) => {
            lemma_default_pat_weight(*l, tail, action);
            lemma_default_pat_weight(*r, tail, action);
            lemma_mat_weight_concat(default_pat(*l, tail, action), default_pat(*r, tail, action));
            let a = pat_weight(*l);
            let b = pat_weight(*r);
            assert(a * w + b * w < (a + b + 1) * w) by (nonlinear_arith)
                requires
                    w >= 1,
            ;
        },
    }
}

/// Specializing never adds weight, and removes some when `c` stands at the
/// head of the first column.
pub proof fn lemma_specialize_weight(m: Seq<RowView>, c: CtorView)
    ensures
        mat_weight(specialize(m, c)) <= mat_weight(m),
        col_ctors(m, 0).contains(c) ==> mat_weight(specialize(m, c)) < mat_weight(m),
    decreases m.len(),
{
    if m.len() > 0 {
        let r = m.last();
        lemma_specialize_weight(m.drop_last(), c);
        lemma_mat_weight_concat(specialize(m.drop_last(), c), specialize_row(r, c));
        let here = if 0 < r.pats.len() {
            head_ctors(r.pats[0])
        } else {
            seq![]
        };
        if r.pats.len() > 0 {
            lemma_specialize_pat_weight(r.pats[0], r.pats.drop_first(), r.action, c);
            lemma_pats_weight_first(r.pats);
        } else {
            assert(mat_weight(Seq::<RowView>::empty()) == 0);
        }
        if col_ctors(m, 0).contains(c) && !col_ctors(m.drop_last(), 0).contains(c) {
            let k = choose|k: int| 0 <= k < col_ctors(m, 0).len() && col_ctors(m, 0)[k] == c;
            assert(col_ctors(m, 0) == col_ctors(m.drop_last(), 0) + here);
            if k < col_ctors(m.drop_last(), 0).len() {
                assert(col_ctors(m.drop_last(), 0)[k] == c);
            } else {
                assert(here[k - col_ctors(m.drop_last(), 0).len()] == c);
                assert(here.contains(c));
            }
        }
    }
}

/// The default matrix never adds weight, and removes some when the first
/// column holds a pattern other than a wildcard.
pub proof fn lemma_default_weight(m: Seq<RowView>)
    ensures
        mat_weight(default_matrix(m)) <= mat_weight(m),
        col_has_con(m, 0) ==> mat_weight(default_matrix(m)) < mat_weight(m),
    decreases m.len(),
{
    if m.len() > 0 {
        let r = m.last();
        lemma_default_weight(m.drop_last());
        lemma_mat_weight_concat(default_matrix(m.drop_last()), default_row(r));
        if r.pats.len() > 0 {
            lemma_default_pat_weight(r.pats[0], r.pats.drop_first(), r.action);
            lemma_pats_weight_first(r.pats);
        } else {
            assert(mat_weight(Seq::<RowView>::empty()) == 0);
        }
        if col_has_con(m, 0) && !col_has_con(m.drop_last(), 0) {
            let k = choose|k: int|
                0 <= k < m.len() && 0 < m[k].pats.len() && !is_wild(#[trigger] m[k].pats[0]);
            if k < m.len() - 1 {
                assert(m.drop_last()[k] == m[k]);
                assert(!is_wild(m.drop_last()[k].pats[0]));
                assert(col_has_con(m.drop_last(), 0));
            }
            assert(k == m.len() - 1);
            assert(!is_wild(r.pats[0]));
            assert(mat_weight(default_row(r)) < pats_weight(r.pats));
        }
    }
}

/// Exchanging two columns keeps the weight.
pub proof fn lemma_swap_weight(m: Seq<RowView>, i: int)
    ensures
        mat_weight(swap_cols(m, i)) == mat_weight(m),
    decreases m.len(),
{
    if m.len() > 0 {
        let r = m.last();
        assert(swap_cols(m, i).drop_last() =~= swap_cols(m.drop_last(), i));
        lemma_swap_weight(m.drop_last(), i);
        if 0 < i < r.pats.len() {
            lemma_prod_exchange(weights(r.pats), i);
            assert(weights(swap_pats(r.pats, i)) =~= weights(r.pats).update(0, weights(r.pats)[i]).update(i, weights(r.pats)[0]));
        }
    }
}

} // verus!
