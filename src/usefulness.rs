use vstd::prelude::*;
use crate::matrix::{
    arity_of, col_ctors, complete, copy_from, default_matrix, heads, specialize, wildcards, wilds,
    PatternMatrix, Row, RowView,
};
use crate::measure::{
    lemma_default_weight, lemma_pats_size_concat, lemma_pats_size_first, lemma_specialize_weight,
    mat_weight, pats_size,
};
use crate::pattern::{
    ctors_model, lemma_add_new_members, lemma_con_model, pats_model, CtorView, PatView, Pattern,
};
use crate::validate::{check_result, MatrixError};

verus! {

/// Whether the candidate row `q` matches some value that no row of `p`
/// matches. With no columns left, it does exactly when `p` has no rows. A
/// constructor pattern first specializes both by its constructor. A wildcard
/// first tries every head constructor of `p`'s first column when they cover
/// their type, and goes to the default matrix otherwise. An or-pattern first
/// tries both sides.
pub open spec fn useful(p: Seq<RowView>, q: Seq<PatView>) -> bool
    decreases mat_weight(p), pats_size(q), 0nat,
    via useful_decreases
{
    if q.len() == 0 {
        p.len() == 0
    } else {
        let tail = q.drop_first();
        match q[0] {
            PatView::Con(c, args) => useful(specialize(p, c), args + tail),
            PatView::Wild => if complete(heads(p, 0)) {
                useful_cases(p, tail, 0)
            } else {
                useful(default_matrix(p), tail)
            },
            PatView::Or(l, r) => useful(p, seq![*l] + tail) || useful(p, seq![*r] + tail),
        }
    }
}

/// Whether a wildcard followed by `tail` is useful under one of the head
/// constructors of `p`'s first column, from the `k`-th on.
pub open spec fn useful_cases(p: Seq<RowView>, tail: Seq<PatView>, k: nat) -> bool
    decreases mat_weight(p), pats_size(tail), heads(p, 0).len() - k,
    via useful_cases_decreases
{
    if k < heads(p, 0).len() {
        let c = heads(p, 0)[k as int];
        useful(specialize(p, c), wilds(arity_of(c)) + tail) || useful_cases(p, tail, k + 1)
    } else {
        false
    }
}

#[via_fn]
proof fn useful_decreases(p: Seq<RowView>, q: Seq<PatView>) {
    if q.len() > 0 {
        let tail = q.drop_first();
        lemma_pats_size_first(q);
        match q[0] {
            PatView::Con(c, args) => {
                lemma_specialize_weight(p, c);
                lemma_pats_size_concat(args, tail);
            },
            PatView::Wild => {
                lemma_default_weight(p);
            },
            PatView::Or(l, r) => {
                lemma_pats_size_first(seq![*l] + tail);
                lemma_pats_size_first(seq![*r] + tail);
                assert((seq![*l] + tail).drop_first() =~= tail);
                assert((seq![*r] + tail).drop_first() =~= tail);
            },
        }
    }
}

#[via_fn]
proof fn useful_cases_decreases(p: Seq<RowView>, tail: Seq<PatView>, k: nat) {
    if k < heads(p, 0).len() {
        let c = heads(p, 0)[k as int];
        lemma_add_new_members(seq![], col_ctors(p, 0));
        assert(heads(p, 0).contains(c));
        lemma_specialize_weight(p, c);
    }
}

fn useful_rec(p: &PatternMatrix, q: &Vec<Pattern>) -> (r: bool)
    ensures
        r == useful(p@, pats_model(q@)),
    decreases mat_weight(p@), pats_size(pats_model(q@)),
{
    let ghost qm = pats_model(q@);
    if q.len() == 0 {
        return p.is_empty();
    }
    let ghost tail = qm.drop_first();
    proof {
        lemma_pats_size_first(qm);
    }
    match &q[0] {
        Pattern::Con(c, args) => {
            proof {
                lemma_con_model(*c, *args);
                lemma_specialize_weight(p@, c@);
                lemma_pats_size_concat(pats_model(args@), tail);
            }
            let sub = p.specialization(c);
            let mut q2: Vec<Pattern> = Vec::new();
            copy_from(args, 0, &mut q2);
            copy_from(q, 1, &mut q2);
            proof {
                assert(pats_model(args@).subrange(0, args@.len() as int) =~= pats_model(args@));
                assert(qm.subrange(1, q@.len() as int) =~= tail);
                assert(pats_model(q2@) =~= pats_model(args@) + tail);
            }
            useful_rec(&sub, &q2)
        },
        Pattern::WildCard => {
            let hs = p.head_cons(0);
            let ghost sigma = heads(p@, 0);
            let full = hs.len() > 0 && hs[0].span >= 0 && hs[0].span as usize == hs.len();
            assert(full == complete(sigma));
            if full {
                proof {
                    lemma_add_new_members(seq![], col_ctors(p@, 0));
                }
                let mut k: usize = 0;
                while k < hs.len()
                    invariant
                        k <= hs.len(),
                        ctors_model(hs@) == sigma,
                        sigma == heads(p@, 0),
                        forall|x: CtorView| sigma.contains(x) ==> col_ctors(p@, 0).contains(x),
                        q.len() > 0,
                        tail == pats_model(q@).drop_first(),
                        useful(p@, pats_model(q@)) == useful_cases(p@, tail, k as nat),
                    decreases hs.len() - k,
                {
                    let c = &hs[k];
                    assert(sigma[k as int] == c@);
                    let sub = p.specialization(c);
                    proof {
                        assert(sigma.contains(c@));
                        lemma_specialize_weight(p@, c@);
                    }
                    let mut q2 = wildcards(c);
                    copy_from(q, 1, &mut q2);
                    proof {
                        assert(pats_model(q@).subrange(1, q@.len() as int) =~= tail);
                    }
                    if useful_rec(&sub, &q2) {
                        return true;
                    }
                    k += 1;
                }
                false
            } else {
                let sub = p.default();
                proof {
                    lemma_default_weight(p@);
                }
                let mut q2: Vec<Pattern> = Vec::new();
                copy_from(q, 1, &mut q2);
                proof {
                    assert(qm.subrange(1, q@.len() as int) =~= tail);
                    assert(pats_model(q2@) =~= tail);
                }
                useful_rec(&sub, &q2)
            }
        },
        Pattern::Or(l, r) => {
            let mut ql: Vec<Pattern> = Vec::new();
            ql.push(l.deep_copy());
            copy_from(q, 1, &mut ql);
            let mut qr: Vec<Pattern> = Vec::new();
            qr.push(r.deep_copy());
            copy_from(q, 1, &mut qr);
            proof {
                assert(qm.subrange(1, q@.len() as int) =~= tail);
                assert(pats_model(ql@) =~= seq![l@] + tail);
                assert(pats_model(qr@) =~= seq![r@] + tail);
                lemma_pats_size_first(seq![l@] + tail);
                lemma_pats_size_first(seq![r@] + tail);
                assert((seq![l@] + tail).drop_first() =~= tail);
                assert((seq![r@] + tail).drop_first() =~= tail);
            }
            let a = useful_rec(p, &ql);
            let b = useful_rec(p, &qr);
            a || b
        },
    }
}

/// Whether the candidate `row` can match a value that no row of `matrix`
/// already matches. A clause whose row is not useful against the rows before
/// it is unreachable; a match is exhaustive when a row of wildcards is not
/// useful against all its rows. The matrix with `row` added below it must be
/// well-formed; `try_usefulness` checks first.
pub fn usefulness(matrix: &PatternMatrix, row: &Row) -> (r: bool)
    requires
        check_result(matrix@.push(row@)) == Ok::<(), MatrixError>(()),
    ensures
        r == useful(matrix@, row@.pats),
{
    let q = row.deep_copy();
    let pats = q.patterns();
    useful_rec(matrix, &pats)
}

/// The usefulness of `row` against `matrix`, after checking that the matrix
/// with `row` added below it is well-formed; a malformed one gives the first
/// problem found.
pub fn try_usefulness(matrix: &PatternMatrix, row: &Row) -> (r: Result<bool, MatrixError>)
    ensures
        r == match check_result(matrix@.push(row@)) {
            Ok(_) => Ok(useful(matrix@, row@.pats)),
            Err(e) => Err::<bool, MatrixError>(e),
        },
{
    let mut all = matrix.deep_copy();
    all.add_row(row.deep_copy());
    match all.validate() {
        Ok(()) => Ok(usefulness(matrix, row)),
        Err(e) => Err(e),
    }
}

} // verus!
