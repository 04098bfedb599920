use vstd::prelude::*;
use crate::matrix::{
    all_wild, col_ctors, col_has_con, complete, con_cols, default_matrix, heads, is_wild,
    specialize, swap_cols, swap_pats, width, PatternMatrix, RowView,
};
use crate::measure::{lemma_default_weight, lemma_specialize_weight, lemma_swap_weight, mat_weight};
use crate::pattern::{ctors_model, lemma_add_new_members, Constructor, CtorView};
use crate::validate::{check_result, MatrixError};

verus! {

/// Model of a decision tree.
pub enum TreeView {
    Leaf(usize),
    Fail,
    Switch(Seq<(CtorView, TreeView)>, Option<Box<TreeView>>),
    Swap(nat, Box<TreeView>),
}

/// A decision tree: which clause a value matches, found by testing the head
/// constructor of one value at a time.
#[derive(Debug)]
pub enum DecisionTree {
    /// The clause with this action matched.
    Leaf(usize),
    /// No clause matches.
    Fail,
    /// Test the head constructor of the current value: one subtree per
    /// constructor, and the subtree for the others, if there is one.
    Switch(Vec<(Constructor, DecisionTree)>, Option<Box<DecisionTree>>),
    /// Exchange the current value with the one at this column, then go on.
    Swap(usize, Box<DecisionTree>),
}

pub open spec fn tree_model(t: DecisionTree) -> TreeView
    decreases t,
{
    match t {
        DecisionTree::Leaf(a) => TreeView::Leaf(a),
        DecisionTree::Fail => TreeView::Fail,
        DecisionTree::Switch(cases, d) => TreeView::Switch(
            cases@.map(
                |i: int, e: (Constructor, DecisionTree)|
                    if 0 <= i < cases@.len() && e == cases@[i] {
                        (e.0@, tree_model(e.1))
                    } else {
                        (e.0@, TreeView::Fail)
                    },
            ),
            match d {
                Some(b) => Some(Box::new(tree_model(*b))),
                None => None,
            },
        ),
        DecisionTree::Swap(i, b) => TreeView::Swap(i as nat, Box::new(tree_model(*b))),
    }
}

impl View for DecisionTree {
    type V = TreeView;

    open spec fn view(&self) -> TreeView {
        tree_model(*self)
    }
}

pub open spec fn cases_model(cases: Seq<(Constructor, DecisionTree)>) -> Seq<(CtorView, TreeView)> {
    cases.map(|i: int, e: (Constructor, DecisionTree)| (e.0@, e.1@))
}

pub proof fn lemma_switch_model(
    cases: Vec<(Constructor, DecisionTree)>,
    d: Option<Box<DecisionTree>>,
)
    ensures
        tree_model(DecisionTree::Switch(cases, d)) == TreeView::Switch(
            cases_model(cases@),
            match d {
                Some(b) => Some(Box::new(tree_model(*b))),
                None => None,
            },
        ),
{
    let t = tree_model(DecisionTree::Switch(cases, d));
    assert(t->Switch_0 =~= cases_model(cases@));
}

/// How far the compiler is from a switch on the first column: 2 while a
/// column must first be brought to the front, 1 otherwise.
pub open spec fn stage(m: Seq<RowView>) -> nat {
    if m.len() > 0 && !all_wild(m[0].pats) && con_cols(m, 0).len() > 0 && con_cols(m, 0)[0] > 0 {
        2
    } else {
        1
    }
}

/// The decision tree for a matrix: `Fail` when it has no rows, `Leaf` of the
/// first row's action when that row holds only wildcards; else a `Swap` that
/// brings the leftmost column with a constructor to the front, or, when that
/// column is the first, a `Switch` with one case per distinct head
/// constructor in order of first appearance, and a default subtree unless
/// those constructors cover their type.
pub open spec fn compile(m: Seq<RowView>) -> TreeView
    decreases mat_weight(m), stage(m), 0nat,
    via compile_decreases
{
    if m.len() == 0 {
        TreeView::Fail
    } else if all_wild(m[0].pats) {
        TreeView::Leaf(m[0].action)
    } else {
        let i = con_cols(m, 0)[0];
        if i > 0 {
            TreeView::Swap(i, Box::new(compile(swap_cols(m, i as int))))
        } else {
            TreeView::Switch(
                compile_cases(m, 0),
                if complete(heads(m, 0)) {
                    None
                } else {
                    Some(Box::new(compile(default_matrix(m))))
                },
            )
        }
    }
}

/// The cases of the switch on the first column, from the `k`-th distinct head
/// constructor on.
pub open spec fn compile_cases(m: Seq<RowView>, k: nat) -> Seq<(CtorView, TreeView)>
    decreases mat_weight(m), 0nat, heads(m, 0).len() - k,
    via compile_cases_decreases
{
    if k < heads(m, 0).len() {
        seq![(heads(m, 0)[k as int], compile(specialize(m, heads(m, 0)[k as int])))]
            + compile_cases(m, k + 1)
    } else {
        seq![]
    }
}

pub proof fn lemma_width_bound(m: Seq<RowView>, r: int)
    requires
        0 <= r < m.len(),
    ensures
        m[r].pats.len() <= width(m),
    decreases m.len(),
{
    if r < m.len() - 1 {
        lemma_width_bound(m.drop_last(), r);
        assert(m.drop_last()[r] == m[r]);
    }
}

/// The first of `con_cols(m, j)` is the leftmost column from `j` on with a
/// pattern other than a wildcard.
pub proof fn lemma_con_cols_first(m: Seq<RowView>, j: nat, k: nat)
    requires
        j <= k < width(m),
        col_has_con(m, k as int),
    ensures
        con_cols(m, j).len() > 0,
        con_cols(m, j)[0] <= k,
        col_has_con(m, con_cols(m, j)[0] as int),
        forall|x: nat| j <= x < con_cols(m, j)[0] ==> !col_has_con(m, x as int),
    decreases k - j,
{
    if !col_has_con(m, j as int) {
        lemma_con_cols_first(m, j + 1, k);
    }
}

/// In a matrix whose first row is not all wildcards some column holds a
/// pattern other than a wildcard.
pub proof fn lemma_first_con_col(m: Seq<RowView>)
    requires
        m.len() > 0,
        !all_wild(m[0].pats),
    ensures
        con_cols(m, 0).len() > 0,
        col_has_con(m, con_cols(m, 0)[0] as int),
{
    let k = choose|k: int| 0 <= k < m[0].pats.len() && !is_wild(#[trigger] m[0].pats[k]);
    lemma_width_bound(m, 0);
    assert(col_has_con(m, k));
    lemma_con_cols_first(m, 0, k as nat);
}

pub proof fn lemma_swap_front(m: Seq<RowView>, i: int)
    requires
        0 < i,
        col_has_con(m, i),
    ensures
        col_has_con(swap_cols(m, i), 0),
        stage(swap_cols(m, i)) == 1,
{
    let r = choose|r: int| 0 <= r < m.len() && i < m[r].pats.len() && !is_wild(#[trigger] m[r].pats[i]);
    let s = swap_cols(m, i);
    assert(s[r].pats == swap_pats(m[r].pats, i));
    assert(s[r].pats[0] == m[r].pats[i]);
    assert(col_has_con(s, 0));
    lemma_width_bound(s, r);
    lemma_con_cols_first(s, 0, 0);
}

#[via_fn]
proof fn compile_decreases(m: Seq<RowView>) {
    if m.len() == 0 {
    } else if all_wild(m[0].pats) {
    } else {
        lemma_first_con_col(m);
        let i = con_cols(m, 0)[0];
        if i > 0 {
            lemma_swap_weight(m, i as int);
            lemma_swap_front(m, i as int);
        } else {
            lemma_default_weight(m);
        }
    }
}

#[via_fn]
proof fn compile_cases_decreases(m: Seq<RowView>, k: nat) {
    if k < heads(m, 0).len() {
        let c = heads(m, 0)[k as int];
        lemma_add_new_members(seq![], col_ctors(m, 0));
        assert(heads(m, 0).contains(c));
        lemma_specialize_weight(m, c);
    }
}

/// Compiles a well-formed pattern matrix into a decision tree. A matrix that
/// `validate` rejects is refused here; `try_compile` checks first.
pub fn compile_patterns(matrix: &PatternMatrix) -> (r: DecisionTree)
    requires
        check_result(matrix@) == Ok::<(), MatrixError>(()),
    ensures
        r@ == compile(matrix@),
{
    compile_rec(matrix)
}

fn compile_rec(matrix: &PatternMatrix) -> (r: DecisionTree)
    ensures
        r@ == compile(matrix@),
    decreases mat_weight(matrix@), stage(matrix@),
{
    if matrix.is_empty() {
        return DecisionTree::Fail;
    }
    let first = matrix.get(0);
    if first.contains_wcard_only() {
        return DecisionTree::Leaf(first.action());
    }
    proof {
        lemma_first_con_col(matrix@);
    }
    let cols = matrix.cols_with_wcard();
    assert(cols@.map(|i: int, x: usize| x as nat)[0] == cols@[0] as nat);
    let i = cols[0];
    if i > 0 {
        let mut swapped = matrix.deep_copy();
        swapped.swap(i);
        proof {
            lemma_swap_weight(matrix@, i as int);
            lemma_swap_front(matrix@, i as int);
        }
        let sub = compile_rec(&swapped);
        DecisionTree::Swap(i, Box::new(sub))
    } else {
        let hs = matrix.head_cons(0);
        let ghost sigma = heads(matrix@, 0);
        proof {
            lemma_add_new_members(seq![], col_ctors(matrix@, 0));
        }
        let mut cases: Vec<(Constructor, DecisionTree)> = Vec::new();
        let mut k: usize = 0;
        while k < hs.len()
            invariant
                k <= hs.len(),
                ctors_model(hs@) == sigma,
                sigma == heads(matrix@, 0),
                forall|x: CtorView| sigma.contains(x) ==> col_ctors(matrix@, 0).contains(x),
                cases_model(cases@) + compile_cases(matrix@, k as nat) == compile_cases(
                    matrix@,
                    0,
                ),
            decreases hs.len() - k,
        {
            let c = &hs[k];
            assert(sigma[k as int] == c@);
            let sub = matrix.specialization(c);
            proof {
                assert(sigma.contains(c@));
                lemma_specialize_weight(matrix@, c@);
            }
            let t = compile_rec(&sub);
            let c2 = c.deep_copy();
            let ghost before = cases@;
            cases.push((c2, t));
            proof {
                assert(cases_model(cases@) =~= cases_model(before).push((c@, t@)));
                let rest = compile_cases(matrix@, (k + 1) as nat);
                assert(compile_cases(matrix@, k as nat) == seq![(c@, t@)] + rest);
                assert(cases_model(before) + (seq![(c@, t@)] + rest) =~= cases_model(cases@)
                    + rest);
            }
            k += 1;
        }
        assert(cases_model(cases@) + Seq::<(CtorView, TreeView)>::empty() =~= cases_model(
            cases@,
        ));
        let full = hs.len() > 0 && hs[0].span >= 0 && hs[0].span as usize == hs.len();
        assert(full == complete(sigma));
        let default = if full {
            None
        } else {
            let d = matrix.default();
            proof {
                lemma_default_weight(matrix@);
            }
            let t = compile_rec(&d);
            Some(Box::new(t))
        };
        proof {
            lemma_switch_model(cases, default);
        }
        DecisionTree::Switch(cases, default)
    }
}

/// Compiles a pattern matrix into a decision tree after checking that it is
/// well-formed; a malformed matrix gives the first problem found.
pub fn try_compile(matrix: &PatternMatrix) -> (r: Result<DecisionTree, MatrixError>)
    ensures
        match r {
            Ok(t) => check_result(matrix@) == Ok::<(), MatrixError>(()) && t@ == compile(matrix@),
            Err(e) => check_result(matrix@) == Err::<(), MatrixError>(e),
        },
{
    match matrix.validate() {
        Ok(()) => Ok(compile_patterns(matrix)),
        Err(e) => Err(e),
    }
}

} // verus!
