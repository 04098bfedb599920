use match_compiler::decision::{compile_patterns, try_compile, DecisionTree};
use match_compiler::matrix::{PatternMatrix, Row};
use match_compiler::pattern::{list, nil, split, wcard, Constructor, Pattern};
use match_compiler::usefulness::{try_usefulness, usefulness};
use match_compiler::validate::MatrixError;

fn con(name: &str, arity: i32, span: i32) -> Constructor {
    Constructor { name: name.into(), arity, span }
}

fn example() -> PatternMatrix {
    let mut matrix = PatternMatrix::new();
    matrix.add_row(Row::new(vec![list(vec![]), wcard()], 1));
    matrix.add_row(Row::new(vec![wcard(), list(vec![])], 2));
    matrix.add_row(Row::new(vec![split(wcard(), wcard()), split(wcard(), wcard())], 3));
    matrix
}

#[test]
fn specialization_on_split_works() {
    let mut matrix = PatternMatrix::new();

    matrix.add_row(Row::new(vec![list(vec![]), wcard()], 1));
    matrix.add_row(Row::new(vec![wcard(), list(vec![])], 2));
    matrix.add_row(Row::new(vec![split(wcard(), wcard()), split(wcard(), wcard())], 3));

    let mut expected = PatternMatrix::new();

    expected.add_row(Row::new(vec![wcard(), wcard(), list(vec![])], 2));
    expected.add_row(Row::new(vec![wcard(), wcard(), split(wcard(), wcard())], 3));

    assert_eq!(
        matrix.specialization(&Constructor { name: "Split".into(), arity: 2, span: 1 }),
        expected
    )
}

#[test]
fn specialization_on_list_works() {
    let mut matrix = PatternMatrix::new();

    matrix.add_row(Row::new(vec![list(vec![]), wcard()], 1));
    matrix.add_row(Row::new(vec![wcard(), list(vec![])], 2));
    matrix.add_row(Row::new(vec![split(wcard(), wcard()), split(wcard(), wcard())], 3));

    // A wildcard head gives way to as many wildcards as the constructor
    // carries: none for `List` of arity 0, so every row keeps one column.
    let mut expected = PatternMatrix::new();

    expected.add_row(Row::new(vec![wcard()], 1));
    expected.add_row(Row::new(vec![list(vec![])], 2));

    assert_eq!(
        matrix.specialization(&Constructor { name: "List".into(), arity: 0, span: 1 }),
        expected
    )
}

#[test]
fn default_works() {
    let mut matrix = PatternMatrix::new();

    matrix.add_row(Row::new(vec![list(vec![]), wcard()], 1));
    matrix.add_row(Row::new(vec![wcard(), list(vec![])], 2));
    matrix.add_row(Row::new(vec![wcard(), wcard()], 3));

    let mut expected = PatternMatrix::new();

    expected.add_row(Row::new(vec![list(vec![])], 2));
    expected.add_row(Row::new(vec![wcard()], 3));

    assert_eq!(matrix.default(), expected)
}

#[test]
fn specialization_keeps_arity() {
    let matrix = example();
    let c = con("Split", 2, 1);
    let s = matrix.specialization(&c);
    assert_eq!(s.get(0).size(), 3);
    assert_eq!(s.get(1).size(), 3);
    let l = matrix.specialization(&con("List", 0, 1));
    assert_eq!(l.get(0).size(), 1);
    assert_eq!(l.get(1).size(), 1);
}

#[test]
fn specialization_splits_or_left_then_right() {
    let a = con("A", 0, 2);
    let b = con("B", 1, 2);
    let or = Pattern::Or(
        Box::new(Pattern::WildCard),
        Box::new(Pattern::Con(b.clone(), vec![Pattern::Con(a.clone(), vec![])])),
    );
    let mut matrix = PatternMatrix::new();
    matrix.add_row(Row::new(vec![Pattern::Con(a.clone(), vec![]), wcard()], 1));
    matrix.add_row(Row::new(vec![or, nil()], 2));
    let s = matrix.specialization(&b);
    let mut expected = PatternMatrix::new();
    expected.add_row(Row::new(vec![wcard(), nil()], 2));
    expected.add_row(Row::new(vec![Pattern::Con(a.clone(), vec![]), nil()], 2));
    assert_eq!(s, expected);
}

#[test]
fn default_splits_or_and_drops_constructed() {
    let a = con("A", 0, 2);
    let or = Pattern::Or(Box::new(Pattern::Con(a.clone(), vec![])), Box::new(wcard()));
    let mut matrix = PatternMatrix::new();
    matrix.add_row(Row::new(vec![or, nil()], 1));
    matrix.add_row(Row::new(vec![Pattern::Con(a.clone(), vec![]), wcard()], 2));
    matrix.add_row(Row::new(vec![wcard(), wcard()], 3));
    let mut expected = PatternMatrix::new();
    expected.add_row(Row::new(vec![nil()], 1));
    expected.add_row(Row::new(vec![wcard()], 3));
    assert_eq!(matrix.default(), expected);
}

#[test]
fn default_of_empty_is_empty() {
    let matrix = PatternMatrix::new();
    assert!(matrix.default().is_empty());
    assert!(matrix.specialization(&con("A", 0, 1)).is_empty());
}

fn span_example(span: i32) -> PatternMatrix {
    let list0 = Pattern::Con(con("List", 0, span), vec![]);
    let split2 = Pattern::Con(con("Split", 2, span), vec![wcard(), wcard()]);
    let mut matrix = PatternMatrix::new();
    matrix.add_row(Row::new(vec![Pattern::Con(con("List", 0, span), vec![]), wcard()], 1));
    matrix.add_row(Row::new(vec![wcard(), list0], 2));
    matrix.add_row(Row::new(vec![split2, Pattern::Con(con("Split", 2, span), vec![wcard(), wcard()])], 3));
    matrix
}

#[test]
fn compile_switch_without_default_when_complete() {
    let tree = compile_patterns(&span_example(2));
    match tree {
        DecisionTree::Switch(cases, default) => {
            assert_eq!(cases.len(), 2);
            assert_eq!(cases[0].0, con("List", 0, 2));
            assert_eq!(cases[1].0, con("Split", 2, 2));
            assert!(default.is_none());
            assert!(matches!(cases[0].1, DecisionTree::Leaf(1)));
        }
        _ => panic!("expected a switch"),
    }
}

#[test]
fn compile_switch_with_default_when_incomplete() {
    let tree = compile_patterns(&span_example(3));
    match tree {
        DecisionTree::Switch(cases, default) => {
            assert_eq!(cases.len(), 2);
            assert_eq!(cases[0].0.name, "List");
            assert_eq!(cases[1].0.name, "Split");
            let d = default.expect("a default branch");
            // the default matrix is `[List] -> 2`
            match *d {
                DecisionTree::Switch(ref cs, ref dd) => {
                    assert_eq!(cs.len(), 1);
                    assert!(matches!(cs[0].1, DecisionTree::Leaf(2)));
                    assert!(matches!(dd.as_deref(), Some(DecisionTree::Fail)));
                }
                _ => panic!("expected a switch"),
            }
        }
        _ => panic!("expected a switch"),
    }
}

#[test]
fn compile_empty_is_fail() {
    assert!(matches!(compile_patterns(&PatternMatrix::new()), DecisionTree::Fail));
}

#[test]
fn compile_wildcard_row_is_leaf() {
    let mut matrix = PatternMatrix::new();
    matrix.add_row(Row::new(vec![wcard(), wcard()], 7));
    matrix.add_row(Row::new(vec![nil(), nil()], 8));
    assert!(matches!(compile_patterns(&matrix), DecisionTree::Leaf(7)));
}

#[test]
fn compile_swaps_leftmost_constructor_column() {
    let mut matrix = PatternMatrix::new();
    matrix.add_row(Row::new(vec![wcard(), wcard(), nil()], 1));
    matrix.add_row(Row::new(vec![wcard(), wcard(), wcard()], 2));
    match compile_patterns(&matrix) {
        DecisionTree::Swap(2, inner) => match *inner {
            DecisionTree::Switch(cases, default) => {
                assert_eq!(cases.len(), 1);
                assert_eq!(cases[0].0.name, "Nil");
                assert!(matches!(cases[0].1, DecisionTree::Leaf(1)));
                assert!(default.is_none());
            }
            _ => panic!("expected a switch"),
        },
        _ => panic!("expected a swap of column 2"),
    }
}

#[test]
fn swap_exchanges_with_first_column() {
    let mut matrix = PatternMatrix::new();
    matrix.add_row(Row::new(vec![wcard(), split(wcard(), wcard()), nil()], 1));
    matrix.swap(2);
    let mut expected = PatternMatrix::new();
    expected.add_row(Row::new(vec![nil(), split(wcard(), wcard()), wcard()], 1));
    assert_eq!(matrix, expected);
}

#[test]
fn cols_with_constructors_ascending() {
    let mut matrix = PatternMatrix::new();
    matrix.add_row(Row::new(vec![wcard(), nil(), wcard(), wcard()], 1));
    matrix.add_row(Row::new(vec![wcard(), wcard(), wcard(), nil()], 2));
    assert_eq!(matrix.cols_with_wcard(), vec![1, 3]);
    assert_eq!(example().cols_with_wcard(), vec![0, 1]);
}

#[test]
fn head_cons_first_appearance_order() {
    let a = con("A", 0, 3);
    let b = con("B", 0, 3);
    let c = con("C", 0, 3);
    let mut matrix = PatternMatrix::new();
    matrix.add_row(Row::new(vec![Pattern::Con(b.clone(), vec![])], 1));
    matrix.add_row(Row::new(
        vec![Pattern::Or(Box::new(Pattern::Con(a.clone(), vec![])), Box::new(Pattern::Con(b.clone(), vec![])))],
        2,
    ));
    matrix.add_row(Row::new(vec![wcard()], 3));
    matrix.add_row(Row::new(vec![Pattern::Con(c.clone(), vec![])], 4));
    assert_eq!(matrix.head_cons(0), vec![b, a, c]);
}

#[test]
fn pattern_con_expands_or() {
    let a = con("A", 0, 2);
    let b = con("B", 0, 2);
    let p = Pattern::Or(
        Box::new(Pattern::Con(a.clone(), vec![])),
        Box::new(Pattern::Or(Box::new(Pattern::Con(b.clone(), vec![])), Box::new(Pattern::Con(a.clone(), vec![])))),
    );
    assert_eq!(p.con(), vec![a, b]);
    assert!(wcard().con().is_empty());
}

#[test]
fn row_queries() {
    let mut row = Row::new(vec![nil()], 4);
    assert!(row.head_is(&con("Nil", 0, 1)));
    assert!(!row.head_is(&con("Nil", 0, 2)));
    assert!(row.head_is_con());
    assert!(!row.head_is_wcard());
    assert!(!row.head_is_or());
    assert!(!row.contains_wcard_only());
    row.add(wcard());
    assert_eq!(row.size(), 2);
    assert_eq!(row.action(), 4);
    let w = Row::new(vec![wcard(), wcard()], 0);
    assert!(w.contains_wcard_only());
    assert!(w.head_is_wcard());
    let e = Row::new(vec![], 0);
    assert!(e.is_empty());
    assert!(e.contains_wcard_only());
    assert!(!e.head_is_con());
}

#[test]
fn useful_on_empty_matrix() {
    let matrix = PatternMatrix::new();
    assert!(usefulness(&matrix, &Row::new(vec![wcard()], 0)));
    assert!(usefulness(&matrix, &Row::new(vec![], 0)));
}

#[test]
fn useful_detects_unreachable_row() {
    let mut matrix = PatternMatrix::new();
    matrix.add_row(Row::new(vec![wcard(), wcard()], 1));
    assert!(!usefulness(&matrix, &Row::new(vec![nil(), wcard()], 2)));
}

#[test]
fn exhaustiveness_complete_signature() {
    let t = con("True", 0, 2);
    let f = con("False", 0, 2);
    let mut matrix = PatternMatrix::new();
    matrix.add_row(Row::new(vec![Pattern::Con(t.clone(), vec![])], 1));
    assert!(usefulness(&matrix, &Row::new(vec![wcard()], 0)));
    assert!(usefulness(&matrix, &Row::new(vec![Pattern::Con(f.clone(), vec![])], 2)));
    assert!(!usefulness(&matrix, &Row::new(vec![Pattern::Con(t.clone(), vec![])], 2)));
    matrix.add_row(Row::new(vec![Pattern::Con(f.clone(), vec![])], 2));
    assert!(!usefulness(&matrix, &Row::new(vec![wcard()], 0)));
    let or = Pattern::Or(Box::new(Pattern::Con(f.clone(), vec![])), Box::new(wcard()));
    assert!(!usefulness(&matrix, &Row::new(vec![or], 3)));
}

#[test]
fn exhaustiveness_agrees_with_compile_on_example() {
    let complete = span_example(2);
    let open = span_example(3);
    let wild = Row::new(vec![wcard(), wcard()], 0);
    // span 2: `List` and `Split` cover the type, and every pair is matched
    assert!(!usefulness(&complete, &wild));
    // span 3: a third constructor in both columns is matched by no row
    assert!(usefulness(&open, &wild));
    assert!(matches!(compile_patterns(&open), DecisionTree::Switch(_, Some(_))));
}

#[test]
fn render_matrix_rows_in_order() {
    let text = example().render();
    assert_eq!(text, "(  List/0/1    _  -> 1)\n(  _    List/0/1  -> 2)\n(  Split/2/1(_,_)    Split/2/1(_,_)  -> 3)\n");
    // rendering is a function of the matrix
    assert_eq!(example().render(), text);
}

#[test]
fn render_pattern_forms() {
    let or = Pattern::Or(Box::new(nil()), Box::new(split(wcard(), nil())));
    assert_eq!(or.render(), "(Nil/0/1 | Split/2/1(_,Nil/0/1))");
    assert_eq!(wcard().render(), "_");
    assert_eq!(list(vec![wcard(), wcard(), wcard()]).render(), "List/3/1(_,_,_)");
}

#[test]
fn render_tree_forms() {
    let tree = compile_patterns(&span_example(3));
    assert_eq!(
        tree.render(),
        "Switch( (List/0/3):Leaf(1) (Split/2/3):Swap^2(Switch( (List/0/3):Leaf(2) (Split/2/3):Leaf(3) default:Fail)) default:Switch( (List/0/3):Leaf(2) default:Fail))"
    );
    let mut matrix = PatternMatrix::new();
    matrix.add_row(Row::new(vec![wcard(), nil()], 12));
    assert_eq!(compile_patterns(&matrix).render(), "Swap^1(Switch( (Nil/0/1):Leaf(12)))");
    assert_eq!(DecisionTree::Fail.render(), "Fail");
}

#[test]
fn validate_accepts_example() {
    assert_eq!(example().validate(), Ok(()));
    assert_eq!(PatternMatrix::new().validate(), Ok(()));
}

#[test]
fn validate_rejects_ragged_rows() {
    let mut matrix = example();
    matrix.add_row(Row::new(vec![wcard()], 4));
    assert_eq!(matrix.validate(), Err(MatrixError::RaggedRows));
}

#[test]
fn validate_rejects_wrong_arity() {
    let mut matrix = PatternMatrix::new();
    matrix.add_row(Row::new(vec![Pattern::Con(con("Split", 2, 1), vec![wcard()])], 1));
    assert_eq!(matrix.validate(), Err(MatrixError::ArityMismatch));
}

#[test]
fn validate_rejects_conflicting_constructors() {
    let mut matrix = PatternMatrix::new();
    matrix.add_row(Row::new(vec![Pattern::Con(con("A", 0, 2), vec![])], 1));
    matrix.add_row(Row::new(vec![Pattern::Con(con("A", 0, 3), vec![])], 2));
    assert_eq!(matrix.validate(), Err(MatrixError::ConflictingConstructors));
}

#[test]
fn checked_entry_points() {
    assert!(matches!(try_compile(&example()), Ok(DecisionTree::Switch(_, _))));
    let mut bad = example();
    bad.add_row(Row::new(vec![], 9));
    assert!(matches!(try_compile(&bad), Err(MatrixError::RaggedRows)));
    assert_eq!(try_usefulness(&example(), &Row::new(vec![wcard()], 0)), Err(MatrixError::RaggedRows));
    assert_eq!(try_usefulness(&span_example(2), &Row::new(vec![wcard(), wcard()], 0)), Ok(false));
}

fn tree_has_fail(t: &DecisionTree) -> bool {
    match t {
        DecisionTree::Leaf(_) => false,
        DecisionTree::Fail => true,
        DecisionTree::Switch(cases, default) => {
            cases.iter().any(|(_, sub)| tree_has_fail(sub))
                || default.as_deref().map_or(false, tree_has_fail)
        }
        DecisionTree::Swap(_, sub) => tree_has_fail(sub),
    }
}

fn all_wild_row(n: usize) -> Row {
    Row::new((0..n).map(|_| wcard()).collect(), 0)
}

#[test]
fn fail_leaf_iff_wildcards_useful_on_examples() {
    let t = con("True", 0, 2);
    let f = con("False", 0, 2);
    let tt = || Pattern::Con(t.clone(), vec![]);
    let ff = || Pattern::Con(f.clone(), vec![]);

    let mut cases: Vec<(PatternMatrix, usize)> = Vec::new();
    cases.push((span_example(2), 2));
    cases.push((span_example(3), 2));
    cases.push((PatternMatrix::new(), 1));

    let mut m = PatternMatrix::new();
    m.add_row(Row::new(vec![tt(), ff()], 1));
    m.add_row(Row::new(vec![ff(), tt()], 2));
    cases.push((m, 2));

    let mut m = PatternMatrix::new();
    m.add_row(Row::new(vec![tt(), wcard()], 1));
    m.add_row(Row::new(vec![wcard(), ff()], 2));
    m.add_row(Row::new(vec![ff(), tt()], 3));
    cases.push((m, 2));

    let mut m = PatternMatrix::new();
    m.add_row(Row::new(vec![wcard(), Pattern::Or(Box::new(tt()), Box::new(ff()))], 1));
    cases.push((m, 2));

    let mut m = PatternMatrix::new();
    m.add_row(Row::new(vec![wcard(), wcard(), tt()], 1));
    cases.push((m, 3));

    for (m, n) in cases.iter() {
        let fail = tree_has_fail(&compile_patterns(m));
        let open = usefulness(m, &all_wild_row(*n));
        assert_eq!(fail, open);
    }
}

#[test]
fn render_tells_matrices_apart() {
    // other spans give another text
    assert_ne!(span_example(2).render(), span_example(3).render());
    // a different action, structure or name gives another text
    let mut a = PatternMatrix::new();
    a.add_row(Row::new(vec![nil(), wcard()], 1));
    let mut b = PatternMatrix::new();
    b.add_row(Row::new(vec![nil(), wcard()], 10));
    let mut c = PatternMatrix::new();
    c.add_row(Row::new(vec![Pattern::Or(Box::new(nil()), Box::new(wcard())), wcard()], 1));
    let mut d = PatternMatrix::new();
    d.add_row(Row::new(vec![Pattern::Con(con("Nik", 0, 1), vec![]), wcard()], 1));
    let texts = vec![a.render(), b.render(), c.render(), d.render()];
    for i in 0..texts.len() {
        for j in 0..texts.len() {
            assert_eq!(i == j, texts[i] == texts[j]);
        }
    }
    assert_eq!(b.render(), "(  Nil/0/1    _  -> 10)\n");
}

#[test]
fn any_name_is_accepted_and_rendered_apart() {
    let names = ["_", "", "A):Fail (B", "a b", "x,y", "p|q", "(", "line\nbreak", "a/b", "back\\slash", "\\0"];
    let mut texts = Vec::new();
    for name in names {
        let mut matrix = PatternMatrix::new();
        matrix.add_row(Row::new(vec![Pattern::Con(con(name, 0, 2), vec![])], 1));
        assert_eq!(matrix.validate(), Ok(()), "{:?}", name);
        assert!(matches!(try_compile(&matrix), Ok(DecisionTree::Switch(_, _))));
        texts.push(matrix.render());
    }
    for i in 0..texts.len() {
        for j in 0..texts.len() {
            assert_eq!(i == j, texts[i] == texts[j]);
        }
    }
    // a constructor named `_` is not a wildcard
    assert_eq!(Pattern::Con(con("_", 0, 1), vec![]).render(), "\\_/0/1");
    assert_eq!(Pattern::Con(con("", 0, 1), vec![]).render(), "\\0/0/1");
    assert_eq!(Pattern::Con(con("a b", -1, 1), vec![]).render(), "a\\ b/-1/1");
}

#[test]
fn tree_with_odd_name_renders_apart() {
    let odd = con("A):Fail (B", 0, 3);
    let a = con("A", 0, 3);
    let b = con("B", 0, 3);
    let one = DecisionTree::Switch(vec![(odd, DecisionTree::Fail)], None);
    let two = DecisionTree::Switch(vec![(a, DecisionTree::Fail), (b, DecisionTree::Fail)], None);
    assert_ne!(one.render(), two.render());
    assert_eq!(two.render(), "Switch( (A/0/3):Fail (B/0/3):Fail)");
}

#[test]
fn candidate_row_is_checked_with_the_matrix() {
    let matrix = span_example(2);
    let conflicting = Row::new(vec![Pattern::Con(con("List", 0, 5), vec![]), wcard()], 4);
    assert_eq!(try_usefulness(&matrix, &conflicting), Err(MatrixError::ConflictingConstructors));
    let fine = Row::new(vec![Pattern::Con(con("List", 0, 2), vec![]), wcard()], 4);
    assert_eq!(try_usefulness(&matrix, &fine), Ok(false));
}

#[test]
fn pattern_clone_is_deep() {
    let p = Pattern::Or(Box::new(split(nil(), wcard())), Box::new(wcard()));
    assert_eq!(p.clone(), p);
}

#[test]
fn fail_leaf_with_exhaustive_rows_when_a_column_overflows_its_span() {
    // `C`, `A` and `B` claim a type of two constructors, yet three stand in
    // column 1: the tree's case `c` tests them without covering them and
    // keeps a `Fail`, while the usefulness check, which only looks at the
    // default matrix of column 0, finds every value matched.
    let c = Pattern::Con(con("c", 0, 2), vec![]);
    let mut m = PatternMatrix::new();
    m.add_row(Row::new(vec![c, Pattern::Con(con("C", 0, 2), vec![])], 1));
    m.add_row(Row::new(vec![wcard(), Pattern::Con(con("A", 0, 2), vec![])], 2));
    m.add_row(Row::new(vec![wcard(), Pattern::Con(con("B", 0, 2), vec![])], 3));
    assert_eq!(m.validate(), Ok(()));
    assert!(tree_has_fail(&compile_patterns(&m)));
    assert!(!usefulness(&m, &all_wild_row(2)));
}
