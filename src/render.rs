use vstd::prelude::*;
use vstd::string::StringExecFns;
use vstd::std_specs::iter::IteratorSpec;
use crate::decision::{lemma_switch_model, DecisionTree, TreeView};
use crate::matrix::RowView;
use crate::pattern::{lemma_con_model, pats_model, Constructor, CtorView, PatView, Pattern};

verus! {

pub open spec fn digit_char(d: nat) -> char {
    if d == 0 {
        '0'
    } else if d == 1 {
        '1'
    } else if d == 2 {
        '2'
    } else if d == 3 {
        '3'
    } else if d == 4 {
        '4'
    } else if d == 5 {
        '5'
    } else if d == 6 {
        '6'
    } else if d == 7 {
        '7'
    } else if d == 8 {
        '8'
    } else {
        '9'
    }
}

/// The decimal digits of `n`.
pub open spec fn nat_text(n: nat) -> Seq<char>
    decreases n,
{
    if n < 10 {
        seq![digit_char(n)]
    } else {
        nat_text(n / 10) + seq![digit_char(n % 10)]
    }
}

/// Characters that a name holds after a backslash.
pub open spec fn special(c: char) -> bool {
    c == '(' || c == ')' || c == ',' || c == ' ' || c == '|' || c == '\n' || c == '/' || c == '\\'
        || c == '_'
}

pub open spec fn esc_char(c: char) -> Seq<char> {
    if special(c) {
        seq!['\\', c]
    } else {
        seq![c]
    }
}

/// A name with a backslash before each special character.
pub open spec fn escaped(n: Seq<char>) -> Seq<char>
    decreases n.len(),
{
    if n.len() == 0 {
        seq![]
    } else {
        escaped(n.drop_last()) + esc_char(n.last())
    }
}

/// The text of a name: escaped, and `\0` for the empty name.
pub open spec fn name_text(n: Seq<char>) -> Seq<char> {
    if n.len() == 0 {
        seq!['\\', '0']
    } else {
        escaped(n)
    }
}

/// The decimal text of an integer, with a minus sign when it is negative.
pub open spec fn int_text(i: int) -> Seq<char> {
    if i < 0 {
        seq!['-'] + nat_text((-i) as nat)
    } else {
        nat_text(i as nat)
    }
}

/// The text of a constructor: `name/arity/span`.
pub open spec fn ctor_text(c: CtorView) -> Seq<char> {
    name_text(c.name) + seq!['/'] + int_text(c.arity) + seq!['/'] + int_text(c.span)
}

/// The text of a pattern: `_` for a wildcard; a constructor's text, followed
/// by its arguments in parentheses, separated by commas, when it has any;
/// `(l | r)` for an or-pattern.
pub open spec fn pat_text(p: PatView) -> Seq<char>
    decreases p,
{
    match p {
        PatView::Wild => seq!['_'],
        PatView::Con(c, args) => if args.len() == 0 {
            ctor_text(c)
        } else {
            ctor_text(c) + seq!['('] + args_text(args) + seq![')']
        },
        PatView::Or(l, r) => seq!['('] + pat_text(*l) + seq![' ', '|', ' '] + pat_text(*r) + seq![
            ')',
        ],
    }
}

/// The texts of `ps`, separated by commas.
pub open spec fn args_text(ps: Seq<PatView>) -> Seq<char>
    decreases ps,
{
    if ps.len() == 0 {
        seq![]
    } else if ps.len() == 1 {
        pat_text(ps[0])
    } else {
        args_text(ps.subrange(0, ps.len() - 1)) + seq![','] + pat_text(ps[ps.len() - 1])
    }
}

/// The cells of a row: each pattern between two pairs of spaces.
pub open spec fn cells_text(ps: Seq<PatView>) -> Seq<char>
    decreases ps.len(),
{
    if ps.len() == 0 {
        seq![]
    } else {
        cells_text(ps.drop_last()) + seq![' ', ' '] + pat_text(ps.last()) + seq![' ', ' ']
    }
}

/// The line of a row: `(  p1    p2  -> action)` and a newline.
pub open spec fn row_text(r: RowView) -> Seq<char> {
    seq!['('] + cells_text(r.pats) + seq!['-', '>', ' '] + nat_text(r.action as nat) + seq![
        ')',
        '\n',
    ]
}

/// The text of a matrix: the lines of its rows, in order.
pub open spec fn matrix_text(m: Seq<RowView>) -> Seq<char>
    decreases m.len(),
{
    if m.len() == 0 {
        seq![]
    } else {
        matrix_text(m.drop_last()) + row_text(m.last())
    }
}

/// The text of a tree: `Leaf(n)`, `Fail`, `Swap^k(t)`, and
/// `Switch( (c):t ... default:t)` with one case per constructor and the
/// default part only when there is a default subtree.
pub open spec fn tree_text(t: TreeView) -> Seq<char>
    decreases t,
{
    match t {
        TreeView::Leaf(a) => seq!['L', 'e', 'a', 'f', '('] + nat_text(a as nat) + seq![')'],
        TreeView::Fail => seq!['F', 'a', 'i', 'l'],
        TreeView::Switch(cs, d) => seq!['S', 'w', 'i', 't', 'c', 'h', '('] + cases_text(cs) + (
        match d {
            Some(b) => seq![' ', 'd', 'e', 'f', 'a', 'u', 'l', 't', ':'] + tree_text(*b),
            None => seq![],
        }) + seq![')'],
        TreeView::Swap(i, b) => seq!['S', 'w', 'a', 'p', '^'] + nat_text(i) + seq!['('] + tree_text(
            *b,
        ) + seq![')'],
    }
}

/// The cases of a switch, each as ` (c):t` with `c` the constructor's text.
pub open spec fn cases_text(cs: Seq<(crate::pattern::CtorView, TreeView)>) -> Seq<char>
    decreases cs,
{
    if cs.len() == 0 {
        seq![]
    } else {
        cases_text(cs.subrange(0, cs.len() - 1)) + seq![' ', '('] + ctor_text(cs[cs.len() - 1].0)
            + seq![')', ':'] + tree_text(cs[cs.len() - 1].1)
    }
}

/// Relies on `String::push`: it appends the character to the string.
#[verifier::external_body]
fn push_char(out: &mut String, c: char)
    ensures
        final(out)@ == old(out)@.push(c),
{
    out.push(c)
}

/// Appends the text of a name.
fn push_name(out: &mut String, name: &String)
    ensures
        final(out)@ == old(out)@ + name_text(name@),
{
    broadcast use vstd::string::axiom_spec_iter, vstd::string::next_postcondition;

    let ghost full = name@;
    let ghost start = out@;
    let mut it = name.as_str().chars();
    let ghost mut count: int = 0;
    let mut any = false;
    assert(full.subrange(0, 0) =~= Seq::<char>::empty());
    loop
        invariant
            full == name@,
            0 <= count <= full.len(),
            it.remaining() == full.subrange(count, full.len() as int),
            out@ == start + escaped(full.subrange(0, count)),
            any == (count > 0),
        ensures
            count == full.len(),
            out@ == start + escaped(full.subrange(0, count)),
            any == (count > 0),
        decreases full.len() - count,
    {
        let ghost before = it.remaining();
        match it.next() {
            Some(c) => {
                assert(c == full[count]);
                if c == '(' || c == ')' || c == ',' || c == ' ' || c == '|' || c == '\n' || c == '/'
                    || c == '\\' || c == '_' {
                    push_char(out, '\\');
                }
                push_char(out, c);
                any = true;
                proof {
                    let sub = full.subrange(0, count + 1);
                    assert(sub.drop_last() =~= full.subrange(0, count));
                    assert(sub.last() == c);
                    assert(out@ =~= start + escaped(sub));
                    count = count + 1;
                    assert(full.subrange(count, full.len() as int) =~= before.drop_first());
                }
            },
            None => {
                assert(before.len() == 0);
                break;
            },
        }
    }
    assert(full.subrange(0, count) =~= full);
    if !any {
        proof {
            reveal_strlit("\\0");
        }
        out.append("\\0");
        assert(out@ =~= start + name_text(full));
    }
}

/// Appends the decimal text of an integer.
fn push_int(out: &mut String, x: i32)
    ensures
        final(out)@ == old(out)@ + int_text(x as int),
{
    if x < 0 {
        proof {
            reveal_strlit("-");
        }
        out.append("-");
        let n = (0i64 - (x as i64)) as usize;
        push_nat(out, n);
        assert(out@ =~= old(out)@ + int_text(x as int));
    } else {
        push_nat(out, x as usize);
    }
}

/// Appends the text of a constructor.
fn push_ctor(out: &mut String, c: &Constructor)
    ensures
        final(out)@ == old(out)@ + ctor_text(c@),
{
    push_name(out, &c.name);
    proof {
        reveal_strlit("/");
    }
    out.append("/");
    push_int(out, c.arity);
    out.append("/");
    push_int(out, c.span);
    assert(out@ =~= old(out)@ + ctor_text(c@));
}

fn push_digit(out: &mut String, d: usize)
    requires
        d < 10,
    ensures
        final(out)@ == old(out)@ + seq![digit_char(d as nat)],
{
    if d == 0 {
        proof {
            reveal_strlit("0");
        }
        out.append("0");
    } else if d == 1 {
        proof {
            reveal_strlit("1");
        }
        out.append("1");
    } else if d == 2 {
        proof {
            reveal_strlit("2");
        }
        out.append("2");
    } else if d == 3 {
        proof {
            reveal_strlit("3");
        }
        out.append("3");
    } else if d == 4 {
        proof {
            reveal_strlit("4");
        }
        out.append("4");
    } else if d == 5 {
        proof {
            reveal_strlit("5");
        }
        out.append("5");
    } else if d == 6 {
        proof {
            reveal_strlit("6");
        }
        out.append("6");
    } else if d == 7 {
        proof {
            reveal_strlit("7");
        }
        out.append("7");
    } else if d == 8 {
        proof {
            reveal_strlit("8");
        }
        out.append("8");
    } else {
        proof {
            reveal_strlit("9");
        }
        out.append("9");
    }
}

/// Appends the decimal digits of `n`.
pub fn push_nat(out: &mut String, n: usize)
    ensures
        final(out)@ == old(out)@ + nat_text(n as nat),
    decreases n,
{
    if n >= 10 {
        push_nat(out, n / 10);
    }
    push_digit(out, n % 10);
    proof {
        if n >= 10 {
            assert(old(out)@ + nat_text((n / 10) as nat) + seq![digit_char((n % 10) as nat)] =~= old(
                out,
            )@ + nat_text(n as nat));
        } else {
            assert(n % 10 == n);
        }
    }
}

impl Pattern {
    /// Appends the text of this pattern.
    pub fn render_into(&self, out: &mut String)
        ensures
            final(out)@ == old(out)@ + pat_text(self@),
        decreases self,
    {
        match self {
            Pattern::WildCard => {
                proof {
                    reveal_strlit("_");
                }
                out.append("_");
            },
            Pattern::Con(c, args) => {
                proof {
                    lemma_con_model(*c, *args);
                }
                let ghost ps = pats_model(args@);
                push_ctor(out, c);
                if args.len() > 0 {
                    proof {
                        reveal_strlit("(");
                    }
                    out.append("(");
                    let ghost start = out@;
                    let mut k: usize = 0;
                    assert(ps.subrange(0, 0) =~= Seq::<PatView>::empty());
                    while k < args.len()
                        invariant
                            *self == Pattern::Con(*c, *args),
                            ps == pats_model(args@),
                            k <= args.len(),
                            out@ == start + args_text(ps.subrange(0, k as int)),
                        decreases args.len() - k,
                    {
                        let ghost before = out@;
                        if k > 0 {
                            proof {
                                reveal_strlit(",");
                            }
                            out.append(",");
                        }
                        proof {
                            assert(decreases_to!(*self => (*self)->Con_1));
                            assert(decreases_to!(*args => args@));
                            assert(decreases_to!(args@ => args@[k as int]));
                        }
                        args[k].render_into(out);
                        proof {
                            let sub = ps.subrange(0, k + 1);
                            assert(sub.subrange(0, sub.len() - 1) =~= ps.subrange(0, k as int));
                            assert(sub[sub.len() - 1] == args@[k as int]@);
                            if k == 0 {
                                assert(args_text(sub) == pat_text(sub[0]));
                                assert(out@ =~= start + args_text(sub));
                            } else {
                                assert(out@ =~= start + args_text(sub));
                            }
                        }
                        k += 1;
                    }
                    assert(ps.subrange(0, k as int) =~= ps);
                    proof {
                        reveal_strlit(")");
                    }
                    out.append(")");
                    assert(out@ =~= old(out)@ + pat_text(self@));
                } else {
                    assert(ps.len() == 0);
                    assert(out@ =~= old(out)@ + pat_text(self@));
                }
            },
            Pattern::Or(l, r) => {
                proof {
                    reveal_strlit("(");
                    reveal_strlit(" | ");
                    reveal_strlit(")");
                }
                out.append("(");
                l.render_into(out);
                out.append(" | ");
                r.render_into(out);
                out.append(")");
                assert(out@ =~= old(out)@ + pat_text(self@));
            },
        }
    }

    /// The text of this pattern.
    pub fn render(&self) -> (r: String)
        ensures
            r@ == pat_text(self@),
    {
        let mut out = String::new();
        self.render_into(&mut out);
        assert(out@ =~= pat_text(self@));
        out
    }
}

impl DecisionTree {
    /// Appends the text of this tree.
    pub fn render_into(&self, out: &mut String)
        ensures
            final(out)@ == old(out)@ + tree_text(self@),
        decreases self,
    {
        match self {
            DecisionTree::Leaf(a) => {
                proof {
                    reveal_strlit("Leaf(");
                    reveal_strlit(")");
                }
                out.append("Leaf(");
                push_nat(out, *a);
                out.append(")");
                assert(out@ =~= old(out)@ + tree_text(self@));
            },
            DecisionTree::Fail => {
                proof {
                    reveal_strlit("Fail");
                }
                out.append("Fail");
            },
            DecisionTree::Swap(i, b) => {
                proof {
                    reveal_strlit("Swap^");
                    reveal_strlit("(");
                    reveal_strlit(")");
                }
                out.append("Swap^");
                push_nat(out, *i);
                out.append("(");
                b.render_into(out);
                out.append(")");
                assert(out@ =~= old(out)@ + tree_text(self@));
            },
            DecisionTree::Switch(cases, d) => {
                proof {
                    lemma_switch_model(*cases, *d);
                    reveal_strlit("Switch(");
                }
                let ghost cm = crate::decision::cases_model(cases@);
                out.append("Switch(");
                let ghost start = out@;
                let mut k: usize = 0;
                assert(cm.subrange(0, 0) =~= Seq::<(crate::pattern::CtorView, TreeView)>::empty());
                while k < cases.len()
                    invariant
                        *self == DecisionTree::Switch(*cases, *d),
                        cm == crate::decision::cases_model(cases@),
                        k <= cases.len(),
                        out@ == start + cases_text(cm.subrange(0, k as int)),
                    decreases cases.len() - k,
                {
                    proof {
                        reveal_strlit(" (");
                        reveal_strlit("):");
                    }
                    out.append(" (");
                    push_ctor(out, &cases[k].0);
                    out.append("):");
                    proof {
                        assert(decreases_to!(*self => (*self)->Switch_0));
                        assert(decreases_to!(*cases => cases@));
                        assert(decreases_to!(cases@ => cases@[k as int]));
                        assert(decreases_to!(cases@[k as int] => cases@[k as int].1));
                    }
                    cases[k].1.render_into(out);
                    proof {
                        let sub = cm.subrange(0, k + 1);
                        assert(sub.subrange(0, sub.len() - 1) =~= cm.subrange(0, k as int));
                        assert(sub[sub.len() - 1] == (cases@[k as int].0@, cases@[k as int].1@));
                        assert(out@ =~= start + cases_text(sub));
                    }
                    k += 1;
                }
                assert(cm.subrange(0, k as int) =~= cm);
                match d {
                    Some(b) => {
                        proof {
                            reveal_strlit(" default:");
                        }
                        out.append(" default:");
                        b.render_into(out);
                    },
                    None => {},
                }
                proof {
                    reveal_strlit(")");
                }
                out.append(")");
                assert(out@ =~= old(out)@ + tree_text(self@));
            },
        }
    }

    /// The text of this tree.
    pub fn render(&self) -> (r: String)
        ensures
            r@ == tree_text(self@),
    {
        let mut out = String::new();
        self.render_into(&mut out);
        assert(out@ =~= tree_text(self@));
        out
    }
}

proof fn lemma_cancel(a: Seq<char>, x: Seq<char>, b: Seq<char>, y: Seq<char>)
    requires
        a.len() == b.len(),
        a + x == b + y,
    ensures
        a == b,
        x == y,
{
    assert(a =~= (a + x).subrange(0, a.len() as int));
    assert(b =~= (b + y).subrange(0, b.len() as int));
    assert(x =~= (a + x).subrange(a.len() as int, (a + x).len() as int));
    assert(y =~= (b + y).subrange(b.len() as int, (b + y).len() as int));
}

pub open spec fn is_digit(c: char) -> bool {
    '0' <= c && c <= '9'
}

proof fn lemma_nat_text_digits(n: nat)
    ensures
        nat_text(n).len() > 0,
        forall|i: int| 0 <= i < nat_text(n).len() ==> is_digit(#[trigger] nat_text(n)[i]),
        n < 10 <==> nat_text(n).len() == 1,
    decreases n,
{
    if n >= 10 {
        lemma_nat_text_digits(n / 10);
        let t = nat_text(n);
        assert forall|i: int| 0 <= i < t.len() implies is_digit(#[trigger] t[i]) by {
            if i < nat_text(n / 10).len() {
                assert(t[i] == nat_text(n / 10)[i]);
            }
        }
    }
}

proof fn lemma_digit_injective(x: nat, y: nat)
    requires
        x < 10,
        y < 10,
        digit_char(x) == digit_char(y),
    ensures
        x == y,
{
}

proof fn lemma_nat_text_injective(a: nat, b: nat)
    requires
        nat_text(a) == nat_text(b),
    ensures
        a == b,
    decreases a,
{
    lemma_nat_text_digits(a);
    lemma_nat_text_digits(b);
    if a >= 10 && b >= 10 {
        let ta = nat_text(a);
        assert(ta.last() == digit_char(a % 10));
        assert(nat_text(b).last() == digit_char(b % 10));
        lemma_digit_injective(a % 10, b % 10);
        assert(nat_text(a / 10) =~= ta.drop_last());
        assert(nat_text(b / 10) =~= nat_text(b).drop_last());
        lemma_nat_text_injective(a / 10, b / 10);
        assert(a == 10 * (a / 10) + a % 10);
        assert(b == 10 * (b / 10) + b % 10);
    } else if a < 10 && b < 10 {
        assert(nat_text(a)[0] == digit_char(a));
        assert(nat_text(b)[0] == digit_char(b));
        lemma_digit_injective(a, b);
    }
}

/// A number's digits followed by nothing or by a non-digit read back.
proof fn lemma_nat_then(a: nat, b: nat, y1: Seq<char>, y2: Seq<char>)
    requires
        nat_text(a) + y1 == nat_text(b) + y2,
        y1.len() == 0 || !is_digit(y1[0]),
        y2.len() == 0 || !is_digit(y2[0]),
    ensures
        a == b,
        y1 == y2,
{
    let na = nat_text(a);
    let nb = nat_text(b);
    lemma_nat_text_digits(a);
    lemma_nat_text_digits(b);
    if na.len() < nb.len() {
        assert((nb + y2)[na.len() as int] == nb[na.len() as int]);
        if y1.len() == 0 {
            assert((na + y1).len() < (nb + y2).len());
        } else {
            assert((na + y1)[na.len() as int] == y1[0]);
        }
    } else if nb.len() < na.len() {
        assert((na + y1)[nb.len() as int] == na[nb.len() as int]);
        if y2.len() == 0 {
            assert((na + y1).len() > (nb + y2).len());
        } else {
            assert((nb + y2)[nb.len() as int] == y2[0]);
        }
    }
    lemma_cancel(na, y1, nb, y2);
    lemma_nat_text_injective(a, b);
}

/// An integer's text followed by nothing or by a non-digit reads back.
proof fn lemma_int_then(a: int, b: int, y1: Seq<char>, y2: Seq<char>)
    requires
        int_text(a) + y1 == int_text(b) + y2,
        y1.len() == 0 || !is_digit(y1[0]),
        y2.len() == 0 || !is_digit(y2[0]),
    ensures
        a == b,
        y1 == y2,
{
    let minus = seq!['-'];
    if a < 0 && b < 0 {
        assert(int_text(a) + y1 =~= minus + (nat_text((-a) as nat) + y1));
        assert(int_text(b) + y2 =~= minus + (nat_text((-b) as nat) + y2));
        lemma_cancel(minus, nat_text((-a) as nat) + y1, minus, nat_text((-b) as nat) + y2);
        lemma_nat_then((-a) as nat, (-b) as nat, y1, y2);
    } else if a >= 0 && b >= 0 {
        lemma_nat_then(a as nat, b as nat, y1, y2);
    } else if a < 0 {
        lemma_nat_text_digits(b as nat);
        assert((int_text(a) + y1)[0] == '-');
        assert((int_text(b) + y2)[0] == nat_text(b as nat)[0]);
    } else {
        lemma_nat_text_digits(a as nat);
        assert((int_text(b) + y2)[0] == '-');
        assert((int_text(a) + y1)[0] == nat_text(a as nat)[0]);
    }
}

/// The escaped form of a name, read from the front.
proof fn lemma_escaped_front(n: Seq<char>)
    requires
        n.len() > 0,
    ensures
        escaped(n) == esc_char(n[0]) + escaped(n.drop_first()),
    decreases n.len(),
{
    if n.len() == 1 {
        assert(n.drop_last() =~= Seq::<char>::empty());
        assert(n.drop_first() =~= Seq::<char>::empty());
        assert(escaped(n) =~= esc_char(n[0]) + escaped(n.drop_first()));
    } else {
        lemma_escaped_front(n.drop_last());
        assert(n.drop_last().drop_first() =~= n.drop_first().drop_last());
        assert(n.drop_first().last() == n.last());
        assert(escaped(n) =~= esc_char(n[0]) + escaped(n.drop_first()));
    }
}

/// An escaped name followed by a slash reads back.
proof fn lemma_escaped_unique(n1: Seq<char>, n2: Seq<char>, x1: Seq<char>, x2: Seq<char>)
    requires
        escaped(n1) + (seq!['/'] + x1) == escaped(n2) + (seq!['/'] + x2),
    ensures
        n1 == n2,
        x1 == x2,
    decreases n1.len(),
{
    let sl = seq!['/'];
    if n1.len() == 0 && n2.len() == 0 {
        lemma_cancel(sl, x1, sl, x2);
    } else if n1.len() == 0 {
        lemma_escaped_front(n2);
        assert((escaped(n2) + (sl + x2))[0] == esc_char(n2[0])[0]);
        assert((escaped(n1) + (sl + x1))[0] == '/');
    } else if n2.len() == 0 {
        lemma_escaped_front(n1);
        assert((escaped(n1) + (sl + x1))[0] == esc_char(n1[0])[0]);
        assert((escaped(n2) + (sl + x2))[0] == '/');
    } else {
        lemma_escaped_front(n1);
        lemma_escaped_front(n2);
        let e1 = esc_char(n1[0]);
        let e2 = esc_char(n2[0]);
        let t1 = escaped(n1.drop_first()) + (sl + x1);
        let t2 = escaped(n2.drop_first()) + (sl + x2);
        assert(escaped(n1) + (sl + x1) =~= e1 + t1);
        assert(escaped(n2) + (sl + x2) =~= e2 + t2);
        assert((e1 + t1)[0] == e1[0]);
        assert((e2 + t2)[0] == e2[0]);
        if special(n1[0]) && special(n2[0]) {
            assert((e1 + t1)[1] == e1[1]);
            assert((e2 + t2)[1] == e2[1]);
        }
        assert(e1 == e2);
        lemma_cancel(e1, t1, e2, t2);
        lemma_escaped_unique(n1.drop_first(), n2.drop_first(), x1, x2);
        assert(n1 =~= seq![n1[0]] + n1.drop_first());
        assert(n2 =~= seq![n2[0]] + n2.drop_first());
    }
}

/// The text of a name never starts with an unescaped special character.
proof fn lemma_name_first(n: Seq<char>)
    ensures
        name_text(n).len() > 0,
        name_text(n)[0] == '\\' || !special(name_text(n)[0]),
{
    if n.len() > 0 {
        lemma_escaped_front(n);
        assert(name_text(n)[0] == esc_char(n[0])[0]);
    }
}

/// The text of a name followed by a slash reads back.
proof fn lemma_name_unique(n1: Seq<char>, n2: Seq<char>, x1: Seq<char>, x2: Seq<char>)
    requires
        name_text(n1) + (seq!['/'] + x1) == name_text(n2) + (seq!['/'] + x2),
    ensures
        n1 == n2,
        x1 == x2,
{
    let sl = seq!['/'];
    let z = seq!['\\', '0'];
    if n1.len() == 0 && n2.len() == 0 {
        lemma_cancel(z, sl + x1, z, sl + x2);
        lemma_cancel(sl, x1, sl, x2);
    } else if n1.len() > 0 && n2.len() > 0 {
        lemma_escaped_unique(n1, n2, x1, x2);
    } else {
        let n = if n1.len() > 0 {
            n1
        } else {
            n2
        };
        lemma_escaped_front(n);
        let t = escaped(n) + (sl + (if n1.len() > 0 { x1 } else { x2 }));
        let u = z + (sl + (if n1.len() > 0 { x2 } else { x1 }));
        assert(t[0] == esc_char(n[0])[0]);
        assert(u[0] == '\\' && u[1] == '0');
        if special(n[0]) {
            assert(t[1] == n[0]);
        }
    }
}

proof fn lemma_ctor_text_split(c: CtorView, r: Seq<char>)
    ensures
        ctor_text(c) + r == name_text(c.name) + (seq!['/'] + (int_text(c.arity) + (seq!['/'] + (
        int_text(c.span) + r)))),
{
    assert(ctor_text(c) + r =~= name_text(c.name) + (seq!['/'] + (int_text(c.arity) + (seq!['/']
        + (int_text(c.span) + r)))));
}

/// The text of a constructor followed by nothing or by a non-digit reads
/// back.
proof fn lemma_ctor_unique(c1: CtorView, c2: CtorView, r1: Seq<char>, r2: Seq<char>)
    requires
        ctor_text(c1) + r1 == ctor_text(c2) + r2,
        r1.len() == 0 || !is_digit(r1[0]),
        r2.len() == 0 || !is_digit(r2[0]),
    ensures
        c1 == c2,
        r1 == r2,
{
    let sl = seq!['/'];
    let y1 = sl + (int_text(c1.span) + r1);
    let y2 = sl + (int_text(c2.span) + r2);
    lemma_ctor_text_split(c1, r1);
    lemma_ctor_text_split(c2, r2);
    lemma_name_unique(c1.name, c2.name, int_text(c1.arity) + y1, int_text(c2.arity) + y2);
    assert(y1[0] == '/');
    assert(y2[0] == '/');
    lemma_int_then(c1.arity, c2.arity, y1, y2);
    lemma_cancel(sl, int_text(c1.span) + r1, sl, int_text(c2.span) + r2);
    lemma_int_then(c1.span, c2.span, r1, r2);
}

/// A text that may follow a pattern: empty, or starting with a comma, a
/// closing parenthesis or a space.
pub open spec fn follows(s: Seq<char>) -> bool {
    s.len() == 0 || s[0] == ',' || s[0] == ')' || s[0] == ' '
}

/// The text of two or more arguments, read from the front.
proof fn lemma_args_text_front(ps: Seq<PatView>)
    requires
        ps.len() >= 2,
    ensures
        args_text(ps) == pat_text(ps[0]) + seq![','] + args_text(ps.drop_first()),
    decreases ps.len(),
{
    let init = ps.subrange(0, ps.len() - 1);
    let rest = ps.drop_first();
    assert(args_text(ps) == args_text(init) + seq![','] + pat_text(ps[ps.len() - 1]));
    if ps.len() == 2 {
        assert(init =~= seq![ps[0]]);
        assert(rest =~= seq![ps[1]]);
        assert(args_text(init) == pat_text(ps[0]));
        assert(args_text(rest) == pat_text(ps[1]));
        assert(args_text(ps) =~= pat_text(ps[0]) + seq![','] + args_text(rest));
    } else {
        lemma_args_text_front(init);
        assert(init.drop_first() =~= rest.subrange(0, rest.len() - 1));
        assert(rest[rest.len() - 1] == ps[ps.len() - 1]);
        assert(args_text(rest) == args_text(rest.subrange(0, rest.len() - 1)) + seq![','] + pat_text(
            rest[rest.len() - 1],
        ));
        assert(args_text(ps) =~= pat_text(ps[0]) + seq![','] + args_text(rest));
    }
}

proof fn lemma_first_char(p: PatView)
    ensures
        pat_text(p).len() > 0,
        p is Wild ==> pat_text(p) == seq!['_'],
        p is Or ==> pat_text(p)[0] == '(',
        p is Con ==> pat_text(p)[0] != '_' && pat_text(p)[0] != '(',
{
    if p is Con {
        let c = p->Con_0;
        lemma_name_first(c.name);
        lemma_ctor_text_split(c, Seq::<char>::empty());
        assert(ctor_text(c) + Seq::<char>::empty() =~= ctor_text(c));
        assert(ctor_text(c)[0] == name_text(c.name)[0]);
        assert(pat_text(p)[0] == ctor_text(c)[0]);
    }
}

/// A pattern is read back from its text followed by anything that may follow
/// a pattern.
pub proof fn lemma_pat_text_unique(p1: PatView, p2: PatView, s1: Seq<char>, s2: Seq<char>)
    requires
        follows(s1),
        follows(s2),
        pat_text(p1) + s1 == pat_text(p2) + s2,
    ensures
        p1 == p2,
        s1 == s2,
    decreases p1, 1nat,
{
    lemma_first_char(p1);
    lemma_first_char(p2);
    assert((pat_text(p1) + s1)[0] == pat_text(p1)[0]);
    assert((pat_text(p2) + s2)[0] == pat_text(p2)[0]);
    if p1 is Wild && p2 is Wild {
        lemma_cancel(pat_text(p1), s1, pat_text(p2), s2);
    } else if p1 is Or && p2 is Or {
        lemma_or_text_unique(p1, p2, s1, s2);
    } else if p1 is Con && p2 is Con {
        lemma_con_text_unique(p1, p2, s1, s2);
    }
}

proof fn lemma_or_text_unique(p1: PatView, p2: PatView, s1: Seq<char>, s2: Seq<char>)
    requires
        p1 is Or,
        p2 is Or,
        follows(s1),
        follows(s2),
        pat_text(p1) + s1 == pat_text(p2) + s2,
    ensures
        p1 == p2,
        s1 == s2,
    decreases p1, 0nat,
{
    let l1 = *p1->Or_0;
    let r1 = *p1->Or_1;
    let l2 = *p2->Or_0;
    let r2 = *p2->Or_1;
    let bar = seq![' ', '|', ' '];
    let x1 = bar + pat_text(r1) + seq![')'] + s1;
    let x2 = bar + pat_text(r2) + seq![')'] + s2;
    assert(pat_text(p1) + s1 =~= seq!['('] + (pat_text(l1) + x1));
    assert(pat_text(p2) + s2 =~= seq!['('] + (pat_text(l2) + x2));
    lemma_cancel(seq!['('], pat_text(l1) + x1, seq!['('], pat_text(l2) + x2);
    assert(x1[0] == ' ');
    assert(x2[0] == ' ');
    assert(decreases_to!(p1 => p1->Or_0));
    lemma_pat_text_unique(l1, l2, x1, x2);
    assert(x1 =~= bar + (pat_text(r1) + (seq![')'] + s1)));
    assert(x2 =~= bar + (pat_text(r2) + (seq![')'] + s2)));
    lemma_cancel(bar, pat_text(r1) + (seq![')'] + s1), bar, pat_text(r2) + (seq![')'] + s2));
    assert(decreases_to!(p1 => p1->Or_1));
    lemma_pat_text_unique(r1, r2, seq![')'] + s1, seq![')'] + s2);
    lemma_cancel(seq![')'], s1, seq![')'], s2);
}

proof fn lemma_con_text_unique(p1: PatView, p2: PatView, s1: Seq<char>, s2: Seq<char>)
    requires
        p1 is Con,
        p2 is Con,
        follows(s1),
        follows(s2),
        pat_text(p1) + s1 == pat_text(p2) + s2,
    ensures
        p1 == p2,
        s1 == s2,
    decreases p1, 0nat,
{
    let c1 = p1->Con_0;
    let a1 = p1->Con_1;
    let c2 = p2->Con_0;
    let a2 = p2->Con_1;
    let r1 = if a1.len() == 0 {
        s1
    } else {
        seq!['('] + args_text(a1) + seq![')'] + s1
    };
    let r2 = if a2.len() == 0 {
        s2
    } else {
        seq!['('] + args_text(a2) + seq![')'] + s2
    };
    assert(pat_text(p1) + s1 =~= ctor_text(c1) + r1);
    assert(pat_text(p2) + s2 =~= ctor_text(c2) + r2);
    lemma_ctor_unique(c1, c2, r1, r2);
    if a1.len() == 0 && a2.len() == 0 {
        assert(a1 =~= a2);
    } else if a1.len() == 0 {
        assert(r2[0] == '(');
    } else if a2.len() == 0 {
        assert(r1[0] == '(');
    } else {
        assert(r1 =~= seq!['('] + (args_text(a1) + seq![')'] + s1));
        assert(r2 =~= seq!['('] + (args_text(a2) + seq![')'] + s2));
        lemma_cancel(seq!['('], args_text(a1) + seq![')'] + s1, seq!['('], args_text(a2) + seq![')']
            + s2);
        assert(decreases_to!(p1 => p1->Con_1));
        lemma_args_text_unique(a1, a2, s1, s2);
    }
}

/// Arguments are read back from their text followed by a closing
/// parenthesis and anything that may follow a pattern.
proof fn lemma_args_text_unique(ps1: Seq<PatView>, ps2: Seq<PatView>, s1: Seq<char>, s2: Seq<char>)
    requires
        ps1.len() > 0,
        ps2.len() > 0,
        follows(s1),
        follows(s2),
        args_text(ps1) + seq![')'] + s1 == args_text(ps2) + seq![')'] + s2,
    ensures
        ps1 == ps2,
        s1 == s2,
    decreases ps1, 2nat,
{
    let x1 = if ps1.len() == 1 {
        seq![')'] + s1
    } else {
        seq![','] + args_text(ps1.drop_first()) + seq![')'] + s1
    };
    let x2 = if ps2.len() == 1 {
        seq![')'] + s2
    } else {
        seq![','] + args_text(ps2.drop_first()) + seq![')'] + s2
    };
    if ps1.len() >= 2 {
        lemma_args_text_front(ps1);
    }
    if ps2.len() >= 2 {
        lemma_args_text_front(ps2);
    }
    assert(args_text(ps1) + seq![')'] + s1 =~= pat_text(ps1[0]) + x1);
    assert(args_text(ps2) + seq![')'] + s2 =~= pat_text(ps2[0]) + x2);
    lemma_pat_text_unique(ps1[0], ps2[0], x1, x2);
    if ps1.len() == 1 && ps2.len() == 1 {
        lemma_cancel(seq![')'], s1, seq![')'], s2);
        assert(ps1 =~= ps2);
    } else if ps1.len() == 1 {
        assert(x2[0] == ',');
    } else if ps2.len() == 1 {
        assert(x1[0] == ',');
    } else {
        let rest1 = ps1.drop_first();
        let rest2 = ps2.drop_first();
        assert(x1 =~= seq![','] + (args_text(rest1) + seq![')'] + s1));
        assert(x2 =~= seq![','] + (args_text(rest2) + seq![')'] + s2));
        lemma_cancel(seq![','], args_text(rest1) + seq![')'] + s1, seq![','], args_text(rest2)
            + seq![')'] + s2);
        lemma_args_text_unique(rest1, rest2, s1, s2);
        assert(ps1 =~= seq![ps1[0]] + rest1);
        assert(ps2 =~= seq![ps2[0]] + rest2);
    }
}

/// The text of a pattern determines it: two patterns have the same text
/// exactly when they are equal.
pub proof fn law_pattern_text_unique(p1: PatView, p2: PatView)
    ensures
        pat_text(p1) == pat_text(p2) <==> p1 == p2,
{
    if pat_text(p1) == pat_text(p2) {
        assert(pat_text(p1) + Seq::<char>::empty() =~= pat_text(p2) + Seq::<char>::empty());
        lemma_pat_text_unique(p1, p2, Seq::<char>::empty(), Seq::<char>::empty());
    }
}

proof fn lemma_cells_front(ps: Seq<PatView>)
    requires
        ps.len() > 0,
    ensures
        cells_text(ps) == seq![' ', ' '] + pat_text(ps[0]) + seq![' ', ' '] + cells_text(
            ps.drop_first(),
        ),
    decreases ps.len(),
{
    if ps.len() == 1 {
        assert(ps.drop_last() =~= Seq::<PatView>::empty());
        assert(ps.drop_first() =~= Seq::<PatView>::empty());
        assert(cells_text(ps) =~= seq![' ', ' '] + pat_text(ps[0]) + seq![' ', ' '] + cells_text(
            ps.drop_first(),
        ));
    } else {
        lemma_cells_front(ps.drop_last());
        assert(ps.drop_last().drop_first() =~= ps.drop_first().drop_last());
        assert(ps.drop_first().last() == ps.last());
        assert(cells_text(ps) =~= seq![' ', ' '] + pat_text(ps[0]) + seq![' ', ' '] + cells_text(
            ps.drop_first(),
        ));
    }
}

proof fn lemma_cells_step(ps1: Seq<PatView>, ps2: Seq<PatView>, x1: Seq<char>, x2: Seq<char>)
    requires
        ps1.len() > 0,
        ps2.len() > 0,
        cells_text(ps1) + seq!['-'] + x1 == cells_text(ps2) + seq!['-'] + x2,
    ensures
        ps1[0] == ps2[0],
        cells_text(ps1.drop_first()) + seq!['-'] + x1 == cells_text(ps2.drop_first()) + seq!['-']
            + x2,
{
    let sp = seq![' ', ' '];
    lemma_cells_front(ps1);
    lemma_cells_front(ps2);
    let r1 = ps1.drop_first();
    let r2 = ps2.drop_first();
    let y1 = sp + cells_text(r1) + seq!['-'] + x1;
    let y2 = sp + cells_text(r2) + seq!['-'] + x2;
    assert(cells_text(ps1) + seq!['-'] + x1 =~= sp + (pat_text(ps1[0]) + y1));
    assert(cells_text(ps2) + seq!['-'] + x2 =~= sp + (pat_text(ps2[0]) + y2));
    lemma_cancel(sp, pat_text(ps1[0]) + y1, sp, pat_text(ps2[0]) + y2);
    assert(y1[0] == ' ');
    assert(y2[0] == ' ');
    lemma_pat_text_unique(ps1[0], ps2[0], y1, y2);
    assert(y1 =~= sp + (cells_text(r1) + seq!['-'] + x1));
    assert(y2 =~= sp + (cells_text(r2) + seq!['-'] + x2));
    lemma_cancel(sp, cells_text(r1) + seq!['-'] + x1, sp, cells_text(r2) + seq!['-'] + x2);
}

proof fn lemma_cells_unique(ps1: Seq<PatView>, ps2: Seq<PatView>, x1: Seq<char>, x2: Seq<char>)
    requires
        cells_text(ps1) + seq!['-'] + x1 == cells_text(ps2) + seq!['-'] + x2,
    ensures
        ps1 == ps2,
        x1 == x2,
    decreases ps1.len(),
{
    let sp = seq![' ', ' '];
    if ps1.len() == 0 && ps2.len() == 0 {
        lemma_cancel(seq!['-'], x1, seq!['-'], x2);
        assert(ps1 =~= ps2);
    } else if ps1.len() == 0 {
        lemma_cells_front(ps2);
        assert((cells_text(ps1) + seq!['-'] + x1)[0] == '-');
        assert((cells_text(ps2) + seq!['-'] + x2)[0] == ' ');
    } else if ps2.len() == 0 {
        lemma_cells_front(ps1);
        assert((cells_text(ps2) + seq!['-'] + x2)[0] == '-');
        assert((cells_text(ps1) + seq!['-'] + x1)[0] == ' ');
    } else {
        let r1 = ps1.drop_first();
        let r2 = ps2.drop_first();
        lemma_cells_step(ps1, ps2, x1, x2);
        lemma_cells_unique(r1, r2, x1, x2);
        assert(ps1 =~= seq![ps1[0]] + r1);
        assert(ps2 =~= seq![ps2[0]] + r2);
    }
}

proof fn lemma_row_unique(a: RowView, b: RowView, x1: Seq<char>, x2: Seq<char>)
    requires
        row_text(a) + x1 == row_text(b) + x2,
    ensures
        a == b,
        x1 == x2,
{
    let end = seq![')', '\n'];
    let na = nat_text(a.action as nat);
    let nb = nat_text(b.action as nat);
    let ya = seq!['>', ' '] + na + end + x1;
    let yb = seq!['>', ' '] + nb + end + x2;
    assert(row_text(a) + x1 =~= seq!['('] + (cells_text(a.pats) + seq!['-'] + ya));
    assert(row_text(b) + x2 =~= seq!['('] + (cells_text(b.pats) + seq!['-'] + yb));
    lemma_cancel(seq!['('], cells_text(a.pats) + seq!['-'] + ya, seq!['('], cells_text(b.pats)
        + seq!['-'] + yb);
    lemma_cells_unique(a.pats, b.pats, ya, yb);
    assert(ya =~= seq!['>', ' '] + (na + (end + x1)));
    assert(yb =~= seq!['>', ' '] + (nb + (end + x2)));
    lemma_cancel(seq!['>', ' '], na + (end + x1), seq!['>', ' '], nb + (end + x2));
    lemma_nat_then(a.action as nat, b.action as nat, end + x1, end + x2);
    lemma_cancel(end, x1, end, x2);
}

proof fn lemma_matrix_text_front(m: Seq<RowView>)
    requires
        m.len() > 0,
    ensures
        matrix_text(m) == row_text(m[0]) + matrix_text(m.drop_first()),
    decreases m.len(),
{
    if m.len() == 1 {
        assert(m.drop_last() =~= Seq::<RowView>::empty());
        assert(m.drop_first() =~= Seq::<RowView>::empty());
        assert(matrix_text(m) =~= row_text(m[0]) + matrix_text(m.drop_first()));
    } else {
        lemma_matrix_text_front(m.drop_last());
        assert(m.drop_last().drop_first() =~= m.drop_first().drop_last());
        assert(m.drop_first().last() == m.last());
        assert(matrix_text(m) =~= row_text(m[0]) + matrix_text(m.drop_first()));
    }
}

/// The text of a matrix determines it: two matrices have the same text
/// exactly when they are equal. Rendering, reading the text back and
/// rendering again thus gives the same text and the same matrix.
pub proof fn law_matrix_text_unique(m1: Seq<RowView>, m2: Seq<RowView>)
    ensures
        matrix_text(m1) == matrix_text(m2) <==> m1 == m2,
    decreases m1.len(),
{
    if matrix_text(m1) == matrix_text(m2) {
        if m1.len() == 0 && m2.len() == 0 {
            assert(m1 =~= m2);
        } else if m1.len() == 0 {
            lemma_matrix_text_front(m2);
            assert(row_text(m2[0]).len() > 0);
        } else if m2.len() == 0 {
            lemma_matrix_text_front(m1);
            assert(row_text(m1[0]).len() > 0);
        } else {
            lemma_matrix_text_front(m1);
            lemma_matrix_text_front(m2);
            lemma_row_unique(m1[0], m2[0], matrix_text(m1.drop_first()), matrix_text(
                m2.drop_first(),
            ));
            law_matrix_text_unique(m1.drop_first(), m2.drop_first());
            assert(m1 =~= seq![m1[0]] + m1.drop_first());
            assert(m2 =~= seq![m2[0]] + m2.drop_first());
        }
    }
}

/// A text that may follow a tree: empty, or starting with a space or a
/// closing parenthesis.
pub open spec fn follows_tree(s: Seq<char>) -> bool {
    s.len() == 0 || s[0] == ' ' || s[0] == ')'
}

proof fn lemma_cases_front(cs: Seq<(CtorView, TreeView)>)
    requires
        cs.len() > 0,
    ensures
        cases_text(cs) == seq![' ', '('] + ctor_text(cs[0].0) + seq![')', ':'] + tree_text(cs[0].1)
            + cases_text(cs.subrange(1, cs.len() as int)),
    decreases cs.len(),
{
    let init = cs.subrange(0, cs.len() - 1);
    let rest = cs.subrange(1, cs.len() as int);
    if cs.len() == 1 {
        assert(init =~= Seq::<(CtorView, TreeView)>::empty());
        assert(rest =~= Seq::<(CtorView, TreeView)>::empty());
        assert(cases_text(init) == Seq::<char>::empty());
        assert(cases_text(rest) == Seq::<char>::empty());
        assert(cases_text(cs) =~= seq![' ', '('] + ctor_text(cs[0].0) + seq![')', ':'] + tree_text(
            cs[0].1,
        ) + cases_text(rest));
    } else {
        lemma_cases_front(init);
        assert(init.subrange(1, init.len() as int) =~= rest.subrange(0, rest.len() - 1));
        assert(rest[rest.len() - 1] == cs[cs.len() - 1]);
        assert(cases_text(cs) =~= seq![' ', '('] + ctor_text(cs[0].0) + seq![')', ':'] + tree_text(
            cs[0].1,
        ) + cases_text(rest));
    }
}

proof fn lemma_tree_first(t: TreeView)
    ensures
        tree_text(t).len() >= 4,
        t is Leaf ==> tree_text(t)[0] == 'L',
        t is Fail ==> tree_text(t)[0] == 'F',
        t is Switch ==> tree_text(t)[0] == 'S' && tree_text(t)[2] == 'i',
        t is Swap ==> tree_text(t)[0] == 'S' && tree_text(t)[2] == 'a',
{
    match t {
        TreeView::Leaf(a) => {
            lemma_nat_text_digits(a as nat);
        },
        TreeView::Swap(i, _) => {
            lemma_nat_text_digits(i);
        },
        _ => {},
    }
}

/// A tree is read back from its text followed by anything that may follow a
/// tree.
pub proof fn lemma_tree_text_unique(t1: TreeView, t2: TreeView, s1: Seq<char>, s2: Seq<char>)
    requires
        follows_tree(s1),
        follows_tree(s2),
        tree_text(t1) + s1 == tree_text(t2) + s2,
    ensures
        t1 == t2,
        s1 == s2,
    decreases t1, 1nat,
{
    lemma_tree_first(t1);
    lemma_tree_first(t2);
    let x = tree_text(t1) + s1;
    assert(x[0] == tree_text(t1)[0]);
    assert(x[2] == tree_text(t1)[2]);
    assert(x[0] == tree_text(t2)[0]);
    assert(x[2] == tree_text(t2)[2]);
    match t1 {
        TreeView::Leaf(a1) => {
            let a2 = t2->Leaf_0;
            let p = seq!['L', 'e', 'a', 'f', '('];
            assert(x =~= p + (nat_text(a1 as nat) + (seq![')'] + s1)));
            assert(tree_text(t2) + s2 =~= p + (nat_text(a2 as nat) + (seq![')'] + s2)));
            lemma_cancel(p, nat_text(a1 as nat) + (seq![')'] + s1), p, nat_text(a2 as nat) + (
            seq![')'] + s2));
            lemma_nat_then(a1 as nat, a2 as nat, seq![')'] + s1, seq![')'] + s2);
            lemma_cancel(seq![')'], s1, seq![')'], s2);
        },
        TreeView::Fail => {
            lemma_cancel(tree_text(t1), s1, tree_text(t2), s2);
        },
        TreeView::Swap(i1, b1) => {
            let i2 = t2->Swap_0;
            let b2 = *t2->Swap_1;
            let p = seq!['S', 'w', 'a', 'p', '^'];
            let y1 = seq!['('] + tree_text(*b1) + seq![')'] + s1;
            let y2 = seq!['('] + tree_text(b2) + seq![')'] + s2;
            assert(x =~= p + (nat_text(i1) + y1));
            assert(tree_text(t2) + s2 =~= p + (nat_text(i2) + y2));
            lemma_cancel(p, nat_text(i1) + y1, p, nat_text(i2) + y2);
            lemma_nat_then(i1, i2, y1, y2);
            assert(y1 =~= seq!['('] + (tree_text(*b1) + (seq![')'] + s1)));
            assert(y2 =~= seq!['('] + (tree_text(b2) + (seq![')'] + s2)));
            lemma_cancel(seq!['('], tree_text(*b1) + (seq![')'] + s1), seq!['('], tree_text(b2) + (
            seq![')'] + s2));
            lemma_tree_text_unique(*b1, b2, seq![')'] + s1, seq![')'] + s2);
            lemma_cancel(seq![')'], s1, seq![')'], s2);
        },
        TreeView::Switch(_, _) => {
            lemma_switch_text_unique(t1, t2, s1, s2);
        },
    }
}

pub open spec fn default_text(d: Option<Box<TreeView>>) -> Seq<char> {
    match d {
        Some(b) => seq![' ', 'd', 'e', 'f', 'a', 'u', 'l', 't', ':'] + tree_text(*b),
        None => seq![],
    }
}

proof fn lemma_switch_text_unique(t1: TreeView, t2: TreeView, s1: Seq<char>, s2: Seq<char>)
    requires
        t1 is Switch,
        t2 is Switch,
        follows_tree(s1),
        follows_tree(s2),
        tree_text(t1) + s1 == tree_text(t2) + s2,
    ensures
        t1 == t2,
        s1 == s2,
    decreases t1, 0nat,
{
    let cs1 = t1->Switch_0;
    let d1 = t1->Switch_1;
    let cs2 = t2->Switch_0;
    let d2 = t2->Switch_1;
    let p = seq!['S', 'w', 'i', 't', 'c', 'h', '('];
    let y1 = default_text(d1) + seq![')'] + s1;
    let y2 = default_text(d2) + seq![')'] + s2;
    assert(tree_text(t1) + s1 =~= p + (cases_text(cs1) + y1));
    assert(tree_text(t2) + s2 =~= p + (cases_text(cs2) + y2));
    lemma_cancel(p, cases_text(cs1) + y1, p, cases_text(cs2) + y2);
    assert(y1.len() >= 1 && (y1[0] == ')' || (y1.len() >= 2 && y1[0] == ' ' && y1[1] == 'd')));
    assert(y2.len() >= 1 && (y2[0] == ')' || (y2.len() >= 2 && y2[0] == ' ' && y2[1] == 'd')));
    assert(decreases_to!(t1 => t1->Switch_0));
    lemma_cases_text_unique(cs1, cs2, y1, y2);
    let dd = seq![' ', 'd', 'e', 'f', 'a', 'u', 'l', 't', ':'];
    match d1 {
        Some(b1) => {
            match d2 {
                Some(b2) => {
                    assert(y1 =~= dd + (tree_text(*b1) + (seq![')'] + s1)));
                    assert(y2 =~= dd + (tree_text(*b2) + (seq![')'] + s2)));
                    lemma_cancel(dd, tree_text(*b1) + (seq![')'] + s1), dd, tree_text(*b2) + (
                    seq![')'] + s2));
                    assert(decreases_to!(t1 => t1->Switch_1));
                    assert(decreases_to!(d1 => d1->Some_0));
                    lemma_tree_text_unique(*b1, *b2, seq![')'] + s1, seq![')'] + s2);
                    lemma_cancel(seq![')'], s1, seq![')'], s2);
                },
                None => {
                    assert(y1[0] == ' ');
                    assert(y2[0] == ')');
                },
            }
        },
        None => {
            match d2 {
                Some(b2) => {
                    assert(y1[0] == ')');
                    assert(y2[0] == ' ');
                },
                None => {
                    lemma_cancel(seq![')'], s1, seq![')'], s2);
                },
            }
        },
    }
}

/// Cases are read back from their text followed by a default part or a
/// closing parenthesis.
proof fn lemma_cases_text_unique(
    cs1: Seq<(CtorView, TreeView)>,
    cs2: Seq<(CtorView, TreeView)>,
    y1: Seq<char>,
    y2: Seq<char>,
)
    requires
        y1.len() >= 1 && (y1[0] == ')' || (y1.len() >= 2 && y1[0] == ' ' && y1[1] == 'd')),
        y2.len() >= 1 && (y2[0] == ')' || (y2.len() >= 2 && y2[0] == ' ' && y2[1] == 'd')),
        cases_text(cs1) + y1 == cases_text(cs2) + y2,
    ensures
        cs1 == cs2,
        y1 == y2,
    decreases cs1, 2nat,
{
    if cs1.len() == 0 && cs2.len() == 0 {
        assert(cs1 =~= cs2);
    } else if cs1.len() == 0 {
        lemma_cases_front(cs2);
        assert((cases_text(cs2) + y2)[0] == ' ');
        assert((cases_text(cs2) + y2)[1] == '(');
    } else if cs2.len() == 0 {
        lemma_cases_front(cs1);
        assert((cases_text(cs1) + y1)[0] == ' ');
        assert((cases_text(cs1) + y1)[1] == '(');
    } else {
        lemma_cases_text_step(cs1, cs2, y1, y2);
    }
}

/// The first cases of two equal texts have the same constructor, and the
/// texts after it are equal.
proof fn lemma_case_head(
    cs1: Seq<(CtorView, TreeView)>,
    cs2: Seq<(CtorView, TreeView)>,
    y1: Seq<char>,
    y2: Seq<char>,
)
    requires
        cs1.len() > 0,
        cs2.len() > 0,
        cases_text(cs1) + y1 == cases_text(cs2) + y2,
    ensures
        cs1[0].0 == cs2[0].0,
        tree_text(cs1[0].1) + (cases_text(cs1.subrange(1, cs1.len() as int)) + y1) == tree_text(
            cs2[0].1,
        ) + (cases_text(cs2.subrange(1, cs2.len() as int)) + y2),
{
    lemma_cases_front(cs1);
    lemma_cases_front(cs2);
    let r1 = cs1.subrange(1, cs1.len() as int);
    let r2 = cs2.subrange(1, cs2.len() as int);
    let op = seq![' ', '('];
    let cl = seq![')', ':'];
    let z1 = tree_text(cs1[0].1) + (cases_text(r1) + y1);
    let z2 = tree_text(cs2[0].1) + (cases_text(r2) + y2);
    assert(cases_text(cs1) + y1 =~= op + (ctor_text(cs1[0].0) + (cl + z1)));
    assert(cases_text(cs2) + y2 =~= op + (ctor_text(cs2[0].0) + (cl + z2)));
    lemma_cancel(op, ctor_text(cs1[0].0) + (cl + z1), op, ctor_text(cs2[0].0) + (cl + z2));
    assert((cl + z1)[0] == ')');
    assert((cl + z2)[0] == ')');
    lemma_ctor_unique(cs1[0].0, cs2[0].0, cl + z1, cl + z2);
    lemma_cancel(cl, z1, cl, z2);
}

#[verifier::rlimit(40)]
proof fn lemma_cases_text_step(
    cs1: Seq<(CtorView, TreeView)>,
    cs2: Seq<(CtorView, TreeView)>,
    y1: Seq<char>,
    y2: Seq<char>,
)
    requires
        cs1.len() > 0,
        cs2.len() > 0,
        y1.len() >= 1 && (y1[0] == ')' || (y1.len() >= 2 && y1[0] == ' ' && y1[1] == 'd')),
        y2.len() >= 1 && (y2[0] == ')' || (y2.len() >= 2 && y2[0] == ' ' && y2[1] == 'd')),
        cases_text(cs1) + y1 == cases_text(cs2) + y2,
    ensures
        cs1 == cs2,
        y1 == y2,
    decreases cs1, 1nat,
{
    let r1 = cs1.subrange(1, cs1.len() as int);
    let r2 = cs2.subrange(1, cs2.len() as int);
    lemma_case_head(cs1, cs2, y1, y2);
    let w1 = cases_text(r1) + y1;
    let w2 = cases_text(r2) + y2;
    if r1.len() > 0 {
        lemma_cases_front(r1);
    }
    if r2.len() > 0 {
        lemma_cases_front(r2);
    }
    assert(w1[0] == ' ' || w1[0] == ')');
    assert(w2[0] == ' ' || w2[0] == ')');
    assert(decreases_to!(cs1 => cs1[0]));
    assert(decreases_to!(cs1[0] => cs1[0].1));
    lemma_tree_text_unique(cs1[0].1, cs2[0].1, w1, w2);
    lemma_cases_text_unique(r1, r2, y1, y2);
    assert(cs1 =~= seq![cs1[0]] + r1);
    assert(cs2 =~= seq![cs2[0]] + r2);
}

/// The text of a tree determines it: two trees have the same text exactly
/// when they are equal.
pub proof fn law_tree_text_unique(t1: TreeView, t2: TreeView)
    ensures
        tree_text(t1) == tree_text(t2) <==> t1 == t2,
{
    if tree_text(t1) == tree_text(t2) {
        assert(tree_text(t1) + Seq::<char>::empty() =~= tree_text(t2) + Seq::<char>::empty());
        lemma_tree_text_unique(t1, t2, Seq::<char>::empty(), Seq::<char>::empty());
    }
}

} // verus!
