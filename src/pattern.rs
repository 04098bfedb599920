use vstd::prelude::*;

verus! {

/// Mathematical model of a constructor: its name, its arity and the number of
/// constructors of the type it belongs to.
pub struct CtorView {
    pub name: Seq<char>,
    pub arity: int,
    pub span: int,
}

/// Mathematical model of a pattern.
pub enum PatView {
    Con(CtorView, Seq<PatView>),
    Wild,
    Or(Box<PatView>, Box<PatView>),
}

/// A pattern constructor: the variant `Red` of `enum Rgb { Red, Green, Blue }`
/// has name `"Red"`, arity 0 and span 3.
#[derive(Debug, Clone, PartialEq, Eq, Hash)]
pub struct Constructor {
    pub name: String,
    pub arity: i32,
    pub span: i32,
}

impl View for Constructor {
    type V = CtorView;

    open spec fn view(&self) -> CtorView {
        CtorView { name: self.name@, arity: self.arity as int, span: self.span as int }
    }
}

/// A pattern over the shape of a value. `Clone` is written by hand, as
/// `deep_copy`.
#[derive(Debug, PartialEq, Eq, Hash)]
pub enum Pattern {
    Con(Constructor, Vec<Pattern>),
    WildCard,
    Or(Box<Pattern>, Box<Pattern>),
}

pub open spec fn pat_model(p: Pattern) -> PatView
    decreases p,
{
    match p {
        Pattern::Con(c, args) => PatView::Con(
            c@,
            args@.map(
                |i: int, a: Pattern|
                    if 0 <= i < args@.len() && a == args@[i] {
                        pat_model(a)
                    } else {
                        PatView::Wild
                    },
            ),
        ),
        Pattern::WildCard => PatView::Wild,
        Pattern::Or(l, r) => PatView::Or(Box::new(pat_model(*l)), Box::new(pat_model(*r))),
    }
}

impl View for Pattern {
    type V = PatView;

    open spec fn view(&self) -> PatView {
        pat_model(*self)
    }
}

/// The model of a constructor pattern holds the models of its arguments.
pub proof fn lemma_con_model(c: Constructor, args: Vec<Pattern>)
    ensures
        pat_model(Pattern::Con(c, args)) == PatView::Con(c@, pats_model(args@)),
{
    let m = pat_model(Pattern::Con(c, args));
    assert(m->Con_1 =~= pats_model(args@));
}

/// The models of a sequence of patterns.
pub open spec fn pats_model(ps: Seq<Pattern>) -> Seq<PatView> {
    ps.map(|i: int, p: Pattern| p@)
}

/// The constructors at the head of a pattern, in left-to-right order: none for
/// a wildcard, both sides of an or-pattern.
pub open spec fn head_ctors(p: PatView) -> Seq<CtorView>
    decreases p,
{
    match p {
        PatView::Con(c, _) => seq![c],
        PatView::Wild => seq![],
        PatView::Or(l, r) => head_ctors(*l) + head_ctors(*r),
    }
}

/// `acc` extended by the elements of `s` that it does not hold yet, in their
/// order of first appearance.
pub open spec fn add_new(acc: Seq<CtorView>, s: Seq<CtorView>) -> Seq<CtorView>
    decreases s.len(),
{
    if s.len() == 0 {
        acc
    } else {
        let acc2 = if acc.contains(s[0]) {
            acc
        } else {
            acc.push(s[0])
        };
        add_new(acc2, s.drop_first())
    }
}

pub proof fn lemma_add_new_concat(acc: Seq<CtorView>, a: Seq<CtorView>, b: Seq<CtorView>)
    ensures
        add_new(acc, a + b) == add_new(add_new(acc, a), b),
    decreases a.len(),
{
    if a.len() == 0 {
        assert(a + b =~= b);
    } else {
        assert((a + b).drop_first() =~= a.drop_first() + b);
        let acc2 = if acc.contains(a[0]) {
            acc
        } else {
            acc.push(a[0])
        };
        lemma_add_new_concat(acc2, a.drop_first(), b);
    }
}

/// Every element of `add_new(acc, s)` stands in `acc` or in `s`, and those of
/// `acc` stay in front.
pub proof fn lemma_add_new_members(acc: Seq<CtorView>, s: Seq<CtorView>)
    ensures
        forall|x: CtorView| add_new(acc, s).contains(x) <==> (acc.contains(x) || s.contains(x)),
        add_new(acc, s).len() >= acc.len(),
        add_new(acc, s).subrange(0, acc.len() as int) == acc,
    decreases s.len(),
{
    if s.len() > 0 {
        let acc2 = if acc.contains(s[0]) {
            acc
        } else {
            acc.push(s[0])
        };
        lemma_add_new_members(acc2, s.drop_first());
        assert forall|x: CtorView| add_new(acc, s).contains(x) <==> (acc.contains(x) || s.contains(
            x,
        )) by {
            if s.contains(x) && !s.drop_first().contains(x) {
                let j = choose|j: int| 0 <= j < s.len() && s[j] == x;
                if j > 0 {
                    assert(s.drop_first()[j - 1] == x);
                }
                if !acc.contains(x) {
                    assert(acc2[acc.len() as int] == x);
                }
            }
            if s.drop_first().contains(x) {
                let j = choose|j: int| 0 <= j < s.drop_first().len() && s.drop_first()[j] == x;
                assert(s[j + 1] == x);
            }
            if acc2.contains(x) && !acc.contains(x) {
                let j = choose|j: int| 0 <= j < acc2.len() && acc2[j] == x;
                assert(s[0] == x);
            }
            if acc.contains(x) {
                let j = choose|j: int| 0 <= j < acc.len() && acc[j] == x;
                assert(acc2[j] == x);
            }
        }
        assert(add_new(acc, s).subrange(0, acc.len() as int) =~= acc) by {
            assert(add_new(acc2, s.drop_first()).subrange(0, acc2.len() as int) == acc2);
            assert(acc2.subrange(0, acc.len() as int) =~= acc);
        }
    } else {
        assert(acc.subrange(0, acc.len() as int) =~= acc);
    }
}

/// A sequence without repeated elements.
pub open spec fn distinct(s: Seq<CtorView>) -> bool {
    forall|i: int, j: int| 0 <= i < j < s.len() ==> s[i] != s[j]
}

pub proof fn lemma_add_new_distinct(acc: Seq<CtorView>, s: Seq<CtorView>)
    requires
        distinct(acc),
    ensures
        distinct(add_new(acc, s)),
    decreases s.len(),
{
    if s.len() > 0 {
        let acc2 = if acc.contains(s[0]) {
            acc
        } else {
            acc.push(s[0])
        };
        assert(distinct(acc2));
        lemma_add_new_distinct(acc2, s.drop_first());
    }
}

/// The constructor `Nil`, alone in its type.
pub fn nil() -> (r: Pattern)
    ensures
        r@ == PatView::Con(CtorView { name: seq!['N', 'i', 'l'], arity: 0, span: 1 }, seq![]),
{
    let con = Constructor { name: String::from_str("Nil"), arity: 0, span: 1 };
    proof {
        reveal_strlit("Nil");
    }
    assert(con.name@ =~= seq!['N', 'i', 'l']);
    let args: Vec<Pattern> = Vec::new();
    let r = Pattern::Con(con, args);
    proof {
        lemma_con_model(con, args);
        assert(pats_model(args@) =~= seq![]);
    }
    r
}

/// The constructor `Split`, of arity two: a list split into head and tail.
pub fn split(lhs: Pattern, rhs: Pattern) -> (r: Pattern)
    ensures
        r@ == PatView::Con(
            CtorView { name: seq!['S', 'p', 'l', 'i', 't'], arity: 2, span: 1 },
            seq![lhs@, rhs@],
        ),
{
    let con = Constructor { name: String::from_str("Split"), arity: 2, span: 1 };
    proof {
        reveal_strlit("Split");
    }
    assert(con.name@ =~= seq!['S', 'p', 'l', 'i', 't']);
    let mut args: Vec<Pattern> = Vec::new();
    args.push(lhs);
    args.push(rhs);
    proof {
        lemma_con_model(con, args);
        assert(pats_model(args@) =~= seq![lhs@, rhs@]);
    }
    Pattern::Con(con, args)
}

/// The constructor `List` applied to `args`, with the arity their number gives.
pub fn list(args: Vec<Pattern>) -> (r: Pattern)
    requires
        args.len() <= i32::MAX,
    ensures
        r@ == PatView::Con(
            CtorView { name: seq!['L', 'i', 's', 't'], arity: args.len() as int, span: 1 },
            pats_model(args@),
        ),
{
    let con = Constructor { name: String::from_str("List"), arity: args.len() as i32, span: 1 };
    proof {
        reveal_strlit("List");
    }
    assert(con.name@ =~= seq!['L', 'i', 's', 't']);
    proof {
        lemma_con_model(con, args);
    }
    Pattern::Con(con, args)
}

/// The wildcard pattern.
pub fn wcard() -> (r: Pattern)
    ensures
        r@ == PatView::Wild,
{
    Pattern::WildCard
}

/// The models of a sequence of constructors.
pub open spec fn ctors_model(cs: Seq<Constructor>) -> Seq<CtorView> {
    cs.map(|i: int, c: Constructor| c@)
}

impl Constructor {
    /// Structural equality: same name, arity and span.
    pub fn same(&self, other: &Constructor) -> (r: bool)
        ensures
            r == (self@ == other@),
    {
        let n = self.name == other.name;
        n && self.arity == other.arity && self.span == other.span
    }

    pub fn deep_copy(&self) -> (r: Constructor)
        ensures
            r@ == self@,
    {
        Constructor { name: self.name.clone(), arity: self.arity, span: self.span }
    }
}

/// Whether `cs` holds a constructor equal to `c`.
pub fn holds(cs: &Vec<Constructor>, c: &Constructor) -> (r: bool)
    ensures
        r == ctors_model(cs@).contains(c@),
{
    let mut i: usize = 0;
    while i < cs.len()
        invariant
            i <= cs.len(),
            forall|j: int| 0 <= j < i ==> cs@[j]@ != c@,
        decreases cs.len() - i,
    {
        if cs[i].same(c) {
            assert(ctors_model(cs@)[i as int] == c@);
            return true;
        }
        i += 1;
    }
    proof {
        if ctors_model(cs@).contains(c@) {
            let j = choose|j: int| 0 <= j < ctors_model(cs@).len() && ctors_model(cs@)[j] == c@;
            assert(cs@[j]@ == c@);
        }
    }
    false
}

impl Clone for Pattern {
    fn clone(&self) -> (r: Self)
        ensures
            r@ == self@,
    {
        self.deep_copy()
    }
}

impl Pattern {
    pub fn deep_copy(&self) -> (r: Pattern)
        ensures
            r@ == self@,
        decreases self,
    {
        match self {
            Pattern::Con(c, args) => {
                let mut out: Vec<Pattern> = Vec::new();
                let mut i: usize = 0;
                while i < args.len()
                    invariant
                        *self == Pattern::Con(*c, *args),
                        i <= args.len(),
                        out@.len() == i,
                        forall|j: int| 0 <= j < i ==> (#[trigger] out@[j])@ == args@[j]@,
                    decreases args.len() - i,
                {
                    proof {
                        assert(decreases_to!(*self => (*self)->Con_1));
                        assert(decreases_to!(*args => args@));
                        assert(decreases_to!(args@ => args@[i as int]));
                        assert(decreases_to!(*self => args@[i as int]));
                    }
                    let a = args[i].deep_copy();
                    out.push(a);
                    i += 1;
                }
                let c2 = c.deep_copy();
                proof {
                    lemma_con_model(*c, *args);
                    lemma_con_model(c2, out);
                    assert(pats_model(out@) =~= pats_model(args@));
                }
                Pattern::Con(c2, out)
            },
            Pattern::WildCard => Pattern::WildCard,
            Pattern::Or(l, r) => {
                let l2 = l.deep_copy();
                let r2 = r.deep_copy();
                Pattern::Or(Box::new(l2), Box::new(r2))
            },
        }
    }

    /// Appends to `acc` the head constructors of this pattern that it does not
    /// hold yet.
    pub(crate) fn push_heads(&self, acc: &mut Vec<Constructor>)
        ensures
            ctors_model(final(acc)@) == add_new(ctors_model(old(acc)@), head_ctors(self@)),
        decreases self,
    {
        match self {
            Pattern::Con(c, args) => {
                proof {
                    lemma_con_model(*c, *args);
                    let s = head_ctors(self@);
                    assert(s =~= seq![c@]);
                    assert(s.drop_first() =~= seq![]);
                    let m = ctors_model(acc@);
                    let m2 = if m.contains(c@) { m } else { m.push(c@) };
                    assert(add_new(m, s) == add_new(m2, s.drop_first()));
                    assert(add_new(m2, s.drop_first()) == m2);
                }
                if !holds(acc, c) {
                    let c2 = c.deep_copy();
                    acc.push(c2);
                    assert(ctors_model(acc@) =~= ctors_model(old(acc)@).push(c@));
                }
            },
            Pattern::WildCard => {},
            Pattern::Or(l, r) => {
                l.push_heads(acc);
                r.push_heads(acc);
                proof {
                    lemma_add_new_concat(ctors_model(old(acc)@), head_ctors(l@), head_ctors(r@));
                }
            },
        }
    }

    /// The distinct head constructors of this pattern, in left-to-right order of
    /// first appearance: none for a wildcard, those of both sides of an
    /// or-pattern.
    pub fn con(&self) -> (r: Vec<Constructor>)
        ensures
            ctors_model(r@) == add_new(seq![], head_ctors(self@)),
            distinct(ctors_model(r@)),
    {
        let mut acc: Vec<Constructor> = Vec::new();
        assert(ctors_model(acc@) =~= seq![]);
        self.push_heads(&mut acc);
        proof {
            lemma_add_new_distinct(seq![], head_ctors(self@));
        }
        acc
    }
}

} // verus!
