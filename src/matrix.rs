use vstd::prelude::*;
use vstd::string::StringExecFns;
use crate::pattern::{
    add_new, head_ctors, lemma_con_model, pats_model, Constructor, CtorView, PatView, Pattern,
};
use crate::render::{cells_text, matrix_text, push_nat, row_text};

verus! {

/// Model of a row: its patterns, one per column, and its action.
pub struct RowView {
    pub pats: Seq<PatView>,
    pub action: usize,
}

/// `n` wildcards.
pub open spec fn wilds(n: nat) -> Seq<PatView> {
    Seq::new(n, |i: int| PatView::Wild)
}

/// The number of sub-patterns that a constructor carries (none when its
/// arity is negative).
pub open spec fn arity_of(c: CtorView) -> nat {
    if c.arity > 0 {
        c.arity as nat
    } else {
        0
    }
}

/// The rows that a row with first pattern `head`, other patterns `tail` and
/// action `action` yields under the assumption that the first value was built
/// with `c`.
pub open spec fn specialize_pat(head: PatView, tail: Seq<PatView>, action: usize, c: CtorView) -> Seq<
    RowView,
>
    decreases head,
{
    match head {
        PatView::Con(d, args) => if d == c {
            seq![RowView { pats: args + tail, action }]
        } else {
            seq![]
        },
        PatView::Wild => seq![RowView { pats: wilds(arity_of(c)) + tail, action }],
        PatView::Or(l, r) => specialize_pat(*l, tail, action, c) + specialize_pat(*r, tail, action, c),
    }
}

pub open spec fn specialize_row(r: RowView, c: CtorView) -> Seq<RowView> {
    if r.pats.len() == 0 {
        seq![]
    } else {
        specialize_pat(r.pats[0], r.pats.drop_first(), r.action, c)
    }
}

/// The specialized matrix: the rows of `m` in order, each replaced by what it
/// yields under `c`.
pub open spec fn specialize(m: Seq<RowView>, c: CtorView) -> Seq<RowView>
    decreases m.len(),
{
    if m.len() == 0 {
        seq![]
    } else {
        specialize(m.drop_last(), c) + specialize_row(m.last(), c)
    }
}

/// The rows that a row with first pattern `head` yields in the default
/// matrix.
pub open spec fn default_pat(head: PatView, tail: Seq<PatView>, action: usize) -> Seq<RowView>
    decreases head,
{
    match head {
        PatView::Con(_, _) => seq![],
        PatView::Wild => seq![RowView { pats: tail, action }],
        PatView::Or(l, r) => default_pat(*l, tail, action) + default_pat(*r, tail, action),
    }
}

pub open spec fn default_row(r: RowView) -> Seq<RowView> {
    if r.pats.len() == 0 {
        seq![]
    } else {
        default_pat(r.pats[0], r.pats.drop_first(), r.action)
    }
}

/// The default matrix: the rows of `m` in order, each replaced by what it
/// yields when the first value's constructor is none of those tested.
pub open spec fn default_matrix(m: Seq<RowView>) -> Seq<RowView>
    decreases m.len(),
{
    if m.len() == 0 {
        seq![]
    } else {
        default_matrix(m.drop_last()) + default_row(m.last())
    }
}

/// The head constructors of column `j`, row after row, with repetitions.
pub open spec fn col_ctors(m: Seq<RowView>, j: int) -> Seq<CtorView>
    decreases m.len(),
{
    if m.len() == 0 {
        seq![]
    } else {
        col_ctors(m.drop_last(), j) + (if 0 <= j < m.last().pats.len() {
            head_ctors(m.last().pats[j])
        } else {
            seq![]
        })
    }
}

/// The distinct head constructors of column `j`, in order of first appearance.
pub open spec fn heads(m: Seq<RowView>, j: int) -> Seq<CtorView> {
    add_new(seq![], col_ctors(m, j))
}

/// Whether a set of distinct constructors covers its type: it is not empty,
/// and its size is the span of its first element.
pub open spec fn complete(sigma: Seq<CtorView>) -> bool {
    sigma.len() > 0 && sigma.len() == sigma[0].span
}

pub open spec fn is_wild(p: PatView) -> bool {
    p is Wild
}

/// Whether every pattern of a row is a wildcard.
pub open spec fn all_wild(ps: Seq<PatView>) -> bool {
    forall|k: int| 0 <= k < ps.len() ==> is_wild(#[trigger] ps[k])
}

/// Whether column `j` holds a pattern other than a wildcard.
pub open spec fn col_has_con(m: Seq<RowView>, j: int) -> bool {
    exists|r: int| 0 <= r < m.len() && j < m[r].pats.len() && !is_wild(#[trigger] m[r].pats[j])
}

/// The number of columns: the length of the longest row.
pub open spec fn width(m: Seq<RowView>) -> nat
    decreases m.len(),
{
    if m.len() == 0 {
        0
    } else {
        let w = width(m.drop_last());
        if m.last().pats.len() > w {
            m.last().pats.len()
        } else {
            w
        }
    }
}

/// The columns from `j` on that hold a pattern other than a wildcard, in
/// ascending order.
pub open spec fn con_cols(m: Seq<RowView>, j: nat) -> Seq<nat>
    decreases width(m) - j,
{
    if j >= width(m) {
        seq![]
    } else if col_has_con(m, j as int) {
        seq![j] + con_cols(m, j + 1)
    } else {
        con_cols(m, j + 1)
    }
}

/// The patterns of a row with columns `0` and `i` exchanged.
pub open spec fn swap_pats(ps: Seq<PatView>, i: int) -> Seq<PatView> {
    if 0 < i < ps.len() {
        ps.update(0, ps[i]).update(i, ps[0])
    } else {
        ps
    }
}

/// The matrix with columns `0` and `i` exchanged in every row.
pub open spec fn swap_cols(m: Seq<RowView>, i: int) -> Seq<RowView> {
    m.map(|k: int, r: RowView| RowView { pats: swap_pats(r.pats, i), action: r.action })
}

/// A row of a pattern matrix: one pattern per column, and the action of the
/// clause it stands for.
#[derive(Debug, PartialEq)]
pub struct Row(Vec<Pattern>, usize);

/// A pattern matrix: rows in order of priority.
#[derive(Debug, PartialEq)]
pub struct PatternMatrix {
    columns: Vec<Row>,
}

impl View for Row {
    type V = RowView;

    closed spec fn view(&self) -> RowView {
        RowView { pats: pats_model(self.0@), action: self.1 }
    }
}

/// The models of a sequence of rows.
pub open spec fn rows_model(rows: Seq<Row>) -> Seq<RowView> {
    rows.map(|i: int, r: Row| r@)
}

impl View for PatternMatrix {
    type V = Seq<RowView>;

    closed spec fn view(&self) -> Seq<RowView> {
        rows_model(self.columns@)
    }
}

/// As many wildcards as `con` carries sub-patterns.
pub(crate) fn wildcards(con: &Constructor) -> (r: Vec<Pattern>)
    ensures
        pats_model(r@) == wilds(arity_of(con@)),
{
    let mut pats: Vec<Pattern> = Vec::new();
    let mut k: i32 = 0;
    while k < con.arity
        invariant
            0 <= k,
            k <= con.arity || k == 0,
            pats_model(pats@) == wilds(k as nat),
        decreases con.arity - k,
    {
        let ghost before = pats@;
        pats.push(Pattern::WildCard);
        proof {
            assert(pats_model(pats@) =~= pats_model(before).push(PatView::Wild));
            assert(wilds((k + 1) as nat) =~= wilds(k as nat).push(PatView::Wild));
        }
        k += 1;
    }
    assert(k as nat == arity_of(con@));
    pats
}

/// Appends copies of `src[from..]` to `into`.
pub(crate) fn copy_from(src: &Vec<Pattern>, from: usize, into: &mut Vec<Pattern>)
    requires
        from <= src.len(),
    ensures
        pats_model(final(into)@) == pats_model(old(into)@) + pats_model(src@).subrange(
            from as int,
            src.len() as int,
        ),
{
    let mut k = from;
    while k < src.len()
        invariant
            from <= k <= src.len(),
            pats_model(into@) == pats_model(old(into)@) + pats_model(src@).subrange(
                from as int,
                k as int,
            ),
        decreases src.len() - k,
    {
        let p = src[k].deep_copy();
        let ghost before = into@;
        into.push(p);
        proof {
            assert(pats_model(into@) =~= pats_model(before).push(p@));
            assert(pats_model(src@).subrange(from as int, k + 1) =~= pats_model(src@).subrange(
                from as int,
                k as int,
            ).push(src@[k as int]@));
        }
        k += 1;
    }
}

impl Row {
    pub fn new(pats: Vec<Pattern>, action: usize) -> (r: Self)
        ensures
            r@ == (RowView { pats: pats_model(pats@), action }),
    {
        Row(pats, action)
    }

    /// Appends a column.
    pub fn add(&mut self, pat: Pattern)
        ensures
            final(self)@ == (RowView { pats: old(self)@.pats.push(pat@), action: old(self)@.action }),
    {
        self.0.push(pat);
        proof {
            assert(pats_model(self.0@) =~= pats_model(old(self).0@).push(pat@));
        }
    }

    pub fn size(&self) -> (r: usize)
        ensures
            r == self@.pats.len(),
    {
        self.0.len()
    }

    pub fn is_empty(&self) -> (r: bool)
        ensures
            r == (self@.pats.len() == 0),
    {
        self.0.len() == 0
    }

    pub fn action(&self) -> (r: usize)
        ensures
            r == self@.action,
    {
        self.1
    }

    pub fn contains_wcard_only(&self) -> (r: bool)
        ensures
            r == all_wild(self@.pats),
    {
        let mut k: usize = 0;
        while k < self.0.len()
            invariant
                k <= self.0.len(),
                forall|j: int| 0 <= j < k ==> is_wild(#[trigger] self@.pats[j]),
            decreases self.0.len() - k,
        {
            match &self.0[k] {
                Pattern::WildCard => {},
                Pattern::Con(c, args) => {
                    proof {
                        lemma_con_model(*c, *args);
                        assert(!is_wild(self@.pats[k as int]));
                    }
                    return false;
                },
                Pattern::Or(_, _) => {
                    assert(!is_wild(self@.pats[k as int]));
                    return false;
                },
            }
            k += 1;
        }
        true
    }

    /// Whether the first pattern is built with `con`.
    pub fn head_is(&self, con: &Constructor) -> (r: bool)
        ensures
            r == (self@.pats.len() > 0 && self@.pats[0] is Con && self@.pats[0]->Con_0 == con@),
    {
        if self.0.len() == 0 {
            false
        } else {
            match &self.0[0] {
                Pattern::Con(c, args) => {
                    proof {
                        lemma_con_model(*c, *args);
                    }
                    c.same(con)
                },
                _ => false,
            }
        }
    }

    pub fn head_is_con(&self) -> (r: bool)
        ensures
            r == (self@.pats.len() > 0 && self@.pats[0] is Con),
    {
        if self.0.len() == 0 {
            false
        } else {
            match &self.0[0] {
                Pattern::Con(c, args) => {
                    proof {
                        lemma_con_model(*c, *args);
                    }
                    true
                },
                _ => false,
            }
        }
    }

    pub fn head_is_wcard(&self) -> (r: bool)
        ensures
            r == (self@.pats.len() > 0 && self@.pats[0] is Wild),
    {
        if self.0.len() == 0 {
            false
        } else {
            match &self.0[0] {
                Pattern::WildCard => true,
                Pattern::Con(c, args) => {
                    proof {
                        lemma_con_model(*c, *args);
                    }
                    false
                },
                _ => false,
            }
        }
    }

    pub fn head_is_or(&self) -> (r: bool)
        ensures
            r == (self@.pats.len() > 0 && self@.pats[0] is Or),
    {
        if self.0.len() == 0 {
            false
        } else {
            match &self.0[0] {
                Pattern::Or(_, _) => true,
                Pattern::Con(c, args) => {
                    proof {
                        lemma_con_model(*c, *args);
                    }
                    false
                },
                _ => false,
            }
        }
    }

    pub fn deep_copy(&self) -> (r: Row)
        ensures
            r@ == self@,
    {
        let mut pats: Vec<Pattern> = Vec::new();
        copy_from(&self.0, 0, &mut pats);
        proof {
            assert(pats_model(self.0@).subrange(0, self.0@.len() as int) =~= pats_model(self.0@));
            assert(pats_model(pats@) =~= pats_model(self.0@));
        }
        Row(pats, self.1)
    }

    /// The pattern in column `k`.
    pub fn pattern(&self, k: usize) -> (r: &Pattern)
        requires
            k < self@.pats.len(),
        ensures
            r@ == self@.pats[k as int],
    {
        &self.0[k]
    }

    /// The patterns of the row.
    pub fn patterns(self) -> (r: Vec<Pattern>)
        ensures
            pats_model(r@) == self@.pats,
    {
        self.0
    }

    /// A copy with columns `0` and `index` exchanged.
    pub fn swapped(&self, index: usize) -> (r: Row)
        ensures
            r@ == (RowView { pats: swap_pats(self@.pats, index as int), action: self@.action }),
    {
        let n = self.0.len();
        let mut pats: Vec<Pattern> = Vec::new();
        let mut k: usize = 0;
        while k < n
            invariant
                n == self.0.len(),
                k <= n,
                pats@.len() == k,
                forall|j: int| 0 <= j < k ==> (#[trigger] pats@[j])@ == swap_pats(self@.pats, index as int)[j],
            decreases n - k,
        {
            let src = if 0 < index && index < n && k == 0 {
                index
            } else if 0 < index && index < n && k == index {
                0
            } else {
                k
            };
            let p = self.0[src].deep_copy();
            pats.push(p);
            k += 1;
        }
        proof {
            assert(pats_model(pats@) =~= swap_pats(self@.pats, index as int));
        }
        Row(pats, self.1)
    }
}

/// Appends to `out` the rows that a row with first pattern `head` (a part of
/// the first pattern of `row`) yields under `con`.
fn specialize_into(head: &Pattern, row: &Row, con: &Constructor, out: &mut Vec<Row>)
    requires
        row@.pats.len() > 0,
    ensures
        rows_model(final(out)@) == rows_model(old(out)@) + specialize_pat(
            head@,
            row@.pats.drop_first(),
            row@.action,
            con@,
        ),
    decreases head,
{
    let ghost tail = row@.pats.drop_first();
    match head {
        Pattern::Con(c, args) => {
            proof {
                lemma_con_model(*c, *args);
            }
            if c.same(con) {
                let mut pats: Vec<Pattern> = Vec::new();
                copy_from(args, 0, &mut pats);
                copy_from(&row.0, 1, &mut pats);
                proof {
                    assert(pats_model(args@).subrange(0, args@.len() as int) =~= pats_model(args@));
                    assert(pats_model(row.0@).subrange(1, row.0@.len() as int) =~= tail);
                }
                out.push(Row(pats, row.1));
                proof {
                    assert(rows_model(out@) =~= rows_model(old(out)@) + specialize_pat(
                        head@,
                        tail,
                        row@.action,
                        con@,
                    ));
                }
            } else {
                assert(rows_model(out@) =~= rows_model(old(out)@) + specialize_pat(
                    head@,
                    tail,
                    row@.action,
                    con@,
                ));
            }
        },
        Pattern::WildCard => {
            let mut pats = wildcards(con);
            copy_from(&row.0, 1, &mut pats);
            proof {
                assert(pats_model(row.0@).subrange(1, row.0@.len() as int) =~= tail);
            }
            out.push(Row(pats, row.1));
            proof {
                assert(rows_model(out@) =~= rows_model(old(out)@) + specialize_pat(
                    head@,
                    tail,
                    row@.action,
                    con@,
                ));
            }
        },
        Pattern::Or(l, r) => {
            specialize_into(l, row, con, out);
            specialize_into(r, row, con, out);
            proof {
                assert(rows_model(out@) =~= rows_model(old(out)@) + specialize_pat(
                    head@,
                    tail,
                    row@.action,
                    con@,
                ));
            }
        },
    }
}

/// Appends to `out` the rows that a row with first pattern `head` (a part of
/// the first pattern of `row`) yields in the default matrix.
fn default_into(head: &Pattern, row: &Row, out: &mut Vec<Row>)
    requires
        row@.pats.len() > 0,
    ensures
        rows_model(final(out)@) == rows_model(old(out)@) + default_pat(
            head@,
            row@.pats.drop_first(),
            row@.action,
        ),
    decreases head,
{
    let ghost tail = row@.pats.drop_first();
    match head {
        Pattern::Con(c, args) => {
            proof {
                lemma_con_model(*c, *args);
            }
            assert(rows_model(out@) =~= rows_model(old(out)@) + default_pat(
                head@,
                tail,
                row@.action,
            ));
        },
        Pattern::WildCard => {
            let mut pats: Vec<Pattern> = Vec::new();
            copy_from(&row.0, 1, &mut pats);
            proof {
                assert(pats_model(row.0@).subrange(1, row.0@.len() as int) =~= tail);
                assert(pats_model(pats@) =~= tail);
            }
            out.push(Row(pats, row.1));
            proof {
                assert(rows_model(out@) =~= rows_model(old(out)@) + default_pat(
                    head@,
                    tail,
                    row@.action,
                ));
            }
        },
        Pattern::Or(l, r) => {
            default_into(l, row, out);
            default_into(r, row, out);
            proof {
                assert(rows_model(out@) =~= rows_model(old(out)@) + default_pat(
                    head@,
                    tail,
                    row@.action,
                ));
            }
        },
    }
}

impl PatternMatrix {
    pub fn new() -> (r: Self)
        ensures
            r@ == Seq::<RowView>::empty(),
    {
        let r = PatternMatrix { columns: Vec::new() };
        assert(r@ =~= Seq::<RowView>::empty());
        r
    }

    pub fn add_row(&mut self, row: Row)
        ensures
            final(self)@ == old(self)@.push(row@),
    {
        self.columns.push(row);
        assert(self@ =~= old(self)@.push(row@));
    }

    pub fn get(&self, index: usize) -> (r: &Row)
        requires
            index < self@.len(),
        ensures
            r@ == self@[index as int],
    {
        &self.columns[index]
    }

    /// Appends the rows of `matrix`.
    pub fn concat(&mut self, matrix: PatternMatrix)
        ensures
            final(self)@ == old(self)@ + matrix@,
    {
        let mut other = matrix.columns;
        self.columns.append(&mut other);
        assert(self@ =~= old(self)@ + matrix@);
    }

    /// The number of rows.
    pub fn rows_len(&self) -> (r: usize)
        ensures
            r == self@.len(),
    {
        self.columns.len()
    }

    pub fn is_empty(&self) -> (r: bool)
        ensures
            r == (self@.len() == 0),
    {
        self.columns.len() == 0
    }

    pub fn deep_copy(&self) -> (r: PatternMatrix)
        ensures
            r@ == self@,
    {
        let mut rows: Vec<Row> = Vec::new();
        let mut i: usize = 0;
        while i < self.columns.len()
            invariant
                i <= self.columns.len(),
                rows_model(rows@) == self@.subrange(0, i as int),
            decreases self.columns.len() - i,
        {
            let r = self.columns[i].deep_copy();
            let ghost before = rows@;
            rows.push(r);
            assert(rows_model(rows@) =~= rows_model(before).push(r@));
            assert(self@[i as int] == self.columns@[i as int]@);
            assert(rows_model(rows@) =~= self@.subrange(0, i + 1));
            i += 1;
        }
        assert(self@.subrange(0, i as int) =~= self@);
        PatternMatrix { columns: rows }
    }

    /// Exchanges column `index` with column `0` in every row that has it.
    pub fn swap(&mut self, index: usize)
        ensures
            final(self)@ == swap_cols(old(self)@, index as int),
    {
        let mut rows: Vec<Row> = Vec::new();
        let mut i: usize = 0;
        while i < self.columns.len()
            invariant
                i <= self.columns.len(),
                *self == *old(self),
                rows_model(rows@) == swap_cols(self@, index as int).subrange(0, i as int),
            decreases self.columns.len() - i,
        {
            let r = self.columns[i].swapped(index);
            let ghost before = rows@;
            rows.push(r);
            assert(rows_model(rows@) =~= rows_model(before).push(r@));
            assert(self@[i as int] == self.columns@[i as int]@);
            assert(rows_model(rows@) =~= swap_cols(self@, index as int).subrange(0, i + 1));
            i += 1;
        }
        assert(swap_cols(self@, index as int).subrange(0, i as int) =~= swap_cols(
            self@,
            index as int,
        ));
        self.columns = rows;
    }

    /// The number of columns: the length of the longest row.
    fn width(&self) -> (r: usize)
        ensures
            r == width(self@),
    {
        let mut w: usize = 0;
        let mut i: usize = 0;
        while i < self.columns.len()
            invariant
                i <= self.columns.len(),
                w == width(self@.subrange(0, i as int)),
            decreases self.columns.len() - i,
        {
            assert(self@.subrange(0, i + 1).drop_last() =~= self@.subrange(0, i as int));
            if self.columns[i].0.len() > w {
                w = self.columns[i].0.len();
            }
            i += 1;
        }
        assert(self@.subrange(0, i as int) =~= self@);
        w
    }

    /// Whether column `j` holds a pattern other than a wildcard.
    fn col_has_con(&self, j: usize) -> (r: bool)
        ensures
            r == col_has_con(self@, j as int),
    {
        let mut i: usize = 0;
        while i < self.columns.len()
            invariant
                i <= self.columns.len(),
                forall|k: int|
                    0 <= k < i ==> !(j < self@[k].pats.len() && !is_wild(
                        #[trigger] self@[k].pats[j as int],
                    )),
            decreases self.columns.len() - i,
        {
            let row = &self.columns[i];
            if j < row.0.len() {
                match &row.0[j] {
                    Pattern::WildCard => {},
                    Pattern::Con(c, args) => {
                        proof {
                            lemma_con_model(*c, *args);
                            assert(!is_wild(self@[i as int].pats[j as int]));
                        }
                        return true;
                    },
                    Pattern::Or(_, _) => {
                        assert(!is_wild(self@[i as int].pats[j as int]));
                        return true;
                    },
                }
            }
            i += 1;
        }
        false
    }

    /// The columns that hold at least one pattern other than a wildcard, in
    /// ascending order.
    pub fn cols_with_wcard(&self) -> (r: Vec<usize>)
        ensures
            r@.map(|i: int, x: usize| x as nat) == con_cols(self@, 0),
    {
        let w = self.width();
        let mut out: Vec<usize> = Vec::new();
        let mut j: usize = 0;
        while j < w
            invariant
                w == width(self@),
                j <= w,
                out@.map(|i: int, x: usize| x as nat) + con_cols(self@, j as nat) == con_cols(
                    self@,
                    0,
                ),
            decreases w - j,
        {
            let ghost before = out@;
            if self.col_has_con(j) {
                out.push(j);
                assert(out@.map(|i: int, x: usize| x as nat) =~= before.map(
                    |i: int, x: usize| x as nat,
                ).push(j as nat));
                assert(seq![j as nat] + con_cols(self@, (j + 1) as nat) == con_cols(
                    self@,
                    j as nat,
                ));
                assert(before.map(|i: int, x: usize| x as nat).push(j as nat) + con_cols(
                    self@,
                    (j + 1) as nat,
                ) =~= before.map(|i: int, x: usize| x as nat) + (seq![j as nat] + con_cols(
                    self@,
                    (j + 1) as nat,
                )));
            }
            j += 1;
        }
        assert(con_cols(self@, j as nat) == Seq::<nat>::empty());
        assert(out@.map(|i: int, x: usize| x as nat) + Seq::<nat>::empty() =~= out@.map(
            |i: int, x: usize| x as nat,
        ));
        out
    }

    /// The distinct head constructors of column `index`, in order of first
    /// appearance; or-patterns give those of both their sides.
    pub fn head_cons(&self, index: usize) -> (r: Vec<Constructor>)
        ensures
            crate::pattern::ctors_model(r@) == heads(self@, index as int),
            crate::pattern::distinct(crate::pattern::ctors_model(r@)),
    {
        let mut acc: Vec<Constructor> = Vec::new();
        assert(crate::pattern::ctors_model(acc@) =~= seq![]);
        let mut i: usize = 0;
        while i < self.columns.len()
            invariant
                i <= self.columns.len(),
                crate::pattern::ctors_model(acc@) == add_new(
                    seq![],
                    col_ctors(self@.subrange(0, i as int), index as int),
                ),
            decreases self.columns.len() - i,
        {
            let ghost before = crate::pattern::ctors_model(acc@);
            let ghost m = self@.subrange(0, i + 1);
            assert(m.drop_last() =~= self@.subrange(0, i as int));
            let row = &self.columns[i];
            if index < row.0.len() {
                row.0[index].push_heads(&mut acc);
            }
            proof {
                let here = if 0 <= index < m.last().pats.len() {
                    head_ctors(m.last().pats[index as int])
                } else {
                    seq![]
                };
                crate::pattern::lemma_add_new_concat(
                    seq![],
                    col_ctors(self@.subrange(0, i as int), index as int),
                    here,
                );
                if !(index < row.0.len()) {
                    assert(here.len() == 0);
                    assert(add_new(before, here) == before);
                }
            }
            i += 1;
        }
        assert(self@.subrange(0, i as int) =~= self@);
        proof {
            crate::pattern::lemma_add_new_distinct(seq![], col_ctors(self@, index as int));
        }
        acc
    }

    /// The specialized matrix for `con`: every row in order, a row whose first
    /// pattern is built with `con` with that pattern replaced by its
    /// arguments, a row with a wildcard first with the wildcard replaced by as
    /// many wildcards as `con` carries, a row with an or-pattern first split
    /// into its two sides, left then right, and a row with another
    /// constructor first dropped.
    pub fn specialization(&self, con: &Constructor) -> (r: PatternMatrix)
        ensures
            r@ == specialize(self@, con@),
    {
        let mut out: Vec<Row> = Vec::new();
        assert(rows_model(out@) =~= seq![]);
        let mut i: usize = 0;
        while i < self.columns.len()
            invariant
                i <= self.columns.len(),
                rows_model(out@) == specialize(self@.subrange(0, i as int), con@),
            decreases self.columns.len() - i,
        {
            let ghost m = self@.subrange(0, i + 1);
            assert(m.drop_last() =~= self@.subrange(0, i as int));
            let row = &self.columns[i];
            if row.0.len() > 0 {
                specialize_into(&row.0[0], row, con, &mut out);
            } else {
                assert(specialize_row(m.last(), con@) =~= seq![]);
                assert(rows_model(out@) =~= specialize(self@.subrange(0, i as int), con@)
                    + specialize_row(m.last(), con@));
            }
            i += 1;
        }
        assert(self@.subrange(0, i as int) =~= self@);
        PatternMatrix { columns: out }
    }

    /// The default matrix: every row in order, a row whose first pattern is a
    /// wildcard without that column, a row with an or-pattern first split into
    /// its two sides, left then right, and a row with a constructor first
    /// dropped.
    pub fn default(&self) -> (r: PatternMatrix)
        ensures
            r@ == default_matrix(self@),
    {
        let mut out: Vec<Row> = Vec::new();
        assert(rows_model(out@) =~= seq![]);
        let mut i: usize = 0;
        while i < self.columns.len()
            invariant
                i <= self.columns.len(),
                rows_model(out@) == default_matrix(self@.subrange(0, i as int)),
            decreases self.columns.len() - i,
        {
            let ghost m = self@.subrange(0, i + 1);
            assert(m.drop_last() =~= self@.subrange(0, i as int));
            let row = &self.columns[i];
            if row.0.len() > 0 {
                default_into(&row.0[0], row, &mut out);
            } else {
                assert(default_row(m.last()) =~= seq![]);
                assert(rows_model(out@) =~= default_matrix(self@.subrange(0, i as int))
                    + default_row(m.last()));
            }
            i += 1;
        }
        assert(self@.subrange(0, i as int) =~= self@);
        PatternMatrix { columns: out }
    }
}

impl Row {
    /// Appends the line of this row.
    pub fn render_into(&self, out: &mut String)
        ensures
            final(out)@ == old(out)@ + row_text(self@),
    {
        proof {
            reveal_strlit("(");
            reveal_strlit("  ");
            reveal_strlit("-> ");
            reveal_strlit(")\n");
        }
        out.append("(");
        let ghost start = out@;
        let ghost ps = self@.pats;
        let mut k: usize = 0;
        assert(ps.subrange(0, 0) =~= Seq::<PatView>::empty());
        while k < self.0.len()
            invariant
                ps == self@.pats,
                k <= self.0.len(),
                out@ == start + cells_text(ps.subrange(0, k as int)),
            decreases self.0.len() - k,
        {
            let ghost before = out@;
            proof {
                reveal_strlit("  ");
            }
            out.append("  ");
            self.0[k].render_into(out);
            out.append("  ");
            proof {
                let sub = ps.subrange(0, k + 1);
                assert(sub.drop_last() =~= ps.subrange(0, k as int));
                assert(sub.last() == self.0@[k as int]@);
                assert(out@ =~= start + cells_text(sub));
            }
            k += 1;
        }
        assert(ps.subrange(0, k as int) =~= ps);
        out.append("-> ");
        push_nat(out, self.1);
        out.append(")\n");
        assert(out@ =~= old(out)@ + row_text(self@));
    }
}

impl PatternMatrix {
    /// The text of this matrix: one line per row, in order.
    pub fn render(&self) -> (r: String)
        ensures
            r@ == matrix_text(self@),
    {
        let mut out = String::new();
        let mut i: usize = 0;
        assert(self@.subrange(0, 0) =~= Seq::<RowView>::empty());
        while i < self.columns.len()
            invariant
                i <= self.columns.len(),
                out@ == matrix_text(self@.subrange(0, i as int)),
            decreases self.columns.len() - i,
        {
            self.columns[i].render_into(&mut out);
            proof {
                let sub = self@.subrange(0, i + 1);
                assert(sub.drop_last() =~= self@.subrange(0, i as int));
            }
            i += 1;
        }
        assert(self@.subrange(0, i as int) =~= self@);
        out
    }
}

} // verus!
