use vstd::prelude::*;
use crate::laws::{all_true, wf_flags, wf_pat};
use crate::matrix::{PatternMatrix, RowView};
use crate::pattern::{lemma_con_model, pats_model, Constructor, CtorView, PatView, Pattern};

verus! {

/// Why a pattern matrix is malformed.
#[derive(Debug, Clone, Copy, PartialEq, Eq, Structural)]
pub enum MatrixError {
    /// Two rows have different numbers of columns.
    RaggedRows,
    /// A constructor carries a number of sub-patterns other than its arity.
    ArityMismatch,
    /// Two constructors share a name but differ in arity or span.
    ConflictingConstructors,
}

/// Every row has as many columns as the first.
pub open spec fn uniform(m: Seq<RowView>) -> bool {
    forall|r: int| 0 <= r < m.len() ==> (#[trigger] m[r]).pats.len() == m[0].pats.len()
}

/// Every pattern of every row is well-formed.
pub open spec fn all_wf(m: Seq<RowView>) -> bool {
    forall|r: int, k: int|
        0 <= r < m.len() && 0 <= k < m[r].pats.len() ==> #[trigger] wf_pat(m[r].pats[k])
}

/// The constructors of a pattern, in pre-order.
pub open spec fn ctors_of(p: PatView) -> Seq<CtorView>
    decreases p,
{
    match p {
        PatView::Con(c, args) => seq![c] + ctors_list(args),
        PatView::Wild => seq![],
        PatView::Or(l, r) => ctors_of(*l) + ctors_of(*r),
    }
}

/// The constructors of a sequence of patterns, in order.
pub open spec fn ctors_list(ps: Seq<PatView>) -> Seq<CtorView>
    decreases ps,
{
    if ps.len() == 0 {
        seq![]
    } else {
        ctors_list(ps.subrange(0, ps.len() - 1)) + ctors_of(ps[ps.len() - 1])
    }
}

/// The constructors of a matrix, row after row.
pub open spec fn mat_ctors(m: Seq<RowView>) -> Seq<CtorView>
    decreases m.len(),
{
    if m.len() == 0 {
        seq![]
    } else {
        mat_ctors(m.drop_last()) + ctors_list(m.last().pats)
    }
}

/// Constructors with the same name are the same constructor.
pub open spec fn consistent(s: Seq<CtorView>) -> bool {
    forall|i: int, j: int|
        0 <= i < s.len() && 0 <= j < s.len() && (#[trigger] s[i]).name == (#[trigger] s[j]).name
            ==> s[i] == s[j]
}

/// What checking a matrix gives: the first problem among ragged rows, a
/// constructor with the wrong number of sub-patterns and conflicting
/// constructors, or none.
pub open spec fn check_result(m: Seq<RowView>) -> Result<(), MatrixError> {
    if !uniform(m) {
        Err(MatrixError::RaggedRows)
    } else if !all_wf(m) {
        Err(MatrixError::ArityMismatch)
    } else if !consistent(mat_ctors(m)) {
        Err(MatrixError::ConflictingConstructors)
    } else {
        Ok(())
    }
}

impl Pattern {
    /// Whether every constructor in this pattern carries as many sub-patterns
    /// as its arity says.
    pub fn is_well_formed(&self) -> (r: bool)
        ensures
            r == wf_pat(self@),
        decreases self,
    {
        match self {
            Pattern::WildCard => true,
            Pattern::Or(l, r) => {
                let a = l.is_well_formed();
                let b = r.is_well_formed();
                a && b
            },
            Pattern::Con(c, args) => {
                proof {
                    lemma_con_model(*c, *args);
                }
                let ghost ps = pats_model(args@);
                if c.arity < 0 || c.arity as usize != args.len() {
                    return false;
                }
                let mut k: usize = 0;
                assert(wf_flags(ps).subrange(0, 0) =~= Seq::<bool>::empty());
                while k < args.len()
                    invariant
                        *self == Pattern::Con(*c, *args),
                        self@ == PatView::Con(c@, ps),
                        c.arity as int == args.len(),
                        ps == pats_model(args@),
                        k <= args.len(),
                        all_true(wf_flags(ps).subrange(0, k as int)),
                    decreases args.len() - k,
                {
                    proof {
                        assert(decreases_to!(*self => (*self)->Con_1));
                        assert(decreases_to!(*args => args@));
                        assert(decreases_to!(args@ => args@[k as int]));
                    }
                    let ok = args[k].is_well_formed();
                    let ghost f = wf_flags(ps);
                    assert(f[k as int] == wf_pat(ps[k as int]));
                    if !ok {
                        proof {
                            lemma_not_all_true_at(f, k as int);
                        }
                        return false;
                    }
                    proof {
                        let sub = f.subrange(0, k + 1);
                        assert(sub.drop_last() =~= f.subrange(0, k as int));
                    }
                    k += 1;
                }
                assert(wf_flags(ps).subrange(0, k as int) =~= wf_flags(ps));
                true
            },
        }
    }

    /// Appends the constructors of this pattern, in pre-order.
    fn push_ctors(&self, acc: &mut Vec<Constructor>)
        ensures
            crate::pattern::ctors_model(final(acc)@) == crate::pattern::ctors_model(old(acc)@)
                + ctors_of(self@),
        decreases self,
    {
        match self {
            Pattern::WildCard => {
                assert(crate::pattern::ctors_model(acc@) =~= crate::pattern::ctors_model(
                    old(acc)@,
                ) + ctors_of(self@));
            },
            Pattern::Or(l, r) => {
                l.push_ctors(acc);
                r.push_ctors(acc);
                assert(crate::pattern::ctors_model(acc@) =~= crate::pattern::ctors_model(
                    old(acc)@,
                ) + ctors_of(self@));
            },
            Pattern::Con(c, args) => {
                proof {
                    lemma_con_model(*c, *args);
                }
                let ghost ps = pats_model(args@);
                acc.push(c.deep_copy());
                let ghost start = crate::pattern::ctors_model(acc@);
                assert(start =~= crate::pattern::ctors_model(old(acc)@) + seq![c@]);
                let mut k: usize = 0;
                assert(ps.subrange(0, 0) =~= Seq::<PatView>::empty());
                assert(start + ctors_list(ps.subrange(0, 0)) =~= start);
                while k < args.len()
                    invariant
                        *self == Pattern::Con(*c, *args),
                        ps == pats_model(args@),
                        k <= args.len(),
                        crate::pattern::ctors_model(acc@) == start + ctors_list(
                            ps.subrange(0, k as int),
                        ),
                    decreases args.len() - k,
                {
                    proof {
                        assert(decreases_to!(*self => (*self)->Con_1));
                        assert(decreases_to!(*args => args@));
                        assert(decreases_to!(args@ => args@[k as int]));
                    }
                    args[k].push_ctors(acc);
                    proof {
                        let sub = ps.subrange(0, k + 1);
                        assert(sub.subrange(0, sub.len() - 1) =~= ps.subrange(0, k as int));
                        assert(sub[sub.len() - 1] == args@[k as int]@);
                        assert(crate::pattern::ctors_model(acc@) =~= start + ctors_list(sub));
                    }
                    k += 1;
                }
                assert(ps.subrange(0, k as int) =~= ps);
                assert(crate::pattern::ctors_model(acc@) =~= crate::pattern::ctors_model(
                    old(acc)@,
                ) + ctors_of(self@));
            },
        }
    }
}

proof fn lemma_not_all_true_at(s: Seq<bool>, k: int)
    requires
        0 <= k < s.len(),
        !s[k],
    ensures
        !all_true(s),
    decreases s.len(),
{
    if k < s.len() - 1 {
        lemma_not_all_true_at(s.drop_last(), k);
    }
}

/// Whether constructors with the same name in `cs` are the same constructor.
fn consistent_exec(cs: &Vec<Constructor>) -> (r: bool)
    ensures
        r == consistent(crate::pattern::ctors_model(cs@)),
{
    let ghost s = crate::pattern::ctors_model(cs@);
    let mut i: usize = 0;
    while i < cs.len()
        invariant
            s == crate::pattern::ctors_model(cs@),
            i <= cs.len(),
            forall|a: int, b: int|
                0 <= a < i && 0 <= b < i && (#[trigger] s[a]).name == (#[trigger] s[b]).name
                    ==> s[a] == s[b],
        decreases cs.len() - i,
    {
        let mut j: usize = 0;
        while j < i
            invariant
                s == crate::pattern::ctors_model(cs@),
                j <= i < cs.len(),
                forall|a: int, b: int|
                    0 <= a < i && 0 <= b < i && (#[trigger] s[a]).name == (#[trigger] s[b]).name
                        ==> s[a] == s[b],
                forall|b: int| 0 <= b < j && s[i as int].name == (#[trigger] s[b]).name ==> s[i as int] == s[b],
            decreases i - j,
        {
            let same_name = cs[i].name == cs[j].name;
            if same_name && !cs[i].same(&cs[j]) {
                assert(s[i as int].name == s[j as int].name);
                return false;
            }
            j += 1;
        }
        i += 1;
    }
    true
}

impl PatternMatrix {
    /// Checks that the matrix is well-formed: its rows have equal length, its
    /// constructors carry as many sub-patterns as their arity says, and
    /// constructors that share a name share arity and span.
    pub fn validate(&self) -> (r: Result<(), MatrixError>)
        ensures
            r == check_result(self@),
    {
        let n = self.rows_len();
        if n > 0 {
            let w = self.get(0).size();
            let mut i: usize = 0;
            while i < n
                invariant
                    n == self@.len(),
                    n > 0,
                    w == self@[0].pats.len(),
                    i <= n,
                    forall|r: int| 0 <= r < i ==> (#[trigger] self@[r]).pats.len() == w,
                decreases n - i,
            {
                if self.get(i).size() != w {
                    return Err(MatrixError::RaggedRows);
                }
                i += 1;
            }
        }
        assert(uniform(self@));
        let mut i: usize = 0;
        while i < n
            invariant
                n == self@.len(),
                uniform(self@),
                i <= n,
                forall|r: int, k: int|
                    0 <= r < i && 0 <= k < self@[r].pats.len() ==> #[trigger] wf_pat(
                        self@[r].pats[k],
                    ),
            decreases n - i,
        {
            let row = self.get(i);
            let m = row.size();
            let mut k: usize = 0;
            while k < m
                invariant
                    n == self@.len(),
                    uniform(self@),
                    i < n,
                    row@ == self@[i as int],
                    m == row@.pats.len(),
                    k <= m,
                    forall|r: int, k: int|
                        0 <= r < i && 0 <= k < self@[r].pats.len() ==> #[trigger] wf_pat(
                            self@[r].pats[k],
                        ),
                    forall|j: int| 0 <= j < k ==> #[trigger] wf_pat(self@[i as int].pats[j]),
                decreases m - k,
            {
                if !row.pattern(k).is_well_formed() {
                    assert(!wf_pat(self@[i as int].pats[k as int]));
                    return Err(MatrixError::ArityMismatch);
                }
                k += 1;
            }
            i += 1;
        }
        let mut acc: Vec<Constructor> = Vec::new();
        let mut i: usize = 0;
        assert(self@.subrange(0, 0) =~= Seq::<RowView>::empty());
        assert(crate::pattern::ctors_model(acc@) =~= mat_ctors(self@.subrange(0, 0)));
        while i < n
            invariant
                n == self@.len(),
                uniform(self@),
                all_wf(self@),
                i <= n,
                crate::pattern::ctors_model(acc@) == mat_ctors(self@.subrange(0, i as int)),
            decreases n - i,
        {
            let row = self.get(i);
            let m = row.size();
            let ghost ps = row@.pats;
            let ghost start = crate::pattern::ctors_model(acc@);
            let mut k: usize = 0;
            assert(ps.subrange(0, 0) =~= Seq::<PatView>::empty());
            assert(start + ctors_list(ps.subrange(0, 0)) =~= start);
            while k < m
                invariant
                    ps == row@.pats,
                    m == ps.len(),
                    k <= m,
                    crate::pattern::ctors_model(acc@) == start + ctors_list(ps.subrange(0, k as int)),
                decreases m - k,
            {
                let p = row.pattern(k);
                p.push_ctors(&mut acc);
                proof {
                    let sub = ps.subrange(0, k + 1);
                    assert(sub.subrange(0, sub.len() - 1) =~= ps.subrange(0, k as int));
                    assert(crate::pattern::ctors_model(acc@) =~= start + ctors_list(sub));
                }
                k += 1;
            }
            proof {
                assert(ps.subrange(0, k as int) =~= ps);
                let sub = self@.subrange(0, i + 1);
                assert(sub.drop_last() =~= self@.subrange(0, i as int));
            }
            i += 1;
        }
        assert(self@.subrange(0, i as int) =~= self@);
        if !consistent_exec(&acc) {
            return Err(MatrixError::ConflictingConstructors);
        }
        Ok(())
    }
}

} // verus!
