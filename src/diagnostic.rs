//! Positions, ranges and the diagnostics that the linter reports.
use vstd::prelude::*;

verus! {

/// A zero-based line and column.
#[derive(Clone, Copy, Debug, PartialEq, Eq, Structural)]
pub struct Position {
    pub line_index: usize,
    pub column_index: usize,
}

/// A source range, from `start` to `end`.
#[derive(Clone, Copy, Debug, PartialEq, Eq, Structural)]
pub struct Range {
    pub start: Position,
    pub end: Position,
}

/// One finding: a code, a message, an optional hint, and where it is.
#[derive(Debug)]
pub struct LintDiagnostic {
    pub range: Range,
    pub filename: String,
    pub code: String,
    pub message: String,
    pub hint: Option<String>,
}

/// The plain value of a diagnostic.
pub ghost struct DiagnosticView {
    pub range: Range,
    pub filename: Seq<char>,
    pub code: Seq<char>,
    pub message: Seq<char>,
    pub hint: Option<Seq<char>>,
}

impl View for LintDiagnostic {
    type V = DiagnosticView;

    open spec fn view(&self) -> DiagnosticView {
        DiagnosticView {
            range: self.range,
            filename: self.filename@,
            code: self.code@,
            message: self.message@,
            hint: match self.hint {
                Some(h) => Some(h@),
                None => None,
            },
        }
    }
}

/// A sequence of diagnostics as the contracts see it.
pub type Reports = Seq<DiagnosticView>;

/// The views of a sequence of diagnostics.
pub open spec fn views(ds: Seq<LintDiagnostic>) -> Seq<DiagnosticView> {
    ds.map_values(|d: LintDiagnostic| d@)
}

impl LintDiagnostic {
    /// A copy with the same value.
    pub fn duplicate(&self) -> (r: LintDiagnostic)
        ensures
            r@ == self@,
    {
        let hint = match &self.hint {
            Some(h) => Some(h.clone()),
            None => None,
        };
        LintDiagnostic {
            range: self.range,
            filename: self.filename.clone(),
            code: self.code.clone(),
            message: self.message.clone(),
            hint,
        }
    }
}

pub open spec fn line_of(x: DiagnosticView) -> usize {
    x.range.start.line_index
}

/// Where `x` goes in `s`: after every element, except a run at the end that
/// starts on a later line than `x`.
pub open spec fn line_insert_pos(s: Seq<DiagnosticView>, x: DiagnosticView) -> int
    decreases s.len(),
{
    if s.len() == 0 {
        0
    } else if line_of(s.last()) > line_of(x) {
        line_insert_pos(s.drop_last(), x)
    } else {
        s.len() as int
    }
}

/// `s` sorted by start line; diagnostics on one line keep their order.
pub open spec fn sort_by_line(s: Seq<DiagnosticView>) -> Seq<DiagnosticView>
    decreases s.len(),
{
    if s.len() == 0 {
        Seq::empty()
    } else {
        let r = sort_by_line(s.drop_last());
        r.insert(line_insert_pos(r, s.last()), s.last())
    }
}

proof fn lemma_line_insert_pos(s: Seq<DiagnosticView>, x: DiagnosticView)
    ensures
        0 <= line_insert_pos(s, x) <= s.len(),
        forall|k: int|
            line_insert_pos(s, x) <= k < s.len() ==> line_of(x) < line_of(#[trigger] s[k]),
        line_insert_pos(s, x) > 0 ==> line_of(s[line_insert_pos(s, x) - 1]) <= line_of(x),
    decreases s.len(),
{
    if s.len() > 0 && line_of(s.last()) > line_of(x) {
        let q = s.drop_last();
        lemma_line_insert_pos(q, x);
        let p = line_insert_pos(q, x);
        assert forall|k: int| p <= k < s.len() implies line_of(x) < line_of(#[trigger] s[k]) by {
            if k < q.len() {
                assert(q[k] == s[k]);
            }
        }
        if p > 0 {
            assert(q[p - 1] == s[p - 1]);
        }
    }
}

/// The sorted list is in ascending order of start line.
pub proof fn lemma_sort_by_line_sorted(s: Seq<DiagnosticView>)
    ensures
        sort_by_line(s).len() == s.len(),
        forall|i: int, j: int|
            0 <= i < j < s.len() ==> line_of(#[trigger] sort_by_line(s)[i]) <= line_of(
                #[trigger] sort_by_line(s)[j],
            ),
    decreases s.len(),
{
    if s.len() > 0 {
        let x = s.last();
        let r = sort_by_line(s.drop_last());
        lemma_sort_by_line_sorted(s.drop_last());
        lemma_line_insert_pos(r, x);
        let p = line_insert_pos(r, x);
        let out = r.insert(p, x);
        assert forall|i: int, j: int| 0 <= i < j < out.len() implies line_of(out[i]) <= line_of(
            out[j],
        ) by {
            if j < p {
            } else if j == p {
                if i < p - 1 {
                    assert(line_of(r[i]) <= line_of(r[p - 1]));
                }
            } else if i < p {
                if i < p - 1 {
                    assert(line_of(r[i]) <= line_of(r[p - 1]));
                }
                assert(line_of(x) < line_of(r[j - 1]));
            } else if i == p {
                assert(line_of(x) < line_of(r[j - 1]));
            } else {
            }
        }
    }
}

/// Sorts diagnostics by start line, keeping the order of those on one line.
pub fn sort_diagnostics_by_line(ds: Vec<LintDiagnostic>) -> (r: Vec<LintDiagnostic>)
    ensures
        views(r@) == sort_by_line(views(ds@)),
{
    let ghost orig = views(ds@);
    let mut rest = ds;
    let mut out: Vec<LintDiagnostic> = Vec::new();
    let mut i: usize = 0;
    let n = rest.len();
    while i < n
        invariant
            i <= n,
            n == orig.len(),
            views(rest@) == orig.skip(i as int),
            rest@.len() == n - i,
            views(out@) == sort_by_line(orig.take(i as int)),
        decreases n - i,
    {
        let ghost before = rest@;
        assert(views(before)[0] == orig[i as int]);
        let x = rest.remove(0);
        assert forall|k: int| 0 <= k < rest@.len() implies views(rest@)[k] == orig.skip(
            i as int + 1,
        )[k] by {
            assert(rest@[k] == before[k + 1]);
            assert(views(before)[k + 1] == orig.skip(i as int)[k + 1]);
        }
        assert(views(rest@) =~= orig.skip(i as int + 1));
        let ghost sorted = views(out@);
        let mut j: usize = out.len();
        assert(sorted.take(j as int) == sorted);
        while j > 0 && out[j - 1].range.start.line_index > x.range.start.line_index
            invariant
                j <= out@.len(),
                sorted == views(out@),
                line_insert_pos(sorted, x@) == line_insert_pos(sorted.take(j as int), x@),
            decreases j,
        {
            assert(sorted.take(j as int).drop_last() == sorted.take(j as int - 1));
            j = j - 1;
        }
        proof {
            if j > 0 {
                assert(sorted.take(j as int).last() == sorted[j - 1]);
            }
            assert(sorted.take(0) == Seq::<DiagnosticView>::empty());
        }
        out.insert(j, x);
        assert(orig.take(i as int + 1).drop_last() == orig.take(i as int));
        assert(views(out@) =~= sorted.insert(j as int, x@));
        i = i + 1;
    }
    assert(orig.take(n as int) == orig);
    out
}

} // verus!
