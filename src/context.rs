//! The per-file context that rules report into, and the reconciliation of
//! what they reported with the file's ignore directives.
use vstd::prelude::*;
use crate::diagnostic::{views, DiagnosticView, LintDiagnostic, Range};
use crate::ignore_directives::{
    directive_views,
    parse_ignore_directives,
    spec_directives,
    DirectiveView,
    IgnoreDirective,
};
use crate::program::Program;

verus! {

/// Code of the diagnostic reported for a diagnostic whose code no rule has.
pub const UNKNOWN_RULE_CODE: &'static str = "ban-unknown-rule-code";

/// Code of the diagnostic reported for an ignore directive that suppressed
/// nothing.
pub const UNUSED_IGNORE_CODE: &'static str = "ban-unused-ignore";

pub open spec fn unknown_code() -> Seq<char> {
    UNKNOWN_RULE_CODE@
}

pub open spec fn unused_code() -> Seq<char> {
    UNUSED_IGNORE_CODE@
}

/// The working state of one file: its name, its ignore directives, and the
/// diagnostics reported so far.
pub struct Context {
    file_name: String,
    file_ignores: Vec<IgnoreDirective>,
    line_ignores: Vec<IgnoreDirective>,
    diagnostics: Vec<LintDiagnostic>,
}

pub ghost struct ContextView {
    pub file_name: Seq<char>,
    pub file_ignores: Seq<DirectiveView>,
    pub line_ignores: Seq<DirectiveView>,
    pub diagnostics: Seq<DiagnosticView>,
}

impl View for Context {
    type V = ContextView;

    closed spec fn view(&self) -> ContextView {
        ContextView {
            file_name: self.file_name@,
            file_ignores: directive_views(self.file_ignores@),
            line_ignores: directive_views(self.line_ignores@),
            diagnostics: views(self.diagnostics@),
        }
    }
}

/// `d` covers `x`: it names `x`'s code or no code, and, unless it is a file
/// directive, `x` starts on the line after it.
pub open spec fn covers(d: DirectiveView, file_level: bool, x: DiagnosticView) -> bool {
    &&& d.covers_code(x.code)
    &&& file_level || x.range.start.line_index == d.range.start.line_index + 1
}

pub open spec fn covered_by_any(ds: Seq<DirectiveView>, file_level: bool, x: DiagnosticView) -> bool {
    exists|i: int| 0 <= i < ds.len() && covers(#[trigger] ds[i], file_level, x)
}

pub open spec fn is_suppressed(c: ContextView, x: DiagnosticView) -> bool {
    covered_by_any(c.file_ignores, true, x) || covered_by_any(c.line_ignores, false, x)
}

/// The diagnostics of `xs` that no directive of `c` covers, in order.
pub open spec fn survivors(c: ContextView, xs: Seq<DiagnosticView>) -> Seq<DiagnosticView>
    decreases xs.len(),
{
    if xs.len() == 0 {
        Seq::empty()
    } else {
        let r = survivors(c, xs.drop_last());
        if is_suppressed(c, xs.last()) {
            r
        } else {
            r.push(xs.last())
        }
    }
}

/// `code` is a rule's code or one of the two reserved codes.
pub open spec fn is_known(known: Seq<Seq<char>>, code: Seq<char>) -> bool {
    known.contains(code) || code == unknown_code() || code == unused_code()
}

pub open spec fn unknown_message(code: Seq<char>) -> Seq<char> {
    "Unknown rule for code \""@ + code + "\""@
}

/// The diagnostic reported at `x` for its unknown code.
pub open spec fn unknown_diagnostic(x: DiagnosticView) -> DiagnosticView {
    DiagnosticView {
        range: x.range,
        filename: x.filename,
        code: unknown_code(),
        message: unknown_message(x.code),
        hint: None,
    }
}

/// One diagnostic for each diagnostic of `xs` whose code is unknown, in order.
pub open spec fn unknown_diagnostics(known: Seq<Seq<char>>, xs: Seq<DiagnosticView>) -> Seq<
    DiagnosticView,
>
    decreases xs.len(),
{
    if xs.len() == 0 {
        Seq::empty()
    } else {
        let r = unknown_diagnostics(known, xs.drop_last());
        if is_known(known, xs.last().code) {
            r
        } else {
            r.push(unknown_diagnostic(xs.last()))
        }
    }
}

pub open spec fn unused_message() -> Seq<char> {
    "Ignore directive was not used."@
}

/// The diagnostic reported at an unused directive.
pub open spec fn unused_diagnostic(file_name: Seq<char>, range: Range) -> DiagnosticView {
    DiagnosticView {
        range,
        filename: file_name,
        code: unused_code(),
        message: unused_message(),
        hint: None,
    }
}

/// `d` covers some diagnostic of `xs`.
pub open spec fn is_used(d: DirectiveView, file_level: bool, xs: Seq<DiagnosticView>) -> bool {
    exists|k: int| 0 <= k < xs.len() && covers(d, file_level, #[trigger] xs[k])
}

/// One diagnostic for each directive of `ds` that covers nothing of `xs`.
pub open spec fn unused_diagnostics(
    file_name: Seq<char>,
    ds: Seq<DirectiveView>,
    file_level: bool,
    xs: Seq<DiagnosticView>,
) -> Seq<DiagnosticView>
    decreases ds.len(),
{
    if ds.len() == 0 {
        Seq::empty()
    } else {
        let r = unused_diagnostics(file_name, ds.drop_last(), file_level, xs);
        if is_used(ds.last(), file_level, xs) {
            r
        } else {
            r.push(unused_diagnostic(file_name, ds.last().range))
        }
    }
}

/// The unused-directive diagnostics of the file: file directives first.
pub open spec fn spec_unused(c: ContextView) -> Seq<DiagnosticView> {
    unused_diagnostics(c.file_name, c.file_ignores, true, c.diagnostics) + unused_diagnostics(
        c.file_name,
        c.line_ignores,
        false,
        c.diagnostics,
    )
}

fn codes_contain(codes: &Vec<String>, code: &String) -> (r: bool)
    ensures
        r == codes.deep_view().contains(code@),
{
    let mut i: usize = 0;
    while i < codes.len()
        invariant
            i <= codes@.len(),
            forall|k: int| 0 <= k < i ==> codes.deep_view()[k] != code@,
        decreases codes@.len() - i,
    {
        if codes[i] == *code {
            assert(codes.deep_view()[i as int] == code@);
            return true;
        }
        i = i + 1;
    }
    false
}

fn directive_covers(d: &IgnoreDirective, file_level: bool, x: &LintDiagnostic) -> (r: bool)
    ensures
        r == covers(d@, file_level, x@),
{
    if !file_level {
        let line = x.range.start.line_index;
        if line == 0 || line - 1 != d.range.start.line_index {
            return false;
        }
    }
    d.codes.len() == 0 || codes_contain(&d.codes, &x.code)
}

fn any_covers(ds: &Vec<IgnoreDirective>, file_level: bool, x: &LintDiagnostic) -> (r: bool)
    ensures
        r == covered_by_any(directive_views(ds@), file_level, x@),
{
    let ghost dv = directive_views(ds@);
    let mut i: usize = 0;
    while i < ds.len()
        invariant
            i <= ds@.len(),
            dv == directive_views(ds@),
            forall|k: int| 0 <= k < i ==> !covers(#[trigger] dv[k], file_level, x@),
        decreases ds@.len() - i,
    {
        if directive_covers(&ds[i], file_level, x) {
            assert(covers(dv[i as int], file_level, x@));
            return true;
        }
        i = i + 1;
    }
    false
}

fn directive_used(d: &IgnoreDirective, file_level: bool, xs: &Vec<LintDiagnostic>) -> (r: bool)
    ensures
        r == is_used(d@, file_level, views(xs@)),
{
    let ghost xv = views(xs@);
    let mut i: usize = 0;
    while i < xs.len()
        invariant
            i <= xs@.len(),
            xv == views(xs@),
            forall|k: int| 0 <= k < i ==> !covers(d@, file_level, #[trigger] xv[k]),
        decreases xs@.len() - i,
    {
        if directive_covers(d, file_level, &xs[i]) {
            assert(covers(d@, file_level, xv[i as int]));
            return true;
        }
        i = i + 1;
    }
    false
}

fn unused_of(
    file_name: &String,
    ds: &Vec<IgnoreDirective>,
    file_level: bool,
    xs: &Vec<LintDiagnostic>,
    out: &mut Vec<LintDiagnostic>,
)
    ensures
        views(final(out)@) == views(old(out)@) + unused_diagnostics(
            file_name@,
            directive_views(ds@),
            file_level,
            views(xs@),
        ),
{
    let ghost start = views(out@);
    let ghost dv = directive_views(ds@);
    let mut i: usize = 0;
    while i < ds.len()
        invariant
            i <= ds@.len(),
            dv == directive_views(ds@),
            views(out@) == start + unused_diagnostics(
                file_name@,
                dv.take(i as int),
                file_level,
                views(xs@),
            ),
        decreases ds@.len() - i,
    {
        assert(dv.take(i as int + 1).drop_last() == dv.take(i as int));
        assert(dv.take(i as int + 1).last() == ds@[i as int]@);
        let ghost before = views(out@);
        if !directive_used(&ds[i], file_level, xs) {
            let d = LintDiagnostic {
                range: ds[i].range,
                filename: file_name.clone(),
                code: UNUSED_IGNORE_CODE.to_owned(),
                message: "Ignore directive was not used.".to_owned(),
                hint: None,
            };
            out.push(d);
            assert(d@ == unused_diagnostic(file_name@, dv[i as int].range));
            assert(views(out@) =~= before.push(d@));
        }
        assert(views(out@) =~= start + unused_diagnostics(
            file_name@,
            dv.take(i as int + 1),
            file_level,
            views(xs@),
        ));
        i = i + 1;
    }
    assert(dv.take(ds@.len() as int) == dv);
}

impl Context {
    /// A context for the file `file_name` with the given file directives, and
    /// the line directives `line_directive` that the program's comments hold.
    pub fn new(
        file_name: String,
        program: &Program,
        line_directive: &str,
        file_ignores: Vec<IgnoreDirective>,
    ) -> (r: Context)
        ensures
            r@.file_name == file_name@,
            r@.file_ignores == directive_views(file_ignores@),
            r@.line_ignores == spec_directives(line_directive@, program.comments@),
            r@.diagnostics.len() == 0,
    {
        let line_ignores = parse_ignore_directives(line_directive, &program.comments);
        Context { file_name, file_ignores, line_ignores, diagnostics: Vec::new() }
    }

    /// The name of the file being linted.
    pub fn file_name(&self) -> (r: &str)
        ensures
            r@ == self@.file_name,
    {
        self.file_name.as_str()
    }

    /// The diagnostics reported so far.
    pub fn diagnostics(&self) -> (r: &Vec<LintDiagnostic>)
        ensures
            views(r@) == self@.diagnostics,
    {
        &self.diagnostics
    }

    /// Reports a diagnostic with a hint.
    pub fn add_diagnostic_with_hint(
        &mut self,
        range: Range,
        code: &str,
        message: &str,
        hint: &str,
    )
        ensures
            final(self)@ == (ContextView {
                diagnostics: old(self)@.diagnostics.push(
                    DiagnosticView {
                        range,
                        filename: old(self)@.file_name,
                        code: code@,
                        message: message@,
                        hint: Some(hint@),
                    },
                ),
                ..old(self)@
            }),
    {
        let d = LintDiagnostic {
            range,
            filename: self.file_name.clone(),
            code: code.to_owned(),
            message: message.to_owned(),
            hint: Some(hint.to_owned()),
        };
        self.diagnostics.push(d);
        assert(views(self.diagnostics@) =~= views(old(self).diagnostics@).push(d@));
    }

    /// Reports a diagnostic.
    pub fn add_diagnostic(&mut self, range: Range, code: &str, message: &str)
        ensures
            final(self)@ == (ContextView {
                diagnostics: old(self)@.diagnostics.push(
                    DiagnosticView {
                        range,
                        filename: old(self)@.file_name,
                        code: code@,
                        message: message@,
                        hint: None,
                    },
                ),
                ..old(self)@
            }),
    {
        let d = LintDiagnostic {
            range,
            filename: self.file_name.clone(),
            code: code.to_owned(),
            message: message.to_owned(),
            hint: None,
        };
        self.diagnostics.push(d);
        assert(views(self.diagnostics@) =~= views(old(self).diagnostics@).push(d@));
    }

    /// The reported diagnostics that no directive covers, in order.
    pub fn check_ignore_directive_usage(&self) -> (r: Vec<LintDiagnostic>)
        ensures
            views(r@) == survivors(self@, self@.diagnostics),
    {
        let ghost xv = views(self.diagnostics@);
        let mut out: Vec<LintDiagnostic> = Vec::new();
        let mut i: usize = 0;
        while i < self.diagnostics.len()
            invariant
                i <= self.diagnostics@.len(),
                xv == views(self.diagnostics@),
                xv == self@.diagnostics,
                views(out@) == survivors(self@, xv.take(i as int)),
            decreases self.diagnostics@.len() - i,
        {
            assert(xv.take(i as int + 1).drop_last() == xv.take(i as int));
            let x = &self.diagnostics[i];
            let hidden = any_covers(&self.file_ignores, true, x) || any_covers(
                &self.line_ignores,
                false,
                x,
            );
            if !hidden {
                out.push(x.duplicate());
            }
            assert(views(out@) =~= survivors(self@, xv.take(i as int + 1)));
            i = i + 1;
        }
        assert(xv.take(xv.len() as int) == xv);
        out
    }

    /// One diagnostic for each reported diagnostic whose code is neither in
    /// `known` nor reserved, at its range and naming its code.
    pub fn ban_unknown_rule_code(&self, known: &Vec<String>) -> (r: Vec<LintDiagnostic>)
        ensures
            views(r@) == unknown_diagnostics(known.deep_view(), self@.diagnostics),
    {
        let ghost xv = views(self.diagnostics@);
        let unknown_s = UNKNOWN_RULE_CODE.to_owned();
        let unused_s = UNUSED_IGNORE_CODE.to_owned();
        let mut out: Vec<LintDiagnostic> = Vec::new();
        let mut i: usize = 0;
        while i < self.diagnostics.len()
            invariant
                i <= self.diagnostics@.len(),
                xv == views(self.diagnostics@),
                xv == self@.diagnostics,
                unknown_s@ == unknown_code(),
                unused_s@ == unused_code(),
                views(out@) == unknown_diagnostics(known.deep_view(), xv.take(i as int)),
            decreases self.diagnostics@.len() - i,
        {
            assert(xv.take(i as int + 1).drop_last() == xv.take(i as int));
            let x = &self.diagnostics[i];
            let known_code = codes_contain(known, &x.code) || x.code == unknown_s || x.code
                == unused_s;
            if !known_code {
                let mut message = "Unknown rule for code \"".to_owned();
                message.append(x.code.as_str());
                message.append("\"");
                let d = LintDiagnostic {
                    range: x.range,
                    filename: x.filename.clone(),
                    code: UNKNOWN_RULE_CODE.to_owned(),
                    message,
                    hint: None,
                };
                out.push(d);
            }
            assert(views(out@) =~= unknown_diagnostics(
                known.deep_view(),
                xv.take(i as int + 1),
            ));
            i = i + 1;
        }
        assert(xv.take(xv.len() as int) == xv);
        out
    }

    /// One diagnostic for each directive that covers no reported diagnostic,
    /// at the directive's range: file directives first, then line directives,
    /// each in source order.
    pub fn ban_unused_ignore(&self) -> (r: Vec<LintDiagnostic>)
        ensures
            views(r@) == spec_unused(self@),
    {
        let mut out: Vec<LintDiagnostic> = Vec::new();
        unused_of(&self.file_name, &self.file_ignores, true, &self.diagnostics, &mut out);
        unused_of(&self.file_name, &self.line_ignores, false, &self.diagnostics, &mut out);
        out
    }
}

} // verus!
