//! A rule for Fresh route modules: a middleware exported as `handlers` is
//! reported, since Fresh only picks up `handler`.
use vstd::prelude::*;
use crate::context::{Context, ContextView};
use crate::diagnostic::DiagnosticView;
use crate::program::{Decl, ExportDecl, Ident, Pat, Program};
use crate::handler::Handler;
use crate::rules::LintRule;
use crate::text::chars_of;

verus! {

/// The rule.
#[derive(Debug, Clone, Copy)]
pub struct FreshHandlerExport;

pub const CODE: &'static str = "fresh-handler-export";

pub const MESSAGE: &'static str = "Fresh middlewares must be exported as \"handler\" but got \"handlers\" instead.";

pub const HINT: &'static str = "Did you mean \"handler\"?";

pub const ROUTES: &'static str = "routes";

pub const HANDLERS: &'static str = "handlers";

/// Some `/`-separated segment of the path `s` is `routes`.
pub open spec fn has_routes_segment(s: Seq<char>) -> bool {
    exists|i: int|
        0 <= i && i + ROUTES@.len() <= s.len() && #[trigger] s.subrange(i, i + ROUTES@.len())
            == ROUTES@ && (i == 0 || s[i - 1] == '/') && (i + ROUTES@.len() == s.len() || s[i
            + ROUTES@.len()] == '/')
}

/// The identifier that an exported declaration binds, as far as the rule
/// looks: the first declarator of a variable declaration when it is a plain
/// name, or the name of a function.
pub open spec fn exported_ident(d: ExportDecl) -> Option<Ident> {
    match d.decl {
        Decl::Var(pats) => if pats@.len() > 0 {
            match pats@[0] {
                Pat::Ident(id) => Some(id),
                Pat::Other => None,
            }
        } else {
            None
        },
        Decl::Fn(id) => Some(id),
        Decl::Other => None,
    }
}

pub open spec fn finding(file_name: Seq<char>, id: Ident) -> DiagnosticView {
    DiagnosticView {
        range: id.range,
        filename: file_name,
        code: CODE@,
        message: MESSAGE@,
        hint: Some(HINT@),
    }
}

/// What the rule reports for these exported declarations of a file in a
/// `routes` directory, in order.
pub open spec fn findings(file_name: Seq<char>, ds: Seq<ExportDecl>) -> Seq<DiagnosticView>
    decreases ds.len(),
{
    if ds.len() == 0 {
        Seq::empty()
    } else {
        let r = findings(file_name, ds.drop_last());
        match exported_ident(ds.last()) {
            Some(id) => if id.sym@ == HANDLERS@ {
                r.push(finding(file_name, id))
            } else {
                r
            },
            None => r,
        }
    }
}

/// What the rule reports for `program` in the file `file_name`.
pub open spec fn spec_lint(file_name: Seq<char>, program: Program) -> Seq<DiagnosticView> {
    if has_routes_segment(file_name) {
        findings(file_name, program.export_decls@)
    } else {
        Seq::empty()
    }
}

/// Tells whether the path has a `routes` segment.
pub fn in_routes_dir(path: &str) -> (r: bool)
    ensures
        r == has_routes_segment(path@),
{
    let s = chars_of(path);
    let w = chars_of(ROUTES);
    proof {
        reveal_strlit("routes");
    }
    if s.len() < w.len() {
        return false;
    }
    let mut i: usize = 0;
    while i <= s.len() - 6
        invariant
            s@ == path@,
            w@ == ROUTES@,
            w@.len() == 6,
            s@.len() >= 6,
            i + 6 <= s@.len() + 1,
            forall|k: int|
                0 <= k < i ==> !(#[trigger] s@.subrange(k, k + 6) == ROUTES@ && (k == 0 || s@[k
                    - 1] == '/') && (k + 6 == s@.len() || s@[k + 6] == '/')),
        decreases s@.len() - i,
    {
        let before = i == 0 || s[i - 1] == '/';
        let after = i + 6 == s.len() || s[i + 6] == '/';
        if before && after {
            let mut k: usize = 0;
            while k < 6 && s[i + k] == w[k]
                invariant
                    k <= 6,
                    i + 6 <= s@.len(),
                    s@.len() <= usize::MAX,
                    w@.len() == 6,
                    forall|m: int| 0 <= m < k ==> s@[i + m] == w@[m],
                decreases 6 - k,
            {
                k = k + 1;
            }
            if k == 6 {
                assert(s@.subrange(i as int, i + 6) =~= ROUTES@);
                return true;
            }
            assert(s@.subrange(i as int, i + 6)[k as int] != ROUTES@[k as int]);
        }
        i = i + 1;
    }
    false
}

/// The identifier of an exported declaration that the rule looks at.
fn exported_ident_of(d: &ExportDecl) -> (r: Option<&Ident>)
    ensures
        match r {
            Some(id) => exported_ident(*d) == Some(*id),
            None => exported_ident(*d) is None,
        },
{
    match &d.decl {
        Decl::Var(pats) => {
            if pats.len() > 0 {
                match &pats[0] {
                    Pat::Ident(id) => Some(id),
                    Pat::Other => None,
                }
            } else {
                None
            }
        },
        Decl::Fn(id) => Some(id),
        Decl::Other => None,
    }
}

/// What the rule reports for one exported declaration of a file in a
/// `routes` directory.
pub open spec fn decl_findings(file_name: Seq<char>, d: ExportDecl) -> Seq<DiagnosticView> {
    match exported_ident(d) {
        Some(id) => if id.sym@ == HANDLERS@ {
            seq![finding(file_name, id)]
        } else {
            Seq::empty()
        },
        None => Seq::empty(),
    }
}

/// Reports the exported declaration when it is named `handlers` and the
/// file is in a `routes` directory.
pub fn check_export_decl(context: &mut Context, export_decl: &ExportDecl)
    ensures
        final(context)@ == (ContextView {
            diagnostics: old(context)@.diagnostics + (if has_routes_segment(
                old(context)@.file_name,
            ) {
                decl_findings(old(context)@.file_name, *export_decl)
            } else {
                Seq::empty()
            }),
            ..old(context)@
        }),
{
    let ghost start = context@;
    if !in_routes_dir(context.file_name()) {
        assert(start.diagnostics + Seq::<DiagnosticView>::empty() =~= start.diagnostics);
        return ;
    }
    let handlers = HANDLERS.to_owned();
    match exported_ident_of(export_decl) {
        Some(id) => {
            if id.sym == handlers {
                context.add_diagnostic_with_hint(id.range, CODE, MESSAGE, HINT);
                assert(context@.diagnostics =~= start.diagnostics + decl_findings(
                    start.file_name,
                    *export_decl,
                ));
            } else {
                assert(start.diagnostics + Seq::<DiagnosticView>::empty() =~= start.diagnostics);
            }
        },
        None => {
            assert(start.diagnostics + Seq::<DiagnosticView>::empty() =~= start.diagnostics);
        },
    }
}

/// The visitor of the rule: it checks each exported declaration.
pub struct Visitor;

impl Handler for Visitor {
    open spec fn export_decl_reports(&self, file_name: Seq<char>, d: ExportDecl) -> Seq<
        DiagnosticView,
    > {
        if has_routes_segment(file_name) {
            decl_findings(file_name, d)
        } else {
            Seq::empty()
        }
    }

    fn export_decl(&self, export_decl: &ExportDecl, ctx: &mut Context) {
        check_export_decl(ctx, export_decl);
    }
}

/// Reports each exported `handlers` of `program`, when the file is in a
/// `routes` directory.
pub fn lint_exports(context: &mut Context, program: &Program)
    ensures
        final(context)@ == (ContextView {
            diagnostics: old(context)@.diagnostics + spec_lint(old(context)@.file_name, *program),
            ..old(context)@
        }),
{
    let ghost start = context@;
    let ghost routes = has_routes_segment(start.file_name);
    let ds = &program.export_decls;
    let mut i: usize = 0;
    assert(start.diagnostics + Seq::<DiagnosticView>::empty() =~= start.diagnostics);
    while i < ds.len()
        invariant
            i <= ds@.len(),
            routes == has_routes_segment(start.file_name),
            context@ == (ContextView {
                diagnostics: start.diagnostics + (if routes {
                    findings(start.file_name, ds@.take(i as int))
                } else {
                    Seq::empty()
                }),
                ..start
            }),
        decreases ds@.len() - i,
    {
        let ghost before = context@.diagnostics;
        assert(ds@.take(i as int + 1).drop_last() == ds@.take(i as int));
        assert(ds@.take(i as int + 1).last() == ds@[i as int]);
        check_export_decl(context, &ds[i]);
        proof {
            let f = start.file_name;
            let prev = findings(f, ds@.take(i as int));
            let d = decl_findings(f, ds@[i as int]);
            if routes {
                assert(findings(f, ds@.take(i as int + 1)) =~= prev + d);
                assert(context@.diagnostics =~= start.diagnostics + (prev + d));
            } else {
                assert(context@.diagnostics =~= before + Seq::<DiagnosticView>::empty());
            }
        }
        i = i + 1;
    }
    assert(ds@.take(ds@.len() as int) == ds@);
}

impl LintRule for FreshHandlerExport {
    open spec fn spec_code(&self) -> Seq<char> {
        CODE@
    }

    open spec fn spec_priority(&self) -> u8 {
        0
    }

    open spec fn spec_reports(&self, file_name: Seq<char>, program: Program) -> Seq<DiagnosticView> {
        spec_lint(file_name, program)
    }

    fn code(&self) -> &'static str {
        CODE
    }

    fn tags(&self) -> Vec<&'static str> {
        vec!["fresh"]
    }

    fn priority(&self) -> u8 {
        0
    }

    fn lint_program_with_ast_view(&self, context: &mut Context, program: &Program) {
        lint_exports(context, program);
    }
}

} // verus!
