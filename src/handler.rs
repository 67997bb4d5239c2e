//! The traversal protocol for rules: a handler reacts to the nodes it cares
//! about, and `traverse` visits every node in document order.
use vstd::prelude::*;
use crate::context::{Context, ContextView};
use crate::diagnostic::DiagnosticView;
use crate::program::{ExportDecl, Program};

verus! {

/// Callbacks for the node kinds of a program. A callback only appends
/// diagnostics to the file's context.
pub trait Handler {
    /// What the callback reports for an exported declaration of the file
    /// `file_name`, in order.
    spec fn export_decl_reports(&self, file_name: Seq<char>, d: ExportDecl) -> Seq<DiagnosticView>;

    fn export_decl(&self, export_decl: &ExportDecl, ctx: &mut Context)
        ensures
            final(ctx)@ == (ContextView {
                diagnostics: old(ctx)@.diagnostics + self.export_decl_reports(
                    old(ctx)@.file_name,
                    *export_decl,
                ),
                ..old(ctx)@
            }),
    ;
}

/// What `handler` reports for the declarations `ds`, one after another.
pub open spec fn handler_reports<H: Handler>(handler: H, file_name: Seq<char>, ds: Seq<ExportDecl>) -> Seq<
    DiagnosticView,
>
    decreases ds.len(),
{
    if ds.len() == 0 {
        Seq::empty()
    } else {
        handler_reports(handler, file_name, ds.drop_last()) + handler.export_decl_reports(
            file_name,
            ds.last(),
        )
    }
}

/// Calls `handler` on each node of `program`, once each, in document order.
pub fn traverse<H: Handler>(handler: &H, program: &Program, ctx: &mut Context)
    ensures
        final(ctx)@ == (ContextView {
            diagnostics: old(ctx)@.diagnostics + handler_reports(
                *handler,
                old(ctx)@.file_name,
                program.export_decls@,
            ),
            ..old(ctx)@
        }),
{
    let ghost start = ctx@;
    let ghost ds = program.export_decls@;
    assert(start.diagnostics + handler_reports(*handler, start.file_name, ds.take(0))
        =~= start.diagnostics);
    let mut i: usize = 0;
    while i < program.export_decls.len()
        invariant
            i <= ds.len(),
            ds == program.export_decls@,
            ctx@ == (ContextView {
                diagnostics: start.diagnostics + handler_reports(
                    *handler,
                    start.file_name,
                    ds.take(i as int),
                ),
                ..start
            }),
        decreases ds.len() - i,
    {
        assert(ds.take(i as int + 1).drop_last() == ds.take(i as int));
        assert(ds.take(i as int + 1).last() == ds[i as int]);
        handler.export_decl(&program.export_decls[i], ctx);
        assert(ctx@.diagnostics =~= start.diagnostics + handler_reports(
            *handler,
            start.file_name,
            ds.take(i as int + 1),
        ));
        i = i + 1;
    }
    assert(ds.take(ds.len() as int) == ds);
}

} // verus!
