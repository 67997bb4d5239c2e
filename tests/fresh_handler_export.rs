use deno_lint_core::context::Context;
use deno_lint_core::diagnostic::{LintDiagnostic, Position, Range};
use deno_lint_core::fresh_handler_export::{in_routes_dir, lint_exports, FreshHandlerExport, Visitor, HINT, MESSAGE};
use deno_lint_core::handler::traverse;
use deno_lint_core::linter::{Linter, LinterBuilder};
use deno_lint_core::program::{Decl, ExportDecl, Ident, Pat, Program};

fn range(line: usize, start: usize, end: usize) -> Range {
    Range {
        start: Position { line_index: line, column_index: start },
        end: Position { line_index: line, column_index: end },
    }
}

fn ident(sym: &str, col: usize) -> Ident {
    Ident { sym: sym.to_string(), range: range(0, col, col + sym.len()) }
}

/// The module that a one-line source parses to, as far as the rule reads it.
fn parse(source: &str) -> Program {
    let export_decls = match source {
        "const handler = {}" | "function handler() {}" => vec![],
        "export const handler = {}" => vec![ExportDecl { decl: Decl::Var(vec![Pat::Ident(ident("handler", 13))]) }],
        "export const handlers = {}" => vec![ExportDecl { decl: Decl::Var(vec![Pat::Ident(ident("handlers", 13))]) }],
        "export function handler() {}" => vec![ExportDecl { decl: Decl::Fn(ident("handler", 16)) }],
        "export function handlers() {}" => vec![ExportDecl { decl: Decl::Fn(ident("handlers", 16)) }],
        "export async function handler() {}" => vec![ExportDecl { decl: Decl::Fn(ident("handler", 22)) }],
        "export async function handlers() {}" => vec![ExportDecl { decl: Decl::Fn(ident("handlers", 22)) }],
        _ => panic!("no parse for {}", source),
    };
    Program { comments: vec![], export_decls }
}

fn linter() -> Linter<FreshHandlerExport> {
    LinterBuilder::default().rules(vec![FreshHandlerExport]).build().unwrap()
}

fn lint(source: &str, filename: &str) -> Vec<LintDiagnostic> {
    linter().lint_with_ast(filename, &parse(source))
}

fn assert_lint_ok(source: &str, filename: &str) {
    assert!(lint(source, filename).is_empty(), "{} in {}", source, filename);
}

fn assert_lint_err(source: &str, filename: &str, col: usize) {
    let ds = lint(source, filename);
    assert_eq!(ds.len(), 1);
    assert_eq!(ds[0].range.start.line_index, 0);
    assert_eq!(ds[0].range.start.column_index, col);
    assert_eq!(ds[0].code, "fresh-handler-export");
    assert_eq!(ds[0].message, MESSAGE);
    assert_eq!(ds[0].hint.as_deref(), Some(HINT));
}

#[test]
fn fresh_handler_export_name() {
    assert_lint_ok("const handler = {}", "foo.jsx");
    assert_lint_ok("function handler() {}", "foo.jsx");
    assert_lint_ok("export const handler = {}", "foo.jsx");
    assert_lint_ok("export const handlers = {}", "foo.jsx");
    assert_lint_ok("export function handlers() {}", "foo.jsx");

    assert_lint_ok("export const handler = {}", "routes/foo.jsx");
    assert_lint_ok("export function handler() {}", "routes/foo.jsx");
    assert_lint_ok("export async function handler() {}", "routes/foo.jsx");

    assert_lint_err("export const handlers = {}", "routes/index.tsx", 13);
    assert_lint_err("export function handlers() {}", "routes/index.tsx", 16);
    assert_lint_err("export async function handlers() {}", "routes/index.tsx", 22);
}

#[test]
fn handlers_in_routes_reported_with_hint() {
    let ds = lint("export const handlers = {}", "src/routes/index.tsx");
    assert_eq!(ds.len(), 1);
    assert_eq!(ds[0].code, "fresh-handler-export");
    assert_eq!(ds[0].range, range(0, 13, 21));
    assert_eq!(ds[0].filename, "src/routes/index.tsx");
    assert_eq!(ds[0].hint.as_deref(), Some("Did you mean \"handler\"?"));
}

#[test]
fn handlers_outside_routes_not_reported() {
    assert!(lint("export const handlers = {}", "foo.jsx").is_empty());
    assert!(lint("export const handlers = {}", "routesx/foo.jsx").is_empty());
    assert!(lint("export const handlers = {}", "my-routes/foo.jsx").is_empty());
}

#[test]
fn routes_segment_detection() {
    assert!(in_routes_dir("routes"));
    assert!(in_routes_dir("routes/a.ts"));
    assert!(in_routes_dir("/app/routes/a.ts"));
    assert!(in_routes_dir("a/routes"));
    assert!(!in_routes_dir("a/routes.ts"));
    assert!(!in_routes_dir("xroutes/a.ts"));
    assert!(!in_routes_dir("route/a.ts"));
    assert!(!in_routes_dir(""));
}

#[test]
fn only_first_declarator_and_plain_names_count() {
    let program = Program {
        comments: vec![],
        export_decls: vec![
            ExportDecl { decl: Decl::Var(vec![Pat::Other, Pat::Ident(ident("handlers", 20))]) },
            ExportDecl { decl: Decl::Other },
            ExportDecl { decl: Decl::Var(vec![]) },
            ExportDecl { decl: Decl::Var(vec![Pat::Ident(ident("handlers", 5)), Pat::Ident(ident("handlers", 30))]) },
        ],
    };
    let mut ctx = Context::new("routes/x.ts".to_string(), &program, "deno-lint-ignore", vec![]);
    lint_exports(&mut ctx, &program);
    assert_eq!(ctx.diagnostics().len(), 1);
    assert_eq!(ctx.diagnostics()[0].range.start.column_index, 5);
}

#[test]
fn visitor_traversal_matches_rule() {
    let program = Program {
        comments: vec![],
        export_decls: vec![
            ExportDecl { decl: Decl::Fn(ident("handlers", 16)) },
            ExportDecl { decl: Decl::Fn(ident("handler", 16)) },
            ExportDecl { decl: Decl::Var(vec![Pat::Ident(ident("handlers", 13))]) },
        ],
    };
    let mut by_visitor = Context::new("routes/a.ts".to_string(), &program, "deno-lint-ignore", vec![]);
    traverse(&Visitor, &program, &mut by_visitor);
    let mut by_rule = Context::new("routes/a.ts".to_string(), &program, "deno-lint-ignore", vec![]);
    lint_exports(&mut by_rule, &program);
    assert_eq!(by_visitor.diagnostics().len(), 2);
    assert_eq!(format!("{:?}", by_visitor.diagnostics()), format!("{:?}", by_rule.diagnostics()));
    assert_eq!(by_visitor.diagnostics()[1].range.start.column_index, 13);
}
