use deno_lint_core::context::{Context, UNKNOWN_RULE_CODE, UNUSED_IGNORE_CODE};
use deno_lint_core::diagnostic::{sort_diagnostics_by_line, LintDiagnostic, Position, Range, Reports};
use deno_lint_core::fresh_handler_export::FreshHandlerExport;
use deno_lint_core::ignore_directives::{parse_ignore_comment, parse_ignore_directives};
use deno_lint_core::linter::{Linter, LinterBuilder, LinterError};
use deno_lint_core::program::{Comment, Decl, ExportDecl, Ident, Pat, Program};
use deno_lint_core::rules::{code_less, sort_rules_by_priority, BanUnknownRuleCode, BanUnusedIgnore, LintRule};
use deno_lint_core::text::{split_whitespace, Text};

fn range(line: usize, start: usize, end: usize) -> Range {
    Range {
        start: Position { line_index: line, column_index: start },
        end: Position { line_index: line, column_index: end },
    }
}

/// Rules for these tests: the library's own, and one that flags a line.
#[derive(Clone, Copy, Debug)]
enum TestRule {
    Fresh,
    Unknown,
    Unused,
    Flag { code: &'static str, priority: u8, line: usize },
}

impl LintRule for TestRule {
    // The contracts' view of a rule; tests are not verified, so these never run.
    fn spec_code(&self) -> Text {
        unreachable!()
    }

    fn spec_priority(&self) -> u8 {
        unreachable!()
    }

    fn spec_reports(&self, _file_name: Text, _program: Program) -> Reports {
        unreachable!()
    }

    fn code(&self) -> &'static str {
        match self {
            TestRule::Fresh => FreshHandlerExport.code(),
            TestRule::Unknown => BanUnknownRuleCode.code(),
            TestRule::Unused => BanUnusedIgnore.code(),
            TestRule::Flag { code, .. } => code,
        }
    }

    fn tags(&self) -> Vec<&'static str> {
        vec![]
    }

    fn priority(&self) -> u8 {
        match self {
            TestRule::Flag { priority, .. } => *priority,
            _ => 0,
        }
    }

    fn lint_program_with_ast_view(&self, context: &mut Context, program: &Program) {
        match self {
            TestRule::Fresh => FreshHandlerExport.lint_program_with_ast_view(context, program),
            TestRule::Unknown => {}
            TestRule::Unused => {}
            TestRule::Flag { code, line, .. } => context.add_diagnostic(range(*line, 0, 1), code, "flagged"),
        }
    }
}

fn flag(code: &'static str, priority: u8, line: usize) -> TestRule {
    TestRule::Flag { code, priority, line }
}

fn linter(rules: Vec<TestRule>) -> Linter<TestRule> {
    LinterBuilder::default().rules(rules).build().unwrap()
}

fn comment(text: &str, line: usize) -> Comment {
    Comment { text: text.to_string(), range: range(line, 0, text.len() + 2) }
}

fn handlers_on_line(line: usize) -> ExportDecl {
    ExportDecl {
        decl: Decl::Var(vec![Pat::Ident(Ident { sym: "handlers".to_string(), range: range(line, 13, 21) })]),
    }
}

fn codes(ds: &[LintDiagnostic]) -> Vec<&str> {
    ds.iter().map(|d| d.code.as_str()).collect()
}

fn empty_program() -> Program {
    Program { comments: vec![], export_decls: vec![] }
}

#[test]
fn registry_order_is_priority_then_code() {
    let l = linter(vec![flag("c", 0, 0), flag("a", 1, 0), flag("b", 0, 0), flag("ab", 0, 0)]);
    let order: Vec<&str> = l.context().rules.iter().map(|r| r.code()).collect();
    assert_eq!(order, vec!["ab", "b", "c", "a"]);
}

#[test]
fn registry_order_ignores_registration_order() {
    let a = linter(vec![flag("x", 2, 0), flag("y", 1, 0), flag("z", 1, 0)]);
    let b = linter(vec![flag("z", 1, 0), flag("x", 2, 0), flag("y", 1, 0)]);
    let oa: Vec<&str> = a.context().rules.iter().map(|r| r.code()).collect();
    let ob: Vec<&str> = b.context().rules.iter().map(|r| r.code()).collect();
    assert_eq!(oa, ob);
    assert_eq!(oa, vec!["y", "z", "x"]);
}

#[test]
fn two_rules_on_one_line_follow_registry_order() {
    let l = linter(vec![flag("zeta", 0, 3), flag("alpha", 0, 3)]);
    let ds = l.lint_with_ast("a.ts", &empty_program());
    assert_eq!(codes(&ds), vec!["alpha", "zeta"]);
    let l = linter(vec![flag("alpha", 1, 3), flag("zeta", 0, 3)]);
    let ds = l.lint_with_ast("a.ts", &empty_program());
    assert_eq!(codes(&ds), vec!["zeta", "alpha"]);
}

#[test]
fn diagnostics_sorted_by_line() {
    let l = linter(vec![flag("a", 0, 5), flag("b", 0, 1), flag("c", 0, 5), flag("d", 0, 0)]);
    let ds = l.lint_with_ast("a.ts", &empty_program());
    assert_eq!(codes(&ds), vec!["d", "b", "a", "c"]);
}

#[test]
fn linting_twice_gives_identical_lists() {
    let l = linter(vec![TestRule::Fresh, flag("a", 0, 0), TestRule::Unused]);
    let program = Program {
        comments: vec![comment(" deno-lint-ignore other", 4)],
        export_decls: vec![handlers_on_line(2)],
    };
    let first = l.lint_with_ast("routes/a.ts", &program);
    let second = l.clone().lint_with_ast("routes/a.ts", &program);
    assert_eq!(first.len(), 3);
    assert_eq!(format!("{:?}", first), format!("{:?}", second));
}

#[test]
fn whole_file_directive_without_codes_gives_nothing() {
    let l = linter(vec![TestRule::Fresh, flag("a", 0, 0), TestRule::Unknown, TestRule::Unused, flag("x", 0, 2)]);
    let program = Program {
        comments: vec![comment(" deno-lint-ignore-file ", 0), comment(" deno-lint-ignore nothing", 5)],
        export_decls: vec![handlers_on_line(1)],
    };
    assert!(l.lint_with_ast("routes/a.ts", &program).is_empty());
}

#[test]
fn whole_file_directive_with_codes_suppresses_those_codes() {
    let l = linter(vec![TestRule::Fresh, flag("a", 0, 0), flag("b", 0, 0)]);
    let program = Program {
        comments: vec![comment(" deno-lint-ignore-file a", 0), comment("deno-lint-ignore-file fresh-handler-export", 1)],
        export_decls: vec![handlers_on_line(3)],
    };
    let ds = l.lint_with_ast("routes/a.ts", &program);
    assert_eq!(codes(&ds), vec!["b"]);
}

#[test]
fn line_directive_scoped_to_code() {
    let l = linter(vec![TestRule::Fresh]);
    let program = Program {
        comments: vec![comment(" deno-lint-ignore fresh-handler-export", 0)],
        export_decls: vec![handlers_on_line(1)],
    };
    assert!(l.lint_with_ast("routes/a.ts", &program).is_empty());

    let program = Program {
        comments: vec![comment(" deno-lint-ignore some-other-rule", 0)],
        export_decls: vec![handlers_on_line(1)],
    };
    let ds = l.lint_with_ast("routes/a.ts", &program);
    assert_eq!(codes(&ds), vec!["fresh-handler-export"]);

    let program = Program {
        comments: vec![comment(" deno-lint-ignore fresh-handler-export", 0)],
        export_decls: vec![handlers_on_line(2)],
    };
    assert_eq!(l.lint_with_ast("routes/a.ts", &program).len(), 1);
}

#[test]
fn line_directive_without_codes_covers_next_line() {
    let l = linter(vec![flag("a", 0, 4), flag("b", 0, 4), flag("c", 0, 5)]);
    let program = Program { comments: vec![comment("deno-lint-ignore", 3)], export_decls: vec![] };
    let ds = l.lint_with_ast("a.ts", &program);
    assert_eq!(codes(&ds), vec!["c"]);
}

#[test]
fn unused_directive_reported_only_when_enabled() {
    let program = Program {
        comments: vec![comment(" deno-lint-ignore nothing-here", 7), comment(" not a directive", 9)],
        export_decls: vec![],
    };
    let l = linter(vec![TestRule::Unused, flag("a", 0, 0)]);
    let ds = l.lint_with_ast("a.ts", &program);
    assert_eq!(codes(&ds), vec!["a", UNUSED_IGNORE_CODE]);
    assert_eq!(ds[1].range, range(7, 0, 32));
    assert_eq!(ds[1].message, "Ignore directive was not used.");

    let l = linter(vec![flag("a", 0, 0)]);
    let ds = l.lint_with_ast("a.ts", &program);
    assert_eq!(codes(&ds), vec!["a"]);
}

#[test]
fn used_directive_not_reported() {
    let program = Program { comments: vec![comment(" deno-lint-ignore a", 2)], export_decls: vec![] };
    let l = linter(vec![TestRule::Unused, flag("a", 0, 3)]);
    assert!(l.lint_with_ast("a.ts", &program).is_empty());
}

#[test]
fn unknown_code_reported_and_kept() {
    let mut ctx = Context::new("a.ts".to_string(), &empty_program(), "deno-lint-ignore", vec![]);
    ctx.add_diagnostic(range(2, 4, 6), "no-such-rule", "odd");
    let l = linter(vec![TestRule::Unknown, flag("a", 0, 0)]);
    let ds = l.collect_diagnostics(ctx);
    assert_eq!(codes(&ds), vec!["no-such-rule", UNKNOWN_RULE_CODE]);
    assert_eq!(ds[1].range, range(2, 4, 6));
    assert_eq!(ds[1].message, "Unknown rule for code \"no-such-rule\"");
}

#[test]
fn unknown_code_ignored_when_disabled() {
    let mut ctx = Context::new("a.ts".to_string(), &empty_program(), "deno-lint-ignore", vec![]);
    ctx.add_diagnostic(range(2, 4, 6), "no-such-rule", "odd");
    let l = linter(vec![flag("a", 0, 0)]);
    let ds = l.collect_diagnostics(ctx);
    assert_eq!(codes(&ds), vec!["no-such-rule"]);
}

#[test]
fn unknown_code_check_through_rules() {
    let l = linter(vec![TestRule::Unknown, flag("a", 0, 1)]);
    let ds = l.lint_with_ast("a.ts", &empty_program());
    assert_eq!(codes(&ds), vec!["a"]);
}

#[test]
fn duplicate_codes_fail_the_build() {
    let r = LinterBuilder::default().rules(vec![flag("a", 0, 0), flag("b", 0, 0), flag("a", 3, 1)]).build();
    match r {
        Err(LinterError::DuplicateRuleCode(code)) => assert_eq!(code, "a"),
        Ok(_) => panic!("built with duplicate codes"),
    }
}

#[test]
fn custom_directive_names() {
    let l = LinterBuilder::default()
        .ignore_file_directive("skip-file")
        .ignore_diagnostic_directive("skip")
        .rules(vec![flag("a", 0, 1), flag("b", 0, 2)])
        .build()
        .unwrap();
    assert_eq!(l.context().ignore_file_directive, "skip-file");
    assert_eq!(l.context().ignore_diagnostic_directive, "skip");
    let program = Program { comments: vec![comment("skip a", 0), comment("deno-lint-ignore b", 1)], export_decls: vec![] };
    assert_eq!(codes(&l.lint_with_ast("a.ts", &program)), vec!["b"]);
    let program = Program { comments: vec![comment("skip-file", 0)], export_decls: vec![] };
    assert!(l.lint_with_ast("a.ts", &program).is_empty());
}

#[test]
fn default_builder_settings() {
    let l: Linter<TestRule> = LinterBuilder::default().build().unwrap();
    assert_eq!(l.context().ignore_file_directive, "deno-lint-ignore-file");
    assert_eq!(l.context().ignore_diagnostic_directive, "deno-lint-ignore");
    assert!(l.context().rules.is_empty());
    assert!(!l.context().check_unknown_rules);
    assert!(!l.context().check_unused_ignores);
}

#[test]
fn directive_parsing() {
    let c = comment("  deno-lint-ignore  a\tb  ", 3);
    let d = parse_ignore_comment("deno-lint-ignore", &c).unwrap();
    assert_eq!(d.codes, vec!["a".to_string(), "b".to_string()]);
    assert_eq!(d.range, c.range);
    assert!(parse_ignore_comment("deno-lint-ignore", &comment("deno-lint-ignore-file", 0)).is_none());
    assert!(parse_ignore_comment("deno-lint-ignore", &comment("x deno-lint-ignore", 0)).is_none());
    assert!(parse_ignore_comment("deno-lint-ignore", &comment("", 0)).is_none());
    let ds = parse_ignore_directives("deno-lint-ignore", &vec![comment("deno-lint-ignore", 0), comment("other", 1), comment("deno-lint-ignore q", 2)]);
    assert_eq!(ds.len(), 2);
    assert!(ds[0].codes.is_empty());
    assert_eq!(ds[1].range.start.line_index, 2);
}

#[test]
fn whitespace_splitting() {
    assert_eq!(split_whitespace("  a bb\u{3000}c\n"), vec!["a", "bb", "c"]);
    assert!(split_whitespace(" \t ").is_empty());
    assert_eq!(split_whitespace("é"), vec!["é"]);
}

#[test]
fn code_order() {
    assert!(code_less("a", "b"));
    assert!(code_less("a", "ab"));
    assert!(!code_less("ab", "a"));
    assert!(!code_less("a", "a"));
    assert!(code_less("", "a"));
    assert!(code_less("Z", "a"));
}

#[test]
fn rule_sorting_direct() {
    let rs = vec![flag("m", 5, 0), flag("k", 5, 0), flag("q", 0, 0)];
    let sorted = sort_rules_by_priority(rs);
    let order: Vec<&str> = sorted.iter().map(|r| r.code()).collect();
    assert_eq!(order, vec!["q", "k", "m"]);
}

#[test]
fn stable_sort_by_line() {
    let mk = |line: usize, code: &str| LintDiagnostic {
        range: range(line, 0, 0),
        filename: "f".to_string(),
        code: code.to_string(),
        message: String::new(),
        hint: None,
    };
    let ds = vec![mk(3, "a"), mk(1, "b"), mk(3, "c"), mk(0, "d"), mk(1, "e")];
    let sorted = sort_diagnostics_by_line(ds);
    assert_eq!(codes(&sorted), vec!["d", "b", "e", "a", "c"]);
}
