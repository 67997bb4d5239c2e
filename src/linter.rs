//! The linter: its configuration, built once, and the linting of one file.
use vstd::prelude::*;
use std::sync::Arc;
use crate::context::{
    covers,
    is_known,
    is_suppressed,
    is_used,
    unknown_diagnostic,
    unused_diagnostic,
    unused_diagnostics,
    spec_unused,
    survivors,
    unknown_code,
    unknown_diagnostics,
    unused_code,
    Context,
    ContextView,
    UNKNOWN_RULE_CODE,
    UNUSED_IGNORE_CODE,
};
use crate::diagnostic::{line_insert_pos, sort_by_line, sort_diagnostics_by_line, views, DiagnosticView, LintDiagnostic};
use crate::ignore_directives::{
    DirectiveView,
    any_ignores_all,
    directive_views,
    parse_ignore_directives,
    spec_any_ignores_all,
    spec_directives,
};
use crate::program::Program;
use crate::rules::{
    contains_code,
    find_duplicate_code,
    has_code,
    rule_codes,
    sort_rules,
    sort_rules_by_priority,
    unique_codes,
    lemma_registry_order_independent,
    LintRule,
};

verus! {

/// Default name of the directive that ignores a whole file.
pub const DEFAULT_IGNORE_FILE_DIRECTIVE: &'static str = "deno-lint-ignore-file";

/// Default name of the directive that ignores the next line.
pub const DEFAULT_IGNORE_DIAGNOSTIC_DIRECTIVE: &'static str = "deno-lint-ignore";

/// Why a linter could not be built.
#[derive(Debug)]
pub enum LinterError {
    /// Two rules share this code.
    DuplicateRuleCode(String),
}

/// Collects the settings of a `Linter`.
pub struct LinterBuilder<R> {
    ignore_file_directive: String,
    ignore_diagnostic_directive: String,
    rules: Vec<R>,
}

impl<R> LinterBuilder<R> {
    pub closed spec fn spec_ignore_file_directive(&self) -> Seq<char> {
        self.ignore_file_directive@
    }

    pub closed spec fn spec_ignore_diagnostic_directive(&self) -> Seq<char> {
        self.ignore_diagnostic_directive@
    }

    pub closed spec fn spec_rules(&self) -> Seq<R> {
        self.rules@
    }
}

impl<R> Default for LinterBuilder<R> {
    fn default() -> (r: Self)
        ensures
            r.spec_ignore_file_directive() == DEFAULT_IGNORE_FILE_DIRECTIVE@,
            r.spec_ignore_diagnostic_directive() == DEFAULT_IGNORE_DIAGNOSTIC_DIRECTIVE@,
            r.spec_rules().len() == 0,
    {
        LinterBuilder {
            ignore_file_directive: DEFAULT_IGNORE_FILE_DIRECTIVE.to_owned(),
            ignore_diagnostic_directive: DEFAULT_IGNORE_DIAGNOSTIC_DIRECTIVE.to_owned(),
            rules: Vec::new(),
        }
    }
}

impl<R: LintRule> LinterBuilder<R> {
    /// Builds the linter. Fails when two rules give the same code.
    pub fn build(self) -> (r: Result<Linter<R>, LinterError>)
        ensures
            r is Ok <==> unique_codes(self.spec_rules()),
            r matches Ok(l) ==> l.spec_ctx().configured(
                self.spec_ignore_file_directive(),
                self.spec_ignore_diagnostic_directive(),
                self.spec_rules(),
            ),
    {
        Linter::new(self.ignore_file_directive, self.ignore_diagnostic_directive, self.rules)
    }

    /// Sets the name of the directive that ignores a whole file.
    pub fn ignore_file_directive(self, directive: &str) -> (r: Self)
        ensures
            r.spec_ignore_file_directive() == directive@,
            r.spec_ignore_diagnostic_directive() == self.spec_ignore_diagnostic_directive(),
            r.spec_rules() == self.spec_rules(),
    {
        LinterBuilder { ignore_file_directive: directive.to_owned(), ..self }
    }

    /// Sets the name of the directive that ignores the next line.
    pub fn ignore_diagnostic_directive(self, directive: &str) -> (r: Self)
        ensures
            r.spec_ignore_file_directive() == self.spec_ignore_file_directive(),
            r.spec_ignore_diagnostic_directive() == directive@,
            r.spec_rules() == self.spec_rules(),
    {
        LinterBuilder { ignore_diagnostic_directive: directive.to_owned(), ..self }
    }

    /// Sets the rules to run.
    pub fn rules(self, rules: Vec<R>) -> (r: Self)
        ensures
            r.spec_ignore_file_directive() == self.spec_ignore_file_directive(),
            r.spec_ignore_diagnostic_directive() == self.spec_ignore_diagnostic_directive(),
            r.spec_rules() == rules@,
    {
        LinterBuilder { rules, ..self }
    }
}

/// The configuration of a linter: directive names, rules in registry order,
/// and whether the two reconciliation checks are on.
pub struct LinterContext<R> {
    pub ignore_file_directive: String,
    pub ignore_diagnostic_directive: String,
    pub check_unknown_rules: bool,
    pub check_unused_ignores: bool,
    /// Rules in registry order.
    pub rules: Vec<R>,
}

impl<R: LintRule> LinterContext<R> {
    /// This configuration was built from these directive names and entries.
    pub open spec fn configured(
        self,
        file_directive: Seq<char>,
        line_directive: Seq<char>,
        es: Seq<R>,
    ) -> bool {
        &&& self.ignore_file_directive@ == file_directive
        &&& self.ignore_diagnostic_directive@ == line_directive
        &&& self.rules@ == sort_rules(es)
        &&& self.wf()
    }

    /// The two check flags say whether a rule with the check's code is
    /// registered.
    pub open spec fn wf(self) -> bool {
        &&& self.check_unknown_rules == has_code(self.rules@, unknown_code())
        &&& self.check_unused_ignores == has_code(self.rules@, unused_code())
    }

    /// The codes of the rules, in registry order.
    pub open spec fn codes(self) -> Seq<Seq<char>> {
        self.rules@.map_values(|x: R| x.spec_code())
    }

    /// What reconciliation makes of a context: the diagnostics no directive
    /// covers, the unknown-code and unused-directive diagnostics where those
    /// checks are on, all sorted by line.
    pub open spec fn collect(self, c: ContextView) -> Seq<DiagnosticView> {
        let unknown = if self.check_unknown_rules {
            unknown_diagnostics(self.codes(), c.diagnostics)
        } else {
            Seq::empty()
        };
        let unused = if self.check_unused_ignores {
            spec_unused(c)
        } else {
            Seq::empty()
        };
        sort_by_line(survivors(c, c.diagnostics) + unknown + unused)
    }

    /// What linting `program` in the file `file_name` gives: nothing when a
    /// file directive names no code; otherwise what the rules report, in
    /// registry order, reconciled with the file's directives.
    pub open spec fn lint_result(self, file_name: Seq<char>, program: Program) -> Seq<
        DiagnosticView,
    > {
        let file_ignores = spec_directives(self.ignore_file_directive@, program.comments@);
        if spec_any_ignores_all(file_ignores) {
            Seq::empty()
        } else {
            self.collect(
                ContextView {
                    file_name,
                    file_ignores,
                    line_ignores: spec_directives(
                        self.ignore_diagnostic_directive@,
                        program.comments@,
                    ),
                    diagnostics: rules_reports(self.rules@, file_name, program),
                },
            )
        }
    }

    /// Orders the rules and checks their codes. Fails when two rules share a
    /// code.
    pub fn new(
        ignore_file_directive: String,
        ignore_diagnostic_directive: String,
        rules: Vec<R>,
    ) -> (r: Result<Self, LinterError>)
        ensures
            r is Ok <==> unique_codes(rules@),
            r matches Err(LinterError::DuplicateRuleCode(c)) ==> exists|i: int, j: int|
                #![trigger rules@[i], rules@[j]]
                0 <= i < j < rules@.len() && rules@[i].spec_code() == c@ && rules@[j].spec_code()
                    == c@,
            r matches Ok(ctx) ==> ctx.configured(
                ignore_file_directive@,
                ignore_diagnostic_directive@,
                rules@,
            ),
    {
        match find_duplicate_code(&rules) {
            Some(i) => {
                return Err(LinterError::DuplicateRuleCode(rules[i].code().to_owned()));
            },
            None => {},
        }
        let rules = sort_rules_by_priority(rules);
        let check_unknown_rules = contains_code(&rules, UNKNOWN_RULE_CODE);
        let check_unused_ignores = contains_code(&rules, UNUSED_IGNORE_CODE);
        Ok(
            LinterContext {
                ignore_file_directive,
                ignore_diagnostic_directive,
                check_unknown_rules,
                check_unused_ignores,
                rules,
            },
        )
    }
}

/// A line directive that names one code, on the line before a diagnostic,
/// suppresses that diagnostic exactly when the code is the diagnostic's own.
pub proof fn lemma_line_directive_scope(c: ContextView, code: Seq<char>)
    requires
        c.file_ignores.len() == 0,
        c.line_ignores.len() == 1,
        c.line_ignores[0].codes == seq![code],
        c.diagnostics.len() == 1,
        c.diagnostics[0].range.start.line_index == c.line_ignores[0].range.start.line_index + 1,
    ensures
        survivors(c, c.diagnostics) == (if c.diagnostics[0].code == code {
            Seq::<DiagnosticView>::empty()
        } else {
            c.diagnostics
        }),
{
    let x = c.diagnostics[0];
    let d = c.line_ignores[0];
    assert(c.diagnostics.drop_last() =~= Seq::<DiagnosticView>::empty());
    assert(survivors(c, c.diagnostics.drop_last()) == Seq::<DiagnosticView>::empty());
    assert(c.diagnostics.last() == x);
    if x.code == code {
        assert(d.codes[0] == code);
        assert(covers(d, false, x));
        assert(is_suppressed(c, x));
    } else {
        assert(!d.codes.contains(x.code)) by {
            if d.codes.contains(x.code) {
                let k = choose|k: int| 0 <= k < d.codes.len() && d.codes[k] == x.code;
                assert(k == 0);
            }
        }
        assert(!is_suppressed(c, x));
        assert(seq![x] =~= c.diagnostics);
    }
}

/// A directive that covers none of a file's diagnostics gives exactly one
/// diagnostic, at the directive, when the unused-directive check is on, and
/// none when it is off.
pub proof fn lemma_unused_directive<R: LintRule>(cfg: LinterContext<R>, c: ContextView)
    requires
        c.diagnostics.len() == 0,
        c.file_ignores.len() + c.line_ignores.len() == 1,
    ensures
        cfg.collect(c) == (if cfg.check_unused_ignores {
            seq![
                unused_diagnostic(
                    c.file_name,
                    if c.file_ignores.len() == 1 {
                        c.file_ignores[0].range
                    } else {
                        c.line_ignores[0].range
                    },
                ),
            ]
        } else {
            Seq::<DiagnosticView>::empty()
        }),
{
    let e = Seq::<DiagnosticView>::empty();
    assert(survivors(c, c.diagnostics) == e);
    assert(unknown_diagnostics(cfg.codes(), c.diagnostics) == e);
    let ds = if c.file_ignores.len() == 1 {
        c.file_ignores
    } else {
        c.line_ignores
    };
    let other = if c.file_ignores.len() == 1 {
        c.line_ignores
    } else {
        c.file_ignores
    };
    let fl = c.file_ignores.len() == 1;
    assert(ds.drop_last() =~= Seq::<DirectiveView>::empty());
    assert(unused_diagnostics(c.file_name, ds.drop_last(), fl, c.diagnostics) == e);
    assert(ds.last() == ds[0]);
    assert(!is_used(ds[0], fl, c.diagnostics));
    assert(other.len() == 0);
    assert(unused_diagnostics(c.file_name, other, !fl, c.diagnostics) == e);
    let u = unused_diagnostic(c.file_name, ds[0].range);
    assert(unused_diagnostics(c.file_name, ds, fl, c.diagnostics) == e.push(u));
    if fl {
        assert(spec_unused(c) =~= seq![u]);
    } else {
        assert(spec_unused(c) =~= seq![u]);
    }
    if cfg.check_unused_ignores {
        assert(e + (if cfg.check_unknown_rules {
            unknown_diagnostics(cfg.codes(), c.diagnostics)
        } else {
            e
        }) + seq![u] =~= seq![u]);
        assert(seq![u].drop_last() =~= e);
        assert(sort_by_line(e) == e);
        assert(sort_by_line(seq![u]) =~= seq![u]);
    } else {
        assert(e + (if cfg.check_unknown_rules {
            unknown_diagnostics(cfg.codes(), c.diagnostics)
        } else {
            e
        }) + e =~= e);
    }
}

/// A diagnostic whose code is unknown, with the unknown-code check on, is
/// kept, and one more diagnostic at its range names its code.
pub proof fn lemma_unknown_code_reported<R: LintRule>(cfg: LinterContext<R>, c: ContextView)
    requires
        c.file_ignores.len() == 0,
        c.line_ignores.len() == 0,
        c.diagnostics.len() == 1,
        !is_known(cfg.codes(), c.diagnostics[0].code),
        cfg.check_unknown_rules,
    ensures
        cfg.collect(c) == seq![c.diagnostics[0], unknown_diagnostic(c.diagnostics[0])],
{
    let e = Seq::<DiagnosticView>::empty();
    let x = c.diagnostics[0];
    let u = unknown_diagnostic(x);
    assert(c.diagnostics.drop_last() =~= e);
    assert(survivors(c, c.diagnostics.drop_last()) == e);
    assert(unknown_diagnostics(cfg.codes(), c.diagnostics.drop_last()) == e);
    assert(c.diagnostics.last() == x);
    assert(!is_suppressed(c, x));
    assert(survivors(c, c.diagnostics) =~= seq![x]);
    assert(unknown_diagnostics(cfg.codes(), c.diagnostics) =~= seq![u]);
    assert(unused_diagnostics(c.file_name, c.file_ignores, true, c.diagnostics) == e);
    assert(unused_diagnostics(c.file_name, c.line_ignores, false, c.diagnostics) == e);
    assert(spec_unused(c) =~= e);
    let all = seq![x] + seq![u] + (if cfg.check_unused_ignores {
        spec_unused(c)
    } else {
        e
    });
    assert(all =~= seq![x, u]);
    assert(all.drop_last() =~= seq![x]);
    assert(seq![x].drop_last() =~= e);
    assert(sort_by_line(e) == e);
    assert(line_insert_pos(e, x) == 0);
    assert(sort_by_line(seq![x]) =~= seq![x]);
    assert(line_insert_pos(seq![x], u) == 1);
    assert(sort_by_line(all) =~= seq![x, u]);
}

/// What the rules `rs` report for `program` in the file `file_name`, one
/// rule after another, in order.
pub open spec fn rules_reports<R: LintRule>(rs: Seq<R>, file_name: Seq<char>, program: Program) -> Seq<
    DiagnosticView,
>
    decreases rs.len(),
{
    if rs.len() == 0 {
        Seq::empty()
    } else {
        rules_reports(rs.drop_last(), file_name, program) + rs.last().spec_reports(
            file_name,
            program,
        )
    }
}

/// Linting does not depend on the order in which rules were registered: two
/// configurations built with the same directive names from two arrangements
/// of the same rules with distinct codes lint every file alike.
pub proof fn lemma_lint_independent_of_registration<R: LintRule>(
    cfg1: LinterContext<R>,
    cfg2: LinterContext<R>,
    file_directive: Seq<char>,
    line_directive: Seq<char>,
    a: Seq<R>,
    b: Seq<R>,
    file_name: Seq<char>,
    program: Program,
)
    requires
        cfg1.configured(file_directive, line_directive, a),
        cfg2.configured(file_directive, line_directive, b),
        a.to_multiset() == b.to_multiset(),
        unique_codes(a),
        unique_codes(b),
    ensures
        cfg1.rules@ == cfg2.rules@,
        cfg1.lint_result(file_name, program) == cfg2.lint_result(file_name, program),
{
    lemma_registry_order_independent(a, b);
    assert(cfg1.codes() == cfg2.codes());
}

/// A linter: a configuration shared by reference between the files it lints.
pub struct Linter<R: LintRule> {
    ctx: Arc<LinterContext<R>>,
}

impl<R: LintRule> Linter<R> {
    pub closed spec fn spec_ctx(&self) -> LinterContext<R> {
        *self.ctx
    }

    /// The check flags always agree with the registered rules.
    #[verifier::type_invariant]
    spec fn inv(&self) -> bool {
        (*self.ctx).wf()
    }
}

/// Relies on `Arc::clone`: another handle to the same value.
#[verifier::external_body]
fn share<T>(a: &Arc<T>) -> (r: Arc<T>)
    ensures
        r == *a,
{
    Arc::clone(a)
}

impl<R: LintRule> Clone for Linter<R> {
    /// Another handle to the same configuration.
    fn clone(&self) -> Self {
        proof {
            use_type_invariant(self);
        }
        Linter { ctx: share(&self.ctx) }
    }
}

impl<R: LintRule> Linter<R> {
    /// Builds a linter from directive names and registered rules. Fails when
    /// two rules share a code.
    pub fn new(
        ignore_file_directive: String,
        ignore_diagnostic_directive: String,
        rules: Vec<R>,
    ) -> (r: Result<Self, LinterError>)
        ensures
            r is Ok <==> unique_codes(rules@),
            r matches Ok(l) ==> l.spec_ctx().configured(
                ignore_file_directive@,
                ignore_diagnostic_directive@,
                rules@,
            ),
    {
        match LinterContext::new(ignore_file_directive, ignore_diagnostic_directive, rules) {
            Ok(ctx) => Ok(Linter { ctx: Arc::new(ctx) }),
            Err(e) => Err(e),
        }
    }

    /// The configuration.
    pub fn context(&self) -> (r: &LinterContext<R>)
        ensures
            *r == self.spec_ctx(),
            r.wf(),
    {
        proof {
            use_type_invariant(self);
        }
        &*self.ctx
    }

    /// Reconciles what the rules reported with the file's directives and the
    /// two checks, and sorts the result by line.
    pub fn collect_diagnostics(&self, context: Context) -> (r: Vec<LintDiagnostic>)
        ensures
            views(r@) == self.spec_ctx().collect(context@),
    {
        let ctx = &*self.ctx;
        let mut diagnostics = context.check_ignore_directive_usage();
        let ghost kept = views(diagnostics@);
        if ctx.check_unknown_rules {
            let codes = rule_codes(&ctx.rules);
            let mut unknown = context.ban_unknown_rule_code(&codes);
            diagnostics.append(&mut unknown);
        }
        let ghost with_unknown = views(diagnostics@);
        assert(with_unknown =~= kept + (if ctx.check_unknown_rules {
            unknown_diagnostics(ctx.codes(), context@.diagnostics)
        } else {
            Seq::empty()
        }));
        if ctx.check_unused_ignores {
            let mut unused = context.ban_unused_ignore();
            diagnostics.append(&mut unused);
        }
        assert(views(diagnostics@) =~= with_unknown + (if ctx.check_unused_ignores {
            spec_unused(context@)
        } else {
            Seq::empty()
        }));
        sort_diagnostics_by_line(diagnostics)
    }

    /// Lints one parsed file: see `LinterContext::lint_result`.
    pub fn lint_with_ast(&self, file_name: &str, program: &Program) -> (r: Vec<LintDiagnostic>)
        ensures
            views(r@) == self.spec_ctx().lint_result(file_name@, *program),
    {
        let ctx = &*self.ctx;
        let file_ignores = parse_ignore_directives(
            ctx.ignore_file_directive.as_str(),
            &program.comments,
        );
        if any_ignores_all(&file_ignores) {
            let r: Vec<LintDiagnostic> = Vec::new();
            assert(views(r@) =~= Seq::<DiagnosticView>::empty());
            return r;
        }
        let mut context = Context::new(
            file_name.to_owned(),
            program,
            ctx.ignore_diagnostic_directive.as_str(),
            file_ignores,
        );
        let ghost start = context@;
        assert(start.file_name == file_name@);
        assert(start.diagnostics =~= rules_reports(ctx.rules@.take(0), file_name@, *program));
        let mut i: usize = 0;
        while i < ctx.rules.len()
            invariant
                i <= ctx.rules@.len(),
                start.file_name == file_name@,
                context@ == (ContextView {
                    diagnostics: rules_reports(ctx.rules@.take(i as int), file_name@, *program),
                    ..start
                }),
            decreases ctx.rules@.len() - i,
        {
            assert(ctx.rules@.take(i as int + 1).drop_last() == ctx.rules@.take(i as int));
            assert(ctx.rules@.take(i as int + 1).last() == ctx.rules@[i as int]);
            let ghost before = context@;
            let rule = &ctx.rules[i];
            rule.lint_program_with_ast_view(&mut context, program);
            assert(context@.diagnostics == before.diagnostics + rule.spec_reports(
                before.file_name,
                *program,
            ));
            assert(*rule == ctx.rules@[i as int]);
            let ghost next = ctx.rules@.take(i as int + 1);
            assert(rules_reports(next, file_name@, *program) == rules_reports(
                next.drop_last(),
                file_name@,
                *program,
            ) + next.last().spec_reports(file_name@, *program));
            assert(context@.diagnostics =~= rules_reports(
                ctx.rules@.take(i as int + 1),
                file_name@,
                *program,
            ));
            i = i + 1;
        }
        assert(ctx.rules@.take(ctx.rules@.len() as int) == ctx.rules@);
        let r = self.collect_diagnostics(context);
        r
    }
}

} // verus!
