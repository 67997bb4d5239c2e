//! The rule interface, and the registry order of rules: by priority, then by
//! code.
use vstd::prelude::*;
use crate::context::{Context, ContextView, UNKNOWN_RULE_CODE, UNUSED_IGNORE_CODE};
use crate::diagnostic::DiagnosticView;
use crate::program::Program;
use crate::text::chars_of;

verus! {

/// An analysis rule: a unique code, tags, a priority (lower runs first) and a
/// pass over a program that reports into the file's context.
pub trait LintRule {
    /// The rule's code.
    spec fn spec_code(&self) -> Seq<char>;

    /// The rule's priority.
    spec fn spec_priority(&self) -> u8;

    /// What the rule reports for `program` in the file `file_name`, in order.
    spec fn spec_reports(&self, file_name: Seq<char>, program: Program) -> Seq<DiagnosticView>;

    fn code(&self) -> (r: &'static str)
        ensures
            r@ == self.spec_code(),
    ;

    fn tags(&self) -> Vec<&'static str>;

    fn priority(&self) -> (r: u8)
        ensures
            r == self.spec_priority(),
    ;

    /// Appends what the rule finds in `program` to the context; the file and
    /// its directives stay as they were.
    fn lint_program_with_ast_view(&self, context: &mut Context, program: &Program)
        ensures
            final(context)@ == (ContextView {
                diagnostics: old(context)@.diagnostics + self.spec_reports(
                    old(context)@.file_name,
                    *program,
                ),
                ..old(context)@
            }),
    ;
}

/// Lexical order on codes: by character, a proper prefix first.
pub open spec fn code_lt(a: Seq<char>, b: Seq<char>) -> bool
    decreases a.len(),
{
    if a.len() == 0 {
        b.len() > 0
    } else if b.len() == 0 {
        false
    } else if a[0] != b[0] {
        a[0] < b[0]
    } else {
        code_lt(a.drop_first(), b.drop_first())
    }
}

/// Registry order: lower priority first, then lower code.
pub open spec fn rule_lt<R: LintRule>(a: R, b: R) -> bool {
    a.spec_priority() < b.spec_priority() || (a.spec_priority() == b.spec_priority() && code_lt(a.spec_code(), b.spec_code()))
}

/// Where `x` goes in the ordered `s`: before the run at its end that comes
/// after `x`.
pub open spec fn rule_insert_pos<R: LintRule>(s: Seq<R>, x: R) -> int
    decreases s.len(),
{
    if s.len() == 0 {
        0
    } else if rule_lt(x, s.last()) {
        rule_insert_pos(s.drop_last(), x)
    } else {
        s.len() as int
    }
}

/// `s` in registry order.
pub open spec fn sort_rules<R: LintRule>(s: Seq<R>) -> Seq<R>
    decreases s.len(),
{
    if s.len() == 0 {
        Seq::empty()
    } else {
        let r = sort_rules(s.drop_last());
        r.insert(rule_insert_pos(r, s.last()), s.last())
    }
}

/// No two rules of `s` share a code.
pub open spec fn unique_codes<R: LintRule>(s: Seq<R>) -> bool {
    forall|i: int, j: int| 0 <= i < j < s.len() ==> s[i].spec_code() != s[j].spec_code()
}

/// Some rule of `s` has `code`.
pub open spec fn has_code<R: LintRule>(s: Seq<R>, code: Seq<char>) -> bool {
    exists|i: int| 0 <= i < s.len() && (#[trigger] s[i]).spec_code() == code
}

proof fn lemma_code_lt_irreflexive(a: Seq<char>)
    ensures
        !code_lt(a, a),
    decreases a.len(),
{
    if a.len() > 0 {
        lemma_code_lt_irreflexive(a.drop_first());
    }
}

proof fn lemma_code_lt_asymmetric(a: Seq<char>, b: Seq<char>)
    ensures
        code_lt(a, b) ==> !code_lt(b, a),
    decreases a.len(),
{
    if a.len() > 0 && b.len() > 0 && a[0] == b[0] {
        lemma_code_lt_asymmetric(a.drop_first(), b.drop_first());
    }
}

proof fn lemma_code_lt_total(a: Seq<char>, b: Seq<char>)
    ensures
        a != b ==> code_lt(a, b) || code_lt(b, a),
    decreases a.len(),
{
    if a.len() > 0 && b.len() > 0 && a[0] == b[0] {
        lemma_code_lt_total(a.drop_first(), b.drop_first());
        if a.drop_first() == b.drop_first() {
            assert(a =~= seq![a[0]] + a.drop_first());
            assert(b =~= seq![b[0]] + b.drop_first());
        }
    } else if a.len() > 0 && b.len() > 0 {
    } else if a.len() == 0 && b.len() == 0 {
        assert(a =~= b);
    }
}

proof fn lemma_code_lt_transitive(a: Seq<char>, b: Seq<char>, c: Seq<char>)
    ensures
        code_lt(a, b) && code_lt(b, c) ==> code_lt(a, c),
    decreases a.len(),
{
    if a.len() > 0 && b.len() > 0 && c.len() > 0 && a[0] == b[0] && b[0] == c[0] {
        lemma_code_lt_transitive(a.drop_first(), b.drop_first(), c.drop_first());
    }
}

proof fn lemma_rule_lt_order<R: LintRule>(x: R, y: R, z: R)
    ensures
        !rule_lt(x, x),
        rule_lt(x, y) ==> !rule_lt(y, x),
        x.spec_code() != y.spec_code() ==> rule_lt(x, y) || rule_lt(y, x),
        rule_lt(x, y) && rule_lt(y, z) ==> rule_lt(x, z),
{
    lemma_code_lt_irreflexive(x.spec_code());
    lemma_code_lt_asymmetric(x.spec_code(), y.spec_code());
    lemma_code_lt_total(x.spec_code(), y.spec_code());
    lemma_code_lt_transitive(x.spec_code(), y.spec_code(), z.spec_code());
}

/// Strictly increasing in registry order.
pub open spec fn strictly_ordered<R: LintRule>(s: Seq<R>) -> bool {
    forall|i: int, j: int| 0 <= i < j < s.len() ==> rule_lt(#[trigger] s[i], #[trigger] s[j])
}

proof fn lemma_insert_pos<R: LintRule>(r: Seq<R>, x: R)
    ensures
        0 <= rule_insert_pos(r, x) <= r.len(),
        forall|k: int| rule_insert_pos(r, x) <= k < r.len() ==> rule_lt(x, #[trigger] r[k]),
        rule_insert_pos(r, x) > 0 ==> !rule_lt(x, r[rule_insert_pos(r, x) - 1]),
    decreases r.len(),
{
    if r.len() > 0 && rule_lt(x, r.last()) {
        let q = r.drop_last();
        lemma_insert_pos(q, x);
        let p = rule_insert_pos(q, x);
        assert forall|k: int| p <= k < r.len() implies rule_lt(x, #[trigger] r[k]) by {
            if k < q.len() {
                assert(q[k] == r[k]);
            }
        }
        if p > 0 {
            assert(q[p - 1] == r[p - 1]);
        }
    }
}

proof fn lemma_sort_rules<R: LintRule>(s: Seq<R>)
    ensures
        sort_rules(s).to_multiset() == s.to_multiset(),
        unique_codes(s) ==> strictly_ordered(sort_rules(s)),
    decreases s.len(),
{
    broadcast use vstd::seq_lib::group_to_multiset_ensures;

    if s.len() > 0 {
        let pre = s.drop_last();
        let x = s.last();
        let r = sort_rules(pre);
        lemma_sort_rules(pre);
        lemma_insert_pos(r, x);
        let p = rule_insert_pos(r, x);
        let out = r.insert(p, x);
        assert(s =~= pre.push(x));
        if unique_codes(s) {
            assert(unique_codes(pre));
            assert forall|k: int| 0 <= k < r.len() implies (#[trigger] r[k]).spec_code() != x.spec_code() by {
                assert(r.contains(r[k]));
                assert(r.to_multiset().count(r[k]) > 0);
                assert(pre.contains(r[k]));
                let m = choose|m: int| 0 <= m < pre.len() && pre[m] == r[k];
                assert(s[m] == r[k] && s[s.len() - 1] == x);
            }
            assert forall|k: int| 0 <= k < p implies rule_lt(#[trigger] r[k], x) by {
                lemma_rule_lt_order(r[p - 1], x, x);
                lemma_rule_lt_order(r[k], r[p - 1], x);
            }
            assert forall|i: int, j: int| 0 <= i < j < out.len() implies rule_lt(
                #[trigger] out[i],
                #[trigger] out[j],
            ) by {
                if j < p {
                } else if j == p {
                } else if i < p {
                    lemma_rule_lt_order(r[i], x, r[j - 1]);
                } else if i == p {
                } else {
                }
            }
        }
    }
}

proof fn lemma_ordered_unique<R: LintRule>(x: Seq<R>, y: Seq<R>)
    requires
        strictly_ordered(x),
        strictly_ordered(y),
        x.to_multiset() == y.to_multiset(),
    ensures
        x == y,
    decreases x.len(),
{
    broadcast use vstd::seq_lib::group_to_multiset_ensures;

    vstd::seq_lib::to_multiset_len(x);
    vstd::seq_lib::to_multiset_len(y);
    assert(x.len() == y.len());
    if x.len() > 0 {
        assert(x.contains(x[0]));
        assert(y.to_multiset().count(x[0]) > 0);
        let k = choose|k: int| 0 <= k < y.len() && y[k] == x[0];
        assert(y.contains(y[0]));
        assert(x.to_multiset().count(y[0]) > 0);
        let m = choose|m: int| 0 <= m < x.len() && x[m] == y[0];
        lemma_rule_lt_order(x[0], y[0], x[0]);
        if k > 0 {
            assert(rule_lt(y[0], y[k]));
            if m > 0 {
                assert(rule_lt(x[0], x[m]));
            }
        }
        assert(x[0] == y[0]);
        assert(x.remove(0) =~= x.drop_first());
        assert(y.remove(0) =~= y.drop_first());
        assert(x.remove(0).to_multiset() == y.remove(0).to_multiset());
        assert(strictly_ordered(x.drop_first()));
        assert(strictly_ordered(y.drop_first()));
        lemma_ordered_unique(x.drop_first(), y.drop_first());
        assert forall|i: int| 0 <= i < x.len() implies x[i] == y[i] by {
            if i > 0 {
                assert(x.drop_first()[i - 1] == y.drop_first()[i - 1]);
            }
        }
        assert(x =~= y);
    }
}

/// The registry order does not depend on the order in which rules are
/// registered: two arrangements of the same rules with distinct codes are
/// put in the same order.
pub proof fn lemma_registry_order_independent<R: LintRule>(a: Seq<R>, b: Seq<R>)
    requires
        a.to_multiset() == b.to_multiset(),
        unique_codes(a),
        unique_codes(b),
    ensures
        sort_rules(a) == sort_rules(b),
        strictly_ordered(sort_rules(a)),
{
    lemma_sort_rules(a);
    lemma_sort_rules(b);
    lemma_ordered_unique(sort_rules(a), sort_rules(b));
}

/// Compares two codes in lexical order.
pub fn code_less(a: &str, b: &str) -> (r: bool)
    ensures
        r == code_lt(a@, b@),
{
    let ac = chars_of(a);
    let bc = chars_of(b);
    let mut k: usize = 0;
    assert(ac@.skip(0) == ac@ && bc@.skip(0) == bc@);
    while k < ac.len() && k < bc.len()
        invariant
            k <= ac@.len(),
            k <= bc@.len(),
            ac@ == a@,
            bc@ == b@,
            code_lt(a@, b@) == code_lt(ac@.skip(k as int), bc@.skip(k as int)),
        decreases ac@.len() - k,
    {
        if ac[k] != bc[k] {
            return ac[k] < bc[k];
        }
        assert(ac@.skip(k as int).drop_first() == ac@.skip(k as int + 1));
        assert(bc@.skip(k as int).drop_first() == bc@.skip(k as int + 1));
        k = k + 1;
    }
    k == ac.len() && k < bc.len()
}

fn rule_less<R: LintRule>(a: &R, b: &R) -> (r: bool)
    ensures
        r == rule_lt(*a, *b),
{
    a.priority() < b.priority() || (a.priority() == b.priority() && code_less(a.code(), b.code()))
}

/// Puts the rules in registry order.
pub fn sort_rules_by_priority<R: LintRule>(rules: Vec<R>) -> (r: Vec<R>)
    ensures
        r@ == sort_rules(rules@),
{
    let ghost orig = rules@;
    let mut rest = rules;
    let mut out: Vec<R> = Vec::new();
    let mut i: usize = 0;
    let n = rest.len();
    while i < n
        invariant
            i <= n,
            n == orig.len(),
            rest@ == orig.skip(i as int),
            out@ == sort_rules(orig.take(i as int)),
        decreases n - i,
    {
        let x = rest.remove(0);
        assert(rest@ =~= orig.skip(i as int + 1));
        let ghost sorted = out@;
        let mut j: usize = out.len();
        assert(sorted.take(j as int) == sorted);
        while j > 0 && rule_less(&x, &out[j - 1])
            invariant
                j <= out@.len(),
                sorted == out@,
                rule_insert_pos(sorted, x) == rule_insert_pos(sorted.take(j as int), x),
            decreases j,
        {
            assert(sorted.take(j as int).drop_last() == sorted.take(j as int - 1));
            j = j - 1;
        }
        proof {
            if j > 0 {
                assert(sorted.take(j as int).last() == sorted[j - 1]);
            }
            assert(sorted.take(0) == Seq::<R>::empty());
        }
        out.insert(j, x);
        assert(orig.take(i as int + 1).drop_last() == orig.take(i as int));
        i = i + 1;
    }
    assert(orig.take(n as int) == orig);
    out
}

/// The index of a rule whose code a later rule has too, if there is one.
pub fn find_duplicate_code<R: LintRule>(rules: &Vec<R>) -> (r: Option<usize>)
    ensures
        r is None <==> unique_codes(rules@),
        r matches Some(i) ==> i < rules@.len() && exists|j: int|
            i < j < rules@.len() && #[trigger] rules@[j].spec_code() == rules@[i as int].spec_code(),
{
    let mut i: usize = 0;
    while i < rules.len()
        invariant
            i <= rules@.len(),
            forall|a: int, b: int|
                0 <= a < i && a < b < rules@.len() ==> rules@[a].spec_code() != rules@[b].spec_code(),
        decreases rules@.len() - i,
    {
        let mut j: usize = i + 1;
        while j < rules.len()
            invariant
                i < rules@.len(),
                i + 1 <= j <= rules@.len(),
                forall|a: int, b: int|
                    0 <= a < i && a < b < rules@.len() ==> rules@[a].spec_code() != rules@[b].spec_code(),
                forall|b: int| i < b < j ==> rules@[i as int].spec_code() != #[trigger] rules@[b].spec_code(),
            decreases rules@.len() - j,
        {
            if rules[i].code().to_owned() == rules[j].code().to_owned() {
                return Some(i);
            }
            j = j + 1;
        }
        i = i + 1;
    }
    None
}

/// Tells whether some rule has `code`.
pub fn contains_code<R: LintRule>(rules: &Vec<R>, code: &str) -> (r: bool)
    ensures
        r == has_code(rules@, code@),
{
    let c = code.to_owned();
    let mut i: usize = 0;
    while i < rules.len()
        invariant
            i <= rules@.len(),
            c@ == code@,
            forall|k: int| 0 <= k < i ==> (#[trigger] rules@[k]).spec_code() != code@,
        decreases rules@.len() - i,
    {
        if rules[i].code().to_owned() == c {
            return true;
        }
        i = i + 1;
    }
    false
}

/// The codes of the rules, in order.
pub fn rule_codes<R: LintRule>(rules: &Vec<R>) -> (r: Vec<String>)
    ensures
        r.deep_view() == rules@.map_values(|x: R| x.spec_code()),
{
    let mut out: Vec<String> = Vec::new();
    let mut i: usize = 0;
    while i < rules.len()
        invariant
            i <= rules@.len(),
            out@.len() == i,
            forall|k: int| 0 <= k < i ==> (#[trigger] out@[k])@ == rules@[k].spec_code(),
        decreases rules@.len() - i,
    {
        out.push(rules[i].code().to_owned());
        i = i + 1;
    }
    assert(out.deep_view() =~= rules@.map_values(|x: R| x.spec_code()));
    out
}

/// Enables the report of diagnostics whose code no registered rule has.
#[derive(Debug, Clone, Copy)]
pub struct BanUnknownRuleCode;

/// Enables the report of ignore directives that suppressed nothing.
#[derive(Debug, Clone, Copy)]
pub struct BanUnusedIgnore;

impl LintRule for BanUnknownRuleCode {
    open spec fn spec_code(&self) -> Seq<char> {
        UNKNOWN_RULE_CODE@
    }

    open spec fn spec_priority(&self) -> u8 {
        0
    }

    /// It reports nothing itself: reconciliation does the work.
    open spec fn spec_reports(&self, file_name: Seq<char>, program: Program) -> Seq<DiagnosticView> {
        Seq::empty()
    }

    fn code(&self) -> &'static str {
        UNKNOWN_RULE_CODE
    }

    fn tags(&self) -> Vec<&'static str> {
        vec!["recommended"]
    }

    fn priority(&self) -> u8 {
        0
    }

    fn lint_program_with_ast_view(&self, context: &mut Context, program: &Program) {
        assert(context@.diagnostics + Seq::<DiagnosticView>::empty() =~= context@.diagnostics);
    }
}

impl LintRule for BanUnusedIgnore {
    open spec fn spec_code(&self) -> Seq<char> {
        UNUSED_IGNORE_CODE@
    }

    open spec fn spec_priority(&self) -> u8 {
        0
    }

    /// It reports nothing itself: reconciliation does the work.
    open spec fn spec_reports(&self, file_name: Seq<char>, program: Program) -> Seq<DiagnosticView> {
        Seq::empty()
    }

    fn code(&self) -> &'static str {
        UNUSED_IGNORE_CODE
    }

    fn tags(&self) -> Vec<&'static str> {
        vec!["recommended"]
    }

    fn priority(&self) -> u8 {
        0
    }

    fn lint_program_with_ast_view(&self, context: &mut Context, program: &Program) {
        assert(context@.diagnostics + Seq::<DiagnosticView>::empty() =~= context@.diagnostics);
    }
}

} // verus!
