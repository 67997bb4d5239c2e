//! Ignore directives: comments that suppress diagnostics for a whole file or
//! for the line that follows them.
use vstd::prelude::*;
use crate::diagnostic::Range;
use crate::program::Comment;
use crate::text::{split_whitespace, split_ws};

verus! {

/// A directive found in a comment: where the comment is, and the codes it
/// names (none means every code).
#[derive(Debug)]
pub struct IgnoreDirective {
    pub range: Range,
    pub codes: Vec<String>,
}

pub ghost struct DirectiveView {
    pub range: Range,
    pub codes: Seq<Seq<char>>,
}

impl View for IgnoreDirective {
    type V = DirectiveView;

    open spec fn view(&self) -> DirectiveView {
        DirectiveView { range: self.range, codes: self.codes.deep_view() }
    }
}

pub open spec fn directive_views(ds: Seq<IgnoreDirective>) -> Seq<DirectiveView> {
    ds.map_values(|d: IgnoreDirective| d@)
}

impl DirectiveView {
    /// The directive names no code, so it covers every code.
    pub open spec fn ignores_all(self) -> bool {
        self.codes.len() == 0
    }

    /// The directive covers diagnostics with this code.
    pub open spec fn covers_code(self, code: Seq<char>) -> bool {
        self.ignores_all() || self.codes.contains(code)
    }
}

/// What a comment with this text at this range declares for the directive
/// `name`: its first token must be `name`, the tokens after it are codes.
pub open spec fn spec_parse_comment(name: Seq<char>, text: Seq<char>, range: Range) -> Option<
    DirectiveView,
> {
    let toks = split_ws(text);
    if toks.len() > 0 && toks[0] == name {
        Some(DirectiveView { range, codes: toks.drop_first() })
    } else {
        None
    }
}

/// The directives `name` among the comments, in order.
pub open spec fn spec_directives(name: Seq<char>, cs: Seq<Comment>) -> Seq<DirectiveView>
    decreases cs.len(),
{
    if cs.len() == 0 {
        Seq::empty()
    } else {
        let rest = spec_directives(name, cs.drop_last());
        match spec_parse_comment(name, cs.last().text@, cs.last().range) {
            Some(d) => rest.push(d),
            None => rest,
        }
    }
}

/// Some directive in `ds` names no code.
pub open spec fn spec_any_ignores_all(ds: Seq<DirectiveView>) -> bool {
    exists|i: int| 0 <= i < ds.len() && (#[trigger] ds[i]).ignores_all()
}

/// Reads the directive `name` from one comment, if it holds one.
pub fn parse_ignore_comment(name: &str, comment: &Comment) -> (r: Option<IgnoreDirective>)
    ensures
        match r {
            Some(d) => spec_parse_comment(name@, comment.text@, comment.range) == Some(d@),
            None => spec_parse_comment(name@, comment.text@, comment.range) is None,
        },
{
    let mut toks = split_whitespace(comment.text.as_str());
    let ghost all = split_ws(comment.text@);
    if toks.len() == 0 {
        return None;
    }
    let first = toks.remove(0);
    let name_s = name.to_owned();
    if first != name_s {
        return None;
    }
    let d = IgnoreDirective { range: comment.range, codes: toks };
    assert(d@.codes =~= all.drop_first());
    Some(d)
}

/// Collects the directives `name` from the comments, in order.
pub fn parse_ignore_directives(name: &str, comments: &Vec<Comment>) -> (r: Vec<IgnoreDirective>)
    ensures
        directive_views(r@) == spec_directives(name@, comments@),
{
    let mut out: Vec<IgnoreDirective> = Vec::new();
    let mut i: usize = 0;
    while i < comments.len()
        invariant
            i <= comments@.len(),
            directive_views(out@) == spec_directives(name@, comments@.take(i as int)),
        decreases comments@.len() - i,
    {
        assert(comments@.take(i as int + 1).drop_last() == comments@.take(i as int));
        match parse_ignore_comment(name, &comments[i]) {
            Some(d) => {
                out.push(d);
                assert(directive_views(out@) =~= spec_directives(
                    name@,
                    comments@.take(i as int),
                ).push(out@.last()@));
            },
            None => {},
        }
        i = i + 1;
    }
    assert(comments@.take(comments@.len() as int) == comments@);
    out
}

/// Tells whether some directive names no code.
pub fn any_ignores_all(ds: &Vec<IgnoreDirective>) -> (r: bool)
    ensures
        r == spec_any_ignores_all(directive_views(ds@)),
{
    let mut i: usize = 0;
    while i < ds.len()
        invariant
            i <= ds@.len(),
            forall|k: int| 0 <= k < i ==> !(#[trigger] directive_views(ds@)[k]).ignores_all(),
        decreases ds@.len() - i,
    {
        if ds[i].codes.len() == 0 {
            assert(directive_views(ds@)[i as int].ignores_all());
            return true;
        }
        i = i + 1;
    }
    false
}

} // verus!
