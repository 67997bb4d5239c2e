//! Character-level helpers shared by the directive parser and the rules.
use vstd::prelude::*;
use vstd::std_specs::iter::IteratorSpec;

verus! {

/// Text as the contracts see it: a sequence of characters.
pub type Text = Seq<char>;

/// Whitespace as `char::is_whitespace` defines it (the Unicode White_Space
/// property).
pub open spec fn spec_is_space(c: char) -> bool {
    let u = c as u32;
    (0x09 <= u && u <= 0x0d) || u == 0x20 || u == 0x85 || u == 0xa0 || u == 0x1680
        || (0x2000 <= u && u <= 0x200a) || u == 0x2028 || u == 0x2029 || u == 0x202f
        || u == 0x205f || u == 0x3000
}

pub fn is_space(c: char) -> (r: bool)
    ensures
        r == spec_is_space(c),
{
    let u = c as u32;
    (0x09 <= u && u <= 0x0d) || u == 0x20 || u == 0x85 || u == 0xa0 || u == 0x1680 || (0x2000
        <= u && u <= 0x200a) || u == 0x2028 || u == 0x2029 || u == 0x202f || u == 0x205f || u
        == 0x3000
}

/// The whitespace-separated tokens of `s`, left to right.
pub open spec fn split_ws(s: Seq<char>) -> Seq<Seq<char>>
    decreases s.len(),
{
    if s.len() == 0 {
        Seq::empty()
    } else {
        let rest = split_ws(s.drop_last());
        let c = s.last();
        if spec_is_space(c) {
            rest
        } else if s.len() >= 2 && !spec_is_space(s[s.len() - 2]) {
            rest.update(rest.len() - 1, rest.last().push(c))
        } else {
            rest.push(seq![c])
        }
    }
}

/// The characters of `s`, in order.
pub fn chars_of(s: &str) -> (r: Vec<char>)
    ensures
        r@ == s@,
{
    broadcast use vstd::string::axiom_spec_iter, vstd::string::next_postcondition;

    let mut it = s.chars();
    let mut out: Vec<char> = Vec::new();
    let mut done = false;
    while !done
        invariant
            it.obeys_prophetic_iter_laws(),
            !done ==> out@ + it.remaining() == s@,
            done ==> out@ == s@,
            out@.len() <= s@.len(),
        decreases s@.len() - out@.len() + (if done {
            0int
        } else {
            1int
        }),
    {
        let ghost before = it.remaining();
        match it.next() {
            Some(c) => {
                out.push(c);
                assert(out@ + it.remaining() =~= s@);
            },
            None => {
                assert(out@ + before =~= out@);
                done = true;
            },
        }
    }
    out
}

/// Relies on `String::from_iter`: the string made of the given characters.
#[verifier::external_body]
pub(crate) fn string_of(cs: &Vec<char>) -> (r: String)
    ensures
        r@ == cs@,
{
    cs.iter().collect()
}

/// Splits `s` into its whitespace-separated tokens.
pub fn split_whitespace(s: &str) -> (r: Vec<String>)
    ensures
        r@.len() == split_ws(s@).len(),
        forall|i: int| 0 <= i < r@.len() ==> #[trigger] r@[i]@ == split_ws(s@)[i],
{
    let cs = chars_of(s);
    let mut done: Vec<String> = Vec::new();
    let mut cur: Vec<char> = Vec::new();
    let ghost done_v: Seq<Seq<char>> = Seq::empty();
    let mut i: usize = 0;
    while i < cs.len()
        invariant
            0 <= i <= cs@.len(),
            cs@ == s@,
            done@.len() == done_v.len(),
            forall|k: int| 0 <= k < done@.len() ==> #[trigger] done@[k]@ == done_v[k],
            cur@.len() == 0 ==> split_ws(cs@.take(i as int)) == done_v,
            cur@.len() > 0 ==> split_ws(cs@.take(i as int)) == done_v.push(cur@),
            cur@.len() > 0 ==> i > 0 && !spec_is_space(cs@[i - 1]),
            cur@.len() == 0 ==> i == 0 || spec_is_space(cs@[i - 1]),
        decreases cs@.len() - i,
    {
        let c = cs[i];
        let ghost t = cs@.take(i as int + 1);
        assert(t.drop_last() == cs@.take(i as int));
        if is_space(c) {
            if cur.len() > 0 {
                let w = string_of(&cur);
                done.push(w);
                proof {
                    done_v = done_v.push(cur@);
                }
                cur = Vec::new();
            }
        } else {
            let ghost prev = cur@;
            cur.push(c);
            assert(t.last() == c);
            proof {
                if prev.len() == 0 {
                    assert(cur@ == seq![c]);
                } else {
                    assert(t[t.len() - 2] == cs@[i - 1]);
                }
            }
        }
        i = i + 1;
    }
    if cur.len() > 0 {
        let w = string_of(&cur);
        done.push(w);
        proof {
            done_v = done_v.push(cur@);
        }
    }
    assert(cs@.take(cs@.len() as int) == cs@);
    done
}

} // verus!
