//! The message markup: bracketed elements with a closed list of tags become
//! HTML tags, everything else becomes escaped text.

use vstd::prelude::*;
use vstd::string::*;
use vstd::utf8::*;
use vstd::std_specs::iter::IteratorSpec;
use std::borrow::Cow;
use crate::escape::{
    escape, escape_char, escape_text, is_inert, lemma_escape_is_inert, lemma_escape_single,
    lemma_inert_concat,
};
use crate::text::{
    contains_char, is_white_space, is_whitespace, lemma_cut_is_longest_prefix, lemma_prefix_len,
    prefix_len, split_after, split_first, utf8_width, lemma_encode_concat, lemma_encode_single,
};

verus! {

/// The characters of an element's body: all but the closing bracket.
pub open spec fn until_close() -> spec_fn(char) -> bool {
    |c: char| c != ']'
}

/// The characters of an element's tag: all but white space.
pub open spec fn until_space() -> spec_fn(char) -> bool {
    |c: char| !is_white_space(c)
}

/// The tag of an element: its body up to the first white space.
pub open spec fn element_tag(body: Seq<char>) -> Seq<char> {
    body.take(prefix_len(body, until_space()) as int)
}

/// The arguments of an element: its body from the first white space on.
pub open spec fn element_args(body: Seq<char>) -> Seq<char> {
    body.skip(prefix_len(body, until_space()) as int)
}

/// The closed list of tags: `a`, `b`, `i` and their closing forms.
pub open spec fn is_allowed_tag(tag: Seq<char>) -> bool {
    ||| tag == seq!['a']
    ||| tag == seq!['b']
    ||| tag == seq!['i']
    ||| tag == seq!['/', 'a']
    ||| tag == seq!['/', 'b']
    ||| tag == seq!['/', 'i']
}

/// An element is valid when its tag is on the list and its arguments open no
/// further element.
pub open spec fn is_valid_element(body: Seq<char>) -> bool {
    is_allowed_tag(element_tag(body)) && !element_args(body).contains('[')
}

/// For the text `t` behind an opening bracket: how long the element's body is.
pub open spec fn body_len(t: Seq<char>) -> nat {
    prefix_len(t, until_close())
}

/// For the text `t` behind an opening bracket: whether a closing bracket follows.
pub open spec fn is_closed(t: Seq<char>) -> bool {
    body_len(t) < t.len()
}

/// For the text `t` behind an opening bracket: the element's body, which is
/// all of `t` where no closing bracket follows.
pub open spec fn element_body(t: Seq<char>) -> Seq<char> {
    t.take(body_len(t) as int)
}

/// For the text `t` behind an opening bracket: what the element contributes
/// to the output. A closed, valid element becomes a tag around its body as it
/// stands; any other becomes its escaped body, without brackets.
pub open spec fn element_output(t: Seq<char>) -> Seq<char> {
    let body = element_body(t);
    if is_closed(t) && is_valid_element(body) {
        seq!['<'] + body + seq!['>']
    } else {
        escape(body)
    }
}

/// For the text `t` behind an opening bracket: what is left to scan behind
/// the element.
pub open spec fn element_rest(t: Seq<char>) -> Seq<char> {
    if is_closed(t) {
        t.skip(body_len(t) as int + 1)
    } else {
        Seq::empty()
    }
}

/// The sanitised form of a raw message.
pub open spec fn sanitized(s: Seq<char>) -> Seq<char>
    decreases s.len(),
{
    if s.len() == 0 {
        Seq::empty()
    } else if s[0] == '[' {
        element_output(s.drop_first()) + sanitized(element_rest(s.drop_first()))
    } else if s[0] == ']' {
        sanitized(s.drop_first())
    } else {
        escape_char(s[0]) + sanitized(s.drop_first())
    }
}

/// Whether the scan of `s` meets an element that becomes a tag.
pub open spec fn has_valid_element(s: Seq<char>) -> bool
    decreases s.len(),
{
    if s.len() == 0 {
        false
    } else if s[0] == '[' {
        let t = s.drop_first();
        (is_closed(t) && is_valid_element(element_body(t))) || has_valid_element(element_rest(t))
    } else {
        has_valid_element(s.drop_first())
    }
}

/// A message in which no element becomes a tag is sanitised to inert text:
/// whatever its brackets hold, the output has no `<`, `>`, `"` or `'`.
pub proof fn lemma_no_tag_no_markup(s: Seq<char>)
    requires
        !has_valid_element(s),
    ensures
        is_inert(sanitized(s)),
    decreases s.len(),
{
    if s.len() > 0 {
        if s[0] == '[' {
            let t = s.drop_first();
            lemma_prefix_len(t, until_close());
            lemma_no_tag_no_markup(element_rest(t));
            lemma_escape_is_inert(element_body(t));
            lemma_inert_concat(element_output(t), sanitized(element_rest(t)));
        } else {
            lemma_no_tag_no_markup(s.drop_first());
            if s[0] != ']' {
                lemma_inert_concat(escape_char(s[0]), sanitized(s.drop_first()));
            }
        }
    }
}

/// A text without brackets is sanitised by escaping it character by character.
pub proof fn lemma_text_without_brackets(s: Seq<char>)
    requires
        forall|i: int| 0 <= i < s.len() ==> s[i] != '[' && s[i] != ']',
    ensures
        sanitized(s) == escape(s),
    decreases s.len(),
{
    if s.len() > 0 {
        let t = s.drop_first();
        assert forall|i: int| 0 <= i < t.len() implies t[i] != '[' && t[i] != ']' by {
            assert(t[i] == s[i + 1]);
        }
        lemma_text_without_brackets(t);
    }
}

/// Splits `x` in two: the longest prefix on whose characters `f` returns
/// `true`, and the rest, which starts at the first character `f` refuses.
/// For an `f` that computes a predicate, `lemma_cut_is_longest_prefix` says
/// where the cut lies.
pub fn str_split_at_while<'a>(x: &'a str, f: impl Fn(char) -> bool) -> (r: (&'a str, &'a str))
    requires
        forall|i: int| 0 <= i < x@.len() ==> call_requires(f, (#[trigger] x@[i],)),
    ensures
        r.0@ + r.1@ == x@,
        forall|i: int| 0 <= i < r.0@.len() ==> call_ensures(f, (#[trigger] r.0@[i],), true),
        r.1@.len() > 0 ==> call_ensures(f, (r.1@[0],), false),
{
    broadcast use group_string_axioms;
    let total: usize = x.as_bytes().len();
    let mut it = x.chars();
    let mut mid: usize = 0;
    let ghost mut k: int = 0;
    proof {
        assert(x@.take(0) == Seq::<char>::empty());
    }
    loop
        invariant_except_break
            it.remaining() == x@.skip(k),
        invariant
            0 <= k <= x@.len(),
            mid == encode_utf8(x@.take(k)).len(),
            total == encode_utf8(x@).len(),
            forall|i: int| 0 <= i < x@.len() ==> call_requires(f, (#[trigger] x@[i],)),
            forall|i: int| 0 <= i < k ==> call_ensures(f, (#[trigger] x@[i],), true),
        ensures
            0 <= k <= x@.len(),
            mid == encode_utf8(x@.take(k)).len(),
            forall|i: int| 0 <= i < k ==> call_ensures(f, (#[trigger] x@[i],), true),
            k < x@.len() ==> call_ensures(f, (x@[k],), false),
        decreases x@.len() - k,
    {
        match it.next() {
            None => {
                break ;
            },
            Some(c) => {
                assert(c == x@[k]);
                if !f(c) {
                    break ;
                }
                let w: usize = utf8_width(c);
                proof {
                    assert(x@.take(k + 1) == x@.take(k) + seq![c]);
                    lemma_encode_concat(x@.take(k), seq![c]);
                    lemma_encode_single(c);
                    assert(x@ == x@.take(k + 1) + x@.skip(k + 1));
                    lemma_encode_concat(x@.take(k + 1), x@.skip(k + 1));
                    assert(x@.skip(k).drop_first() == x@.skip(k + 1));
                    k = k + 1;
                }
                mid = mid + w;
            },
        }
    }
    let r = split_after(x, mid, Ghost(k));
    proof {
        assert(x@.take(k) + x@.skip(k) == x@);
    }
    r
}

/// Whether `tag` is on the closed list of tags.
pub fn is_allowed(tag: &str) -> (r: bool)
    ensures
        r == is_allowed_tag(tag@),
{
    match split_first(tag) {
        None => false,
        Some((c0, _, t1)) => match split_first(t1) {
            None => {
                assert(tag@ =~= seq![c0]);
                c0 == 'a' || c0 == 'b' || c0 == 'i'
            },
            Some((c1, _, t2)) => {
                let short = t2.is_empty();
                proof {
                    if short {
                        assert(tag@ =~= seq![c0, c1]);
                    } else {
                        assert(tag@.len() >= 3);
                    }
                    assert(tag@[0] == c0 && tag@[1] == c1);
                }
                short && c0 == '/' && (c1 == 'a' || c1 == 'b' || c1 == 'i')
            },
        },
    }
}

/// What `parse_element` found: the output for one element, and the input
/// that is left behind it.
#[derive(Debug, Clone, PartialEq, Eq)]
pub struct NPResult<'a> {
    pub parsed: String,
    pub rest: &'a str,
}

/// Reads the element that `input` starts with. Where `input` does not start
/// with an opening bracket, nothing is read and all of it is left.
pub fn parse_element<'a>(input: &'a str) -> (r: NPResult<'a>)
    ensures
        input@.len() > 0 && input@[0] == '[' ==> r.parsed@ == element_output(input@.drop_first())
            && r.rest@ == element_rest(input@.drop_first()),
        !(input@.len() > 0 && input@[0] == '[') ==> r.parsed@ == Seq::<char>::empty() && r.rest@
            == input@,
{
    if let Some((open, _, t)) = split_first(input) {
        if open == '[' {
            let not_close = |x: char| -> (b: bool)
                ensures
                    b == (x != ']'),
                { x != ']' };
            let (fi, se) = str_split_at_while(t, not_close);
            proof {
                lemma_cut_is_longest_prefix(t@, fi@, se@, until_close());
            }
            return match split_first(se) {
                None => NPResult { parsed: escape_text(fi), rest: se },
                Some((_, _, after)) => {
                    proof {
                        assert(after@ =~= t@.skip(fi@.len() as int + 1));
                    }
                    let not_space = |x: char| -> (b: bool)
                        ensures
                            b == !is_white_space(x),
                        { !is_whitespace(x) };
                    let (cmd, args) = str_split_at_while(fi, not_space);
                    proof {
                        lemma_cut_is_longest_prefix(fi@, cmd@, args@, until_space());
                    }
                    let parsed = if is_allowed(cmd) && !contains_char(args, '[') {
                        proof {
                            reveal_strlit("<");
                            reveal_strlit(">");
                            assert("<"@ =~= seq!['<']);
                            assert(">"@ =~= seq!['>']);
                        }
                        let mut acc = String::from_str("<");
                        acc.append(fi);
                        acc.append(">");
                        acc
                    } else {
                        escape_text(fi)
                    };
                    NPResult { parsed, rest: after }
                },
            };
        }
    }
    NPResult { parsed: String::new(), rest: input }
}

/// Turns a raw message into HTML that is safe to store and to show: text is
/// escaped character by character, an element with a listed tag becomes that
/// tag, any other element becomes its escaped body, and a closing bracket
/// that closes nothing is left out.
pub fn preprocess_msg<'a>(input: &'a str) -> (r: Cow<'a, str>)
    ensures
        r@ == sanitized(input@),
{
    let mut ret = String::new();
    let mut input: &str = input;
    let ghost whole = input@;
    proof {
        assert(ret@ + sanitized(input@) == sanitized(whole));
    }
    loop
        invariant
            ret@ + sanitized(input@) == sanitized(whole),
        ensures
            ret@ == sanitized(whole),
        decreases input@.len(),
    {
        match split_first(input) {
            None => {
                proof {
                    assert(ret@ + Seq::<char>::empty() == ret@);
                }
                break ;
            },
            Some((x, head, tail)) => {
                let ghost before = ret@;
                let ghost cur = input@;
                if x == '[' {
                    let r = parse_element(input);
                    proof {
                        lemma_prefix_len(cur.drop_first(), until_close());
                    }
                    ret.append(r.parsed.as_str());
                    input = r.rest;
                } else if x == ']' {
                    input = tail;
                } else {
                    let piece = escape_text(head);
                    proof {
                        lemma_escape_single(x);
                    }
                    ret.append(piece.as_str());
                    input = tail;
                }
                proof {
                    assert(sanitized(cur) == (ret@.skip(before.len() as int)) + sanitized(input@));
                    assert(ret@ + sanitized(input@) == before + ((ret@.skip(before.len() as int))
                        + sanitized(input@)));
                }
            },
        }
    }
    Cow::Owned(ret)
}

} // verus!
