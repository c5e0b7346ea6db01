//! Minimal HTML escaping of plain text.

use vstd::prelude::*;

verus! {

/// What one character becomes in escaped text: the five characters that
/// carry meaning in HTML become entities, every other character stays.
pub open spec fn escape_char(c: char) -> Seq<char> {
    if c == '"' {
        seq!['&', 'q', 'u', 'o', 't', ';']
    } else if c == '&' {
        seq!['&', 'a', 'm', 'p', ';']
    } else if c == '\'' {
        seq!['&', '#', 'x', '2', '7', ';']
    } else if c == '<' {
        seq!['&', 'l', 't', ';']
    } else if c == '>' {
        seq!['&', 'g', 't', ';']
    } else {
        seq![c]
    }
}

/// The escaped form of a text: each character's escaped form, in order.
pub open spec fn escape(s: Seq<char>) -> Seq<char>
    decreases s.len(),
{
    if s.len() == 0 {
        Seq::empty()
    } else {
        escape_char(s[0]) + escape(s.drop_first())
    }
}

/// Escaping a single character gives that character's escaped form.
pub proof fn lemma_escape_single(c: char)
    ensures
        escape(seq![c]) == escape_char(c),
{
    reveal_with_fuel(escape, 2);
    assert(seq![c].drop_first() == Seq::<char>::empty());
    assert(escape_char(c) + Seq::<char>::empty() == escape_char(c));
}

/// A text that holds none of `<`, `>`, `"` and `'`: HTML reads it as
/// text, never as markup.
pub open spec fn is_inert(s: Seq<char>) -> bool {
    forall|i: int|
        0 <= i < s.len() ==> {
            let c = #[trigger] s[i];
            c != '<' && c != '>' && c != '"' && c != '\''
        }
}

/// Two inert texts joined are inert.
pub proof fn lemma_inert_concat(a: Seq<char>, b: Seq<char>)
    requires
        is_inert(a),
        is_inert(b),
    ensures
        is_inert(a + b),
{
    assert forall|i: int| 0 <= i < (a + b).len() implies {
        let c = #[trigger] (a + b)[i];
        c != '<' && c != '>' && c != '"' && c != '\''
    } by {
        if i < a.len() {
            assert((a + b)[i] == a[i]);
        } else {
            assert((a + b)[i] == b[i - a.len()]);
        }
    }
}

/// Escaped text is inert, whatever was escaped.
pub proof fn lemma_escape_is_inert(s: Seq<char>)
    ensures
        is_inert(escape(s)),
    decreases s.len(),
{
    if s.len() > 0 {
        lemma_escape_is_inert(s.drop_first());
        lemma_inert_concat(escape_char(s[0]), escape(s.drop_first()));
    }
}

/// `htmlescape::encode_minimal`: walks the characters of `s`, writes the
/// entity for each of `"`, `&`, `'`, `<` and `>`, and every other character
/// as it is. Believed, not proved.
#[verifier::external_body]
fn encode_minimal(s: &str) -> (r: String)
    ensures
        r@ == escape(s@),
{
    htmlescape::encode_minimal(s)
}

/// Escapes a plain text, such as a user's name, for use inside HTML.
pub fn escape_text(s: &str) -> (r: String)
    ensures
        r@ == escape(s@),
{
    encode_minimal(s)
}

} // verus!
