//! String slicing on character boundaries, stated over sequences of `char`.

use vstd::prelude::*;
use vstd::utf8::*;
use vstd::string::*;
use vstd::std_specs::iter::IteratorSpec;

verus! {

/// Encoding a concatenation gives the concatenation of the encodings.
pub proof fn lemma_encode_concat(a: Seq<char>, b: Seq<char>)
    ensures
        encode_utf8(a + b) == encode_utf8(a) + encode_utf8(b),
    decreases a.len(),
{
    if a.len() == 0 {
        assert(a + b == b);
        assert(encode_utf8(a) + encode_utf8(b) == encode_utf8(b));
    } else {
        lemma_encode_concat(a.drop_first(), b);
        assert((a + b).drop_first() == a.drop_first() + b);
        assert((a + b)[0] == a[0]);
        let head = encode_scalar(a[0] as u32);
        assert(head + (encode_utf8(a.drop_first()) + encode_utf8(b)) == (head + encode_utf8(
            a.drop_first(),
        )) + encode_utf8(b));
    }
}

/// The number of bytes that `c` takes in UTF-8.
pub fn utf8_width(c: char) -> (n: usize)
    ensures
        n == encode_scalar(c as u32).len(),
        1 <= n <= 4,
{
    let v: u32 = c as u32;
    if v < 0x80 {
        1
    } else if v < 0x800 {
        2
    } else if v < 0x10000 {
        3
    } else {
        4
    }
}

/// The first character of `s`, if it has one.
pub fn first_char(s: &str) -> (r: Option<char>)
    ensures
        r == (if s@.len() == 0 { None } else { Some(s@[0]) }),
{
    broadcast use group_string_axioms;
    let mut it = s.chars();
    it.next()
}

/// A single character encodes to its own scalar's bytes.
pub proof fn lemma_encode_single(c: char)
    ensures
        encode_utf8(seq![c]) == encode_scalar(c as u32),
{
    reveal_with_fuel(encode_utf8, 2);
    assert(seq![c].drop_first() == Seq::<char>::empty());
    assert(encode_scalar(c as u32) + Seq::<u8>::empty() == encode_scalar(c as u32));
}

/// The end of an encoded prefix is a character boundary of the whole encoding.
pub proof fn lemma_prefix_boundary(a: Seq<char>, b: Seq<char>)
    ensures
        is_char_boundary(encode_utf8(a + b), encode_utf8(a).len() as int),
    decreases a.len(),
{
    broadcast use encode_utf8_valid_utf8;
    let bytes = encode_utf8(a + b);
    if a.len() > 0 {
        lemma_encode_concat(a, b);
        lemma_encode_concat(a.drop_first(), b);
        lemma_prefix_boundary(a.drop_first(), b);
        encode_utf8_first_scalar(a + b);
        assert((a + b).drop_first() == a.drop_first() + b);
        assert((a + b)[0] == a[0]);
        assert(pop_first_scalar(bytes) == encode_utf8(a.drop_first() + b));
    }
}

/// Splits `s` after its first `k` characters, which take `mid` bytes.
pub(crate) fn split_after<'a>(s: &'a str, mid: usize, Ghost(k): Ghost<int>) -> (r: (&'a str, &'a str))
    requires
        0 <= k <= s@.len(),
        mid == encode_utf8(s@.take(k)).len(),
    ensures
        r.0@ == s@.take(k),
        r.1@ == s@.skip(k),
{
    proof {
        broadcast use encode_utf8_decode_utf8;
        assert(s@ == s@.take(k) + s@.skip(k));
        lemma_encode_concat(s@.take(k), s@.skip(k));
        lemma_prefix_boundary(s@.take(k), s@.skip(k));
    }
    let r = s.split_at(mid);
    proof {
        broadcast use encode_utf8_decode_utf8;
        assert(r.0.spec_bytes() == encode_utf8(s@.take(k)));
        assert(r.1.spec_bytes() == encode_utf8(s@.skip(k)));
        assert(decode_utf8(encode_utf8(r.0@)) == r.0@);
        assert(decode_utf8(encode_utf8(r.1@)) == r.1@);
    }
    r
}

/// How many leading characters of `s` satisfy `p`.
pub open spec fn prefix_len(s: Seq<char>, p: spec_fn(char) -> bool) -> nat
    decreases s.len(),
{
    if s.len() > 0 && p(s[0]) {
        1 + prefix_len(s.drop_first(), p)
    } else {
        0
    }
}

/// The prefix counted by `prefix_len` lies within `s`, every character of it
/// satisfies `p`, and the character after it, if any, does not.
pub proof fn lemma_prefix_len(s: Seq<char>, p: spec_fn(char) -> bool)
    ensures
        prefix_len(s, p) <= s.len(),
        forall|i: int| 0 <= i < prefix_len(s, p) ==> p(#[trigger] s[i]),
        prefix_len(s, p) < s.len() ==> !p(s[prefix_len(s, p) as int]),
    decreases s.len(),
{
    if s.len() > 0 && p(s[0]) {
        let t = s.drop_first();
        lemma_prefix_len(t, p);
        assert forall|i: int| 0 <= i < prefix_len(s, p) implies p(#[trigger] s[i]) by {
            if i > 0 {
                assert(s[i] == t[i - 1]);
            }
        }
        if prefix_len(s, p) < s.len() {
            assert(s[prefix_len(s, p) as int] == t[prefix_len(t, p) as int]);
        }
    }
}

/// A cut of `s` after `k` characters that all satisfy `p`, with a character
/// that fails `p` (or nothing) behind it, is the cut at `prefix_len`.
pub proof fn lemma_prefix_len_unique(s: Seq<char>, p: spec_fn(char) -> bool, k: int)
    requires
        0 <= k <= s.len(),
        forall|i: int| 0 <= i < k ==> p(#[trigger] s[i]),
        k < s.len() ==> !p(s[k]),
    ensures
        prefix_len(s, p) == k,
    decreases s.len(),
{
    if k > 0 {
        let t = s.drop_first();
        assert(p(s[0]));
        assert forall|i: int| 0 <= i < k - 1 implies p(#[trigger] t[i]) by {
            assert(t[i] == s[i + 1]);
        }
        if k - 1 < t.len() {
            assert(t[k - 1] == s[k]);
        }
        lemma_prefix_len_unique(t, p, k - 1);
    }
}

/// A text cut in two, with `p` true of every character of the first part
/// and false of the first character of the second, is cut behind its
/// longest prefix of characters that satisfy `p`.
pub proof fn lemma_cut_is_longest_prefix(
    s: Seq<char>,
    a: Seq<char>,
    b: Seq<char>,
    p: spec_fn(char) -> bool,
)
    requires
        a + b == s,
        forall|i: int| 0 <= i < a.len() ==> p(#[trigger] a[i]),
        b.len() > 0 ==> !p(b[0]),
    ensures
        a.len() == prefix_len(s, p),
        a == s.take(prefix_len(s, p) as int),
        b == s.skip(prefix_len(s, p) as int),
{
    let k = a.len() as int;
    assert forall|i: int| 0 <= i < k implies p(#[trigger] s[i]) by {
        assert(s[i] == a[i]);
    }
    if k < s.len() {
        assert(s[k] == b[0]);
    }
    lemma_prefix_len_unique(s, p, k);
    assert(a =~= s.take(k));
    assert(b =~= s.skip(k));
}

/// Takes the first character off `s`: the character, the slice that holds
/// just that character, and the slice behind it.
pub fn split_first<'a>(s: &'a str) -> (r: Option<(char, &'a str, &'a str)>)
    ensures
        s@.len() == 0 <==> r is None,
        r matches Some((c, head, tail)) ==> c == s@[0] && head@ == seq![c] && tail@
            == s@.drop_first(),
{
    match first_char(s) {
        None => None,
        Some(c) => {
            let w: usize = utf8_width(c);
            proof {
                assert(s@.take(1) == seq![c]);
                lemma_encode_single(c);
            }
            let (head, tail) = split_after(s, w, Ghost(1));
            proof {
                assert(s@.skip(1) == s@.drop_first());
            }
            Some((c, head, tail))
        },
    }
}

/// The characters with Unicode's White_Space property.
pub open spec fn is_white_space(c: char) -> bool {
    let v = c as u32;
    ||| 0x09 <= v <= 0x0D
    ||| v == 0x20
    ||| v == 0x85
    ||| v == 0xA0
    ||| v == 0x1680
    ||| 0x2000 <= v <= 0x200A
    ||| v == 0x2028
    ||| v == 0x2029
    ||| v == 0x202F
    ||| v == 0x205F
    ||| v == 0x3000
}

/// Whether `c` is white space.
pub fn is_whitespace(c: char) -> (r: bool)
    ensures
        r == is_white_space(c),
{
    let v: u32 = c as u32;
    (0x09 <= v && v <= 0x0D) || v == 0x20 || v == 0x85 || v == 0xA0 || v == 0x1680 || (0x2000
        <= v && v <= 0x200A) || v == 0x2028 || v == 0x2029 || v == 0x202F || v == 0x205F || v
        == 0x3000
}

/// `std::str::from_utf8`: gives the bytes as a string slice where they are
/// well-formed UTF-8, and an error, here `None`, where they are not.
/// Believed, not proved.
#[verifier::external_body]
fn from_utf8(bytes: &[u8]) -> (r: Option<&str>)
    ensures
        r is Some <==> valid_utf8(bytes@),
        r matches Some(s) ==> s.spec_bytes() == bytes@,
{
    std::str::from_utf8(bytes).ok()
}

/// Reads bytes as text: the characters they encode, or `None` where the
/// bytes are not well-formed UTF-8.
pub fn decode(bytes: &[u8]) -> (r: Option<&str>)
    ensures
        r is Some <==> valid_utf8(bytes@),
        r matches Some(s) ==> s@ == decode_utf8(bytes@),
{
    let r = from_utf8(bytes);
    proof {
        broadcast use encode_utf8_decode_utf8;
        if let Some(s) = r {
            assert(decode_utf8(encode_utf8(s@)) == s@);
        }
    }
    r
}

/// Whether `c` occurs in `s`.
pub fn contains_char(s: &str, c: char) -> (r: bool)
    ensures
        r == s@.contains(c),
{
    broadcast use group_string_axioms;
    let mut it = s.chars();
    let mut found = false;
    let ghost mut k: int = 0;
    loop
        invariant_except_break
            it.remaining() == s@.skip(k),
            !found,
        invariant
            0 <= k <= s@.len(),
            forall|i: int| 0 <= i < k ==> s@[i] != c,
        ensures
            found ==> k < s@.len() && s@[k] == c,
            !found ==> k == s@.len(),
        decreases s@.len() - k,
    {
        match it.next() {
            None => {
                break ;
            },
            Some(d) => {
                assert(d == s@[k]);
                if d == c {
                    found = true;
                    break ;
                }
                proof {
                    assert(s@.skip(k).drop_first() == s@.skip(k + 1));
                    k = k + 1;
                }
            },
        }
    }
    found
}

/// What is left of `s` behind `prefix`, or `None` where `s` does not start
/// with `prefix`.
pub fn strip_prefix<'a>(s: &'a str, prefix: &str) -> (r: Option<&'a str>)
    ensures
        r is Some <==> prefix@.is_prefix_of(s@),
        r matches Some(rest) ==> rest@ == s@.skip(prefix@.len() as int),
{
    let mut rest: &str = s;
    let mut want: &str = prefix;
    let ghost mut k: int = 0;
    loop
        invariant
            0 <= k <= s@.len(),
            k <= prefix@.len(),
            rest@ == s@.skip(k),
            want@ == prefix@.skip(k),
            s@.take(k) == prefix@.take(k),
        decreases prefix@.len() - k,
    {
        match split_first(want) {
            None => {
                proof {
                    assert(prefix@.take(k) == prefix@);
                }
                return Some(rest);
            },
            Some((pc, _, pt)) => {
                assert(pc == prefix@[k]);
                match split_first(rest) {
                    None => {
                        return None;
                    },
                    Some((sc, _, st)) => {
                        assert(sc == s@[k]);
                        if sc != pc {
                            return None;
                        }
                        proof {
                            assert(s@.skip(k).drop_first() == s@.skip(k + 1));
                            assert(prefix@.skip(k).drop_first() == prefix@.skip(k + 1));
                            assert(s@.take(k + 1) == s@.take(k).push(sc));
                            assert(prefix@.take(k + 1) == prefix@.take(k).push(pc));
                            k = k + 1;
                        }
                        rest = st;
                        want = pt;
                    },
                }
            },
        }
    }
}

/// Whether `s` starts with `prefix`.
pub fn starts_with(s: &str, prefix: &str) -> (r: bool)
    ensures
        r == prefix@.is_prefix_of(s@),
{
    strip_prefix(s, prefix).is_some()
}

/// Whether two texts are the same.
pub fn str_eq(a: &str, b: &str) -> (r: bool)
    ensures
        r == (a@ == b@),
{
    match strip_prefix(a, b) {
        None => false,
        Some(rest) => {
            let r = rest.is_empty();
            proof {
                if r {
                    assert(a@ =~= b@);
                }
            }
            r
        },
    }
}

/// How many trailing characters of `s` equal `c`.
pub open spec fn trailing(s: Seq<char>, c: char) -> nat
    decreases s.len(),
{
    if s.len() > 0 && s.last() == c {
        1 + trailing(s.drop_last(), c)
    } else {
        0
    }
}

/// `s` without the characters equal to `c` at its end.
pub open spec fn trimmed_end(s: Seq<char>, c: char) -> Seq<char> {
    s.take(s.len() - trailing(s, c))
}

/// The test for being the character `c`.
pub open spec fn is_char(c: char) -> spec_fn(char) -> bool {
    |x: char| x == c
}

/// `s` without the characters equal to `c` at its start.
pub open spec fn trimmed_start(s: Seq<char>, c: char) -> Seq<char> {
    s.skip(prefix_len(s, is_char(c)) as int)
}

/// A cut before a run of `c` that reaches the end of `s`, with another
/// character (or nothing) before it, is the cut that `trimmed_end` makes.
pub proof fn lemma_trailing_unique(s: Seq<char>, c: char, k: int)
    requires
        0 <= k <= s.len(),
        forall|i: int| k <= i < s.len() ==> s[i] == c,
        k > 0 ==> s[k - 1] != c,
    ensures
        trailing(s, c) == s.len() - k,
    decreases s.len(),
{
    if k < s.len() {
        let t = s.drop_last();
        assert(s.last() == c);
        assert forall|i: int| k <= i < t.len() implies t[i] == c by {
            assert(t[i] == s[i]);
        }
        if k > 0 {
            assert(t[k - 1] == s[k - 1]);
        }
        lemma_trailing_unique(t, c, k);
    }
}

/// `s` without the characters equal to `c` at its end.
pub fn trim_end_char<'a>(s: &'a str, c: char) -> (r: &'a str)
    ensures
        r@ == trimmed_end(s@, c),
{
    broadcast use group_string_axioms;
    let total: usize = s.as_bytes().len();
    let mut it = s.chars();
    let mut mid: usize = 0;
    let mut end: usize = 0;
    let ghost mut k: int = 0;
    let ghost mut e: int = 0;
    proof {
        assert(s@.take(0) == Seq::<char>::empty());
    }
    loop
        invariant_except_break
            it.remaining() == s@.skip(k),
        invariant
            0 <= e <= k <= s@.len(),
            mid == encode_utf8(s@.take(k)).len(),
            end == encode_utf8(s@.take(e)).len(),
            total == encode_utf8(s@).len(),
            forall|i: int| e <= i < k ==> s@[i] == c,
            e > 0 ==> s@[e - 1] != c,
        ensures
            k == s@.len(),
        decreases s@.len() - k,
    {
        match it.next() {
            None => {
                break ;
            },
            Some(d) => {
                assert(d == s@[k]);
                let w: usize = utf8_width(d);
                proof {
                    assert(s@.take(k + 1) == s@.take(k) + seq![d]);
                    lemma_encode_concat(s@.take(k), seq![d]);
                    lemma_encode_single(d);
                    assert(s@ == s@.take(k + 1) + s@.skip(k + 1));
                    lemma_encode_concat(s@.take(k + 1), s@.skip(k + 1));
                    assert(s@.skip(k).drop_first() == s@.skip(k + 1));
                    k = k + 1;
                }
                mid = mid + w;
                if d != c {
                    end = mid;
                    proof {
                        e = k;
                    }
                }
            },
        }
    }
    proof {
        lemma_trailing_unique(s@, c, e);
    }
    split_after(s, end, Ghost(e)).0
}

/// `s` without the characters equal to `c` at its start.
pub fn trim_start_char<'a>(s: &'a str, c: char) -> (r: &'a str)
    ensures
        r@ == trimmed_start(s@, c),
{
    let mut rest: &str = s;
    let ghost mut k: int = 0;
    let ghost p = is_char(c);
    loop
        invariant
            0 <= k <= s@.len(),
            rest@ == s@.skip(k),
            forall|i: int| 0 <= i < k ==> p(#[trigger] s@[i]),
            p == is_char(c),
        ensures
            k < s@.len() ==> !p(s@[k]),
        decreases s@.len() - k,
    {
        match split_first(rest) {
            None => {
                break ;
            },
            Some((d, _, tail)) => {
                assert(d == s@[k]);
                if d != c {
                    break ;
                }
                proof {
                    assert(s@.skip(k).drop_first() == s@.skip(k + 1));
                    k = k + 1;
                }
                rest = tail;
            },
        }
    }
    proof {
        lemma_prefix_len_unique(s@, p, k);
    }
    rest
}

} // verus!
