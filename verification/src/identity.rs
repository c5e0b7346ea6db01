//! Who posts: the user's name as a proxy hands it on in the `Forwarded`
//! header.

use vstd::prelude::*;
use vstd::string::*;
use crate::preprocessor::str_split_at_while;
use crate::text::{
    lemma_cut_is_longest_prefix, prefix_len, split_first, str_eq, trim_end_char, trim_start_char,
    trimmed_end, trimmed_start,
};

verus! {

/// The test for being any character but `c`.
pub open spec fn is_not(c: char) -> spec_fn(char) -> bool {
    |x: char| x != c
}

/// The parts of `s` between the separators `sep`; one more than there are
/// separators.
pub open spec fn pieces(s: Seq<char>, sep: char) -> Seq<Seq<char>>
    decreases s.len(),
{
    let k = prefix_len(s, is_not(sep)) as int;
    if k >= s.len() {
        seq![s]
    } else {
        seq![s.take(k)] + pieces(s.skip(k + 1), sep)
    }
}

/// The name and the value of a part `name=value`. A part without `=`, or
/// with nothing before it, is no pair.
pub open spec fn pair_of(piece: Seq<char>) -> Option<(Seq<char>, Seq<char>)> {
    let k = prefix_len(piece, is_not('=')) as int;
    if k == 0 || k >= piece.len() {
        None
    } else {
        Some((piece.take(k), piece.skip(k + 1)))
    }
}

/// The value of the last pair among `parts` whose name is `name`.
pub open spec fn field_of(parts: Seq<Seq<char>>, name: Seq<char>) -> Option<Seq<char>>
    decreases parts.len(),
{
    if parts.len() == 0 {
        None
    } else {
        match pair_of(parts.last()) {
            Some((n, v)) => if n == name {
                Some(v)
            } else {
                field_of(parts.drop_last(), name)
            },
            None => field_of(parts.drop_last(), name),
        }
    }
}

/// The user that a `Forwarded` header names: the value of `remote_user`
/// without the quotes around it; else the value of `for`, marked as
/// anonymous; else, and without a header, plain anonymous.
pub open spec fn user_of(header: Option<Seq<char>>) -> Seq<char> {
    match header {
        None => "<anon>"@,
        Some(h) => {
            let parts = pieces(h, ';');
            match field_of(parts, "remote_user"@) {
                Some(u) => trimmed_end(trimmed_start(u, '"'), '"'),
                None => match field_of(parts, "for"@) {
                    Some(a) => "<anon:"@ + a + ">"@,
                    None => "<anon>"@,
                },
            }
        },
    }
}

/// Reads a part `name=value`.
pub fn split_pair<'a>(piece: &'a str) -> (r: Option<(&'a str, &'a str)>)
    ensures
        r is Some <==> pair_of(piece@) is Some,
        r matches Some((n, v)) ==> pair_of(piece@) == Some((n@, v@)),
{
    let not_eq = |x: char| -> (b: bool)
        ensures
            b == (x != '='),
        { x != '=' };
    let (fi, se) = str_split_at_while(piece, not_eq);
    proof {
        lemma_cut_is_longest_prefix(piece@, fi@, se@, is_not('='));
    }
    if fi.is_empty() {
        return None;
    }
    match split_first(se) {
        None => None,
        Some((_, _, value)) => {
            proof {
                assert(value@ =~= piece@.skip(fi@.len() as int + 1));
            }
            Some((fi, value))
        },
    }
}

/// The user that a `Forwarded` header names.
pub fn user_from_forwarded(header: Option<&str>) -> (r: String)
    ensures
        r@ == user_of(
            match header {
                Some(h) => Some(h@),
                None => None,
            },
        ),
{
    let h = match header {
        None => {
            return String::from_str("<anon>");
        },
        Some(h) => h,
    };
    let mut remote_user: Option<&str> = None;
    let mut address: Option<&str> = None;
    let mut rest: &str = h;
    let ghost mut done: Seq<Seq<char>> = Seq::empty();
    let not_semi = |x: char| -> (b: bool)
        ensures
            b == (x != ';'),
        { x != ';' };
    proof {
        assert(done + pieces(rest@, ';') == pieces(h@, ';'));
    }
    loop
        invariant_except_break
            done + pieces(rest@, ';') == pieces(h@, ';'),
        invariant
            forall|c: char| call_requires(not_semi, (c,)),
            forall|c: char, b: bool| call_ensures(not_semi, (c,), b) ==> b == (c != ';'),
            match remote_user {
                Some(u) => field_of(done, "remote_user"@) == Some(u@),
                None => field_of(done, "remote_user"@) is None,
            },
            match address {
                Some(a) => field_of(done, "for"@) == Some(a@),
                None => field_of(done, "for"@) is None,
            },
        ensures
            done == pieces(h@, ';'),
        decreases rest@.len(),
    {
        let (piece, tail) = str_split_at_while(rest, not_semi);
        proof {
            lemma_cut_is_longest_prefix(rest@, piece@, tail@, is_not(';'));
        }
        let ghost before = done;
        if let Some((name, value)) = split_pair(piece) {
            if str_eq(name, "remote_user") {
                remote_user = Some(value);
            }
            if str_eq(name, "for") {
                address = Some(value);
            }
        }
        proof {
            done = before.push(piece@);
            assert(done.drop_last() == before);
            assert(done.last() == piece@);
        }
        match split_first(tail) {
            None => {
                proof {
                    assert(pieces(rest@, ';') == seq![piece@]);
                    assert(before + seq![piece@] == done);
                }
                break ;
            },
            Some((_, _, next)) => {
                proof {
                    assert(next@ =~= rest@.skip(piece@.len() as int + 1));
                    assert(before + (seq![piece@] + pieces(next@, ';')) == done + pieces(
                        next@,
                        ';',
                    ));
                }
                rest = next;
            },
        }
    }
    match remote_user {
        Some(u) => String::from_str(trim_end_char(trim_start_char(u, '"'), '"')),
        None => match address {
            Some(a) => {
                let mut y = String::from_str("<anon:");
                y.append(a);
                y.append(">");
                y
            },
            None => String::from_str("<anon>"),
        },
    }
}

} // verus!
