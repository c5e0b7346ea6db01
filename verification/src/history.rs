//! Paging through a room's history: which messages a request selects, how
//! many of them it gets, and the two watermarks that let a client go on from
//! where the answer ended.

use vstd::prelude::*;
use vstd::string::*;

verus! {

/// A stored message. `user` and `content` are already safe HTML.
#[derive(Debug, Clone, PartialEq, Eq)]
pub struct Message {
    pub id: i64,
    pub room_id: i64,
    pub user: String,
    pub timestamp: String,
    pub content: String,
}

/// The answer to a request: the messages, most recent first, and the ids to
/// go on from.
#[derive(Debug, Clone, PartialEq, Eq)]
pub struct Window {
    pub rows: Vec<Message>,
    pub first_id: Option<i64>,
    pub last_id: Option<i64>,
}

/// How many messages a first request gets at most.
pub const PAGE_LIMIT: usize = 20;

/// How many messages a request with a bound gets at most.
pub const SYNC_LIMIT: usize = 100;

/// Whether a message id lies strictly between the bounds that are given.
pub open spec fn in_bounds(id: i64, lower: Option<i64>, upper: Option<i64>) -> bool {
    &&& lower matches Some(l) ==> id > l
    &&& upper matches Some(u) ==> id < u
}

/// The most messages that a request with these bounds gets.
pub open spec fn limit_of(lower: Option<i64>, upper: Option<i64>) -> nat {
    if lower is None && upper is None {
        PAGE_LIMIT as nat
    } else {
        SYNC_LIMIT as nat
    }
}

/// The first `limit` of `rows`, or all of them where they are fewer.
pub open spec fn capped(rows: Seq<Message>, limit: nat) -> Seq<Message> {
    if rows.len() <= limit {
        rows
    } else {
        rows.take(limit as int)
    }
}

/// The smallest and the largest id among `rows`, if there is any row.
pub open spec fn span(rows: Seq<Message>) -> Option<(i64, i64)>
    decreases rows.len(),
{
    if rows.len() == 0 {
        None
    } else {
        let id = rows.last().id;
        match span(rows.drop_last()) {
            None => Some((id, id)),
            Some((lo, hi)) => Some((if id < lo { id } else { lo }, if id > hi { id } else { hi })),
        }
    }
}

/// An optional id as a mathematical integer.
pub open spec fn as_int(v: Option<i64>) -> Option<int> {
    match v {
        Some(x) => Some(x as int),
        None => None,
    }
}

/// The id that an answer reports as its first: the smallest id it holds;
/// for an empty answer the id just above the lower bound, else the upper
/// bound, else none.
pub open spec fn first_id_of(observed: Option<(i64, i64)>, lower: Option<i64>, upper: Option<i64>)
    -> Option<int> {
    match observed {
        Some((lo, _)) => Some(lo as int),
        None => match lower {
            Some(l) => Some(l + 1),
            None => as_int(upper),
        },
    }
}

/// The id that an answer reports as its last: the largest id it holds; for
/// an empty answer the id just below the upper bound, else the lower bound,
/// else none.
pub open spec fn last_id_of(observed: Option<(i64, i64)>, lower: Option<i64>, upper: Option<i64>)
    -> Option<int> {
    match observed {
        Some((_, hi)) => Some(hi as int),
        None => match upper {
            Some(u) => Some(u - 1),
            None => as_int(lower),
        },
    }
}

/// What `span` gives is the least and the greatest id of `rows`, and each
/// is the id of one of the rows.
pub proof fn lemma_span_is_min_max(rows: Seq<Message>)
    ensures
        rows.len() == 0 <==> span(rows) is None,
        span(rows) matches Some((lo, hi)) ==> {
            &&& forall|i: int| 0 <= i < rows.len() ==> lo <= (#[trigger] rows[i]).id <= hi
            &&& exists|i: int| 0 <= i < rows.len() && (#[trigger] rows[i]).id == lo
            &&& exists|i: int| 0 <= i < rows.len() && (#[trigger] rows[i]).id == hi
        },
    decreases rows.len(),
{
    if rows.len() > 0 {
        let init = rows.drop_last();
        let n = rows.len() - 1;
        lemma_span_is_min_max(init);
        let (lo, hi) = span(rows).unwrap();
        assert forall|i: int| 0 <= i < rows.len() implies lo <= (#[trigger] rows[i]).id <= hi by {
            if i < n {
                assert(rows[i] == init[i]);
            }
        }
        match span(init) {
            None => {
                assert(rows[n].id == lo && rows[n].id == hi);
            },
            Some((plo, phi)) => {
                if lo == rows[n].id {
                    assert(rows[n].id == lo);
                } else {
                    let i = choose|i: int| 0 <= i < init.len() && (#[trigger] init[i]).id == plo;
                    assert(rows[i].id == lo);
                }
                if hi == rows[n].id {
                    assert(rows[n].id == hi);
                } else {
                    let i = choose|i: int| 0 <= i < init.len() && (#[trigger] init[i]).id == phi;
                    assert(rows[i].id == hi);
                }
            },
        }
    }
}

/// The most messages that a request with these bounds gets: 20 for a first
/// request, 100 for one that goes on from a bound.
pub fn row_limit(lower: Option<i64>, upper: Option<i64>) -> (n: usize)
    ensures
        n == limit_of(lower, upper),
{
    if lower.is_none() && upper.is_none() {
        PAGE_LIMIT
    } else {
        SYNC_LIMIT
    }
}

/// The text of the statement that asks storage for a room's messages: the
/// clause for a bound is there exactly when the bound is given, and the most
/// recent message comes first. The room is bound to `:chat`, the bounds to
/// `:lob` and `:upb`.
pub open spec fn statement_of(lower: Option<i64>, upper: Option<i64>) -> Seq<char> {
    "SELECT id, user, timestamp, content FROM msgs WHERE chat = :chat"@ + (if lower is Some {
        " AND id > :lob"@
    } else {
        Seq::empty()
    }) + (if upper is Some {
        " AND id < :upb"@
    } else {
        Seq::empty()
    }) + " ORDER BY id DESC"@
}

/// The statement that asks storage for the messages a request selects.
pub fn select_statement(lower: Option<i64>, upper: Option<i64>) -> (r: String)
    ensures
        r@ == statement_of(lower, upper),
{
    let mut stmt = String::from_str(
        "SELECT id, user, timestamp, content FROM msgs WHERE chat = :chat",
    );
    let ghost base = stmt@;
    if lower.is_some() {
        stmt.append(" AND id > :lob");
    } else {
        assert(base + Seq::<char>::empty() == base);
    }
    let ghost mid = stmt@;
    if upper.is_some() {
        stmt.append(" AND id < :upb");
    } else {
        assert(mid + Seq::<char>::empty() == mid);
    }
    stmt.append(" ORDER BY id DESC");
    stmt
}

/// Takes one more id into the smallest and largest seen so far.
pub fn widen(observed: Option<(i64, i64)>, id: i64) -> (r: (i64, i64))
    ensures
        r == match observed {
            None => (id, id),
            Some((lo, hi)) => (if id < lo { id } else { lo }, if id > hi { id } else { hi }),
        },
{
    match observed {
        None => (id, id),
        Some((lo, hi)) => (if id < lo { id } else { lo }, if id > hi { id } else { hi }),
    }
}

/// The first id to report for an answer whose rows span `observed`.
pub fn first_watermark(observed: Option<(i64, i64)>, lower: Option<i64>, upper: Option<i64>) -> (r:
    Option<i64>)
    requires
        observed is None ==> lower != Some(i64::MAX),
    ensures
        as_int(r) == first_id_of(observed, lower, upper),
{
    match observed {
        Some((lo, _)) => Some(lo),
        None => match lower {
            Some(l) => Some(l + 1),
            None => upper,
        },
    }
}

/// The last id to report for an answer whose rows span `observed`.
pub fn last_watermark(observed: Option<(i64, i64)>, lower: Option<i64>, upper: Option<i64>) -> (r:
    Option<i64>)
    requires
        observed is None ==> upper != Some(i64::MIN),
    ensures
        as_int(r) == last_id_of(observed, lower, upper),
{
    match observed {
        Some((_, hi)) => Some(hi),
        None => match upper {
            Some(u) => Some(u - 1),
            None => lower,
        },
    }
}

/// Makes the answer from the rows that storage returned for a request, in
/// the order it returned them: the rows up to the request's limit, and the
/// watermarks over the rows that were kept.
pub fn collect_window(rows: Vec<Message>, lower: Option<i64>, upper: Option<i64>) -> (w: Window)
    requires
        rows@.len() == 0 ==> lower != Some(i64::MAX) && upper != Some(i64::MIN),
    ensures
        w.rows@ == capped(rows@, limit_of(lower, upper)),
        as_int(w.first_id) == first_id_of(span(w.rows@), lower, upper),
        as_int(w.last_id) == last_id_of(span(w.rows@), lower, upper),
{
    let mut rows = rows;
    let ghost given = rows@;
    let limit = row_limit(lower, upper);
    if rows.len() > limit {
        rows.truncate(limit);
    }
    let mut observed: Option<(i64, i64)> = None;
    let mut i: usize = 0;
    proof {
        assert(rows@.take(0) == Seq::<Message>::empty());
    }
    while i < rows.len()
        invariant
            0 <= i <= rows.len(),
            observed == span(rows@.take(i as int)),
        decreases rows.len() - i,
    {
        observed = Some(widen(observed, rows[i].id));
        proof {
            let next = rows@.take(i + 1);
            assert(next.drop_last() == rows@.take(i as int));
            assert(next.last() == rows@[i as int]);
        }
        i += 1;
    }
    proof {
        assert(rows@.take(rows@.len() as int) == rows@);
        lemma_span_is_min_max(rows@);
        lemma_span_is_min_max(given);
    }
    let first_id = first_watermark(observed, lower, upper);
    let last_id = last_watermark(observed, lower, upper);
    Window { rows, first_id, last_id }
}

} // verus!
