//! An append-only message log held in memory, and the history request
//! answered from it.

use vstd::prelude::*;
use vstd::string::*;
use vstd::utf8::*;
use crate::error::ChatError;
use crate::escape::escape;
use crate::post::prepare_message;
use crate::preprocessor::sanitized;
use crate::render::{fragment, render_fragments};
use crate::history::{
    as_int, capped, collect_window, first_id_of, in_bounds, last_id_of, lemma_span_is_min_max,
    limit_of, row_limit, span, Message, Window,
};

verus! {

/// Ids grow with arrival: a later message has a larger id.
pub open spec fn ids_increase(store: Seq<Message>) -> bool {
    forall|i: int, j: int| 0 <= i < j < store.len() ==> store[i].id < store[j].id
}

/// Ids fall along the sequence: most recent first.
pub open spec fn ids_decrease(rows: Seq<Message>) -> bool {
    forall|i: int, j: int| 0 <= i < j < rows.len() ==> rows[i].id > rows[j].id
}

/// Whether a request for `room_id` with these bounds selects `m`.
pub open spec fn selects(m: Message, room_id: i64, lower: Option<i64>, upper: Option<i64>) -> bool {
    m.room_id == room_id && in_bounds(m.id, lower, upper)
}

/// The messages of `store` that the request selects, latest arrival first.
pub open spec fn newest_first(
    store: Seq<Message>,
    room_id: i64,
    lower: Option<i64>,
    upper: Option<i64>,
) -> Seq<Message>
    decreases store.len(),
{
    if store.len() == 0 {
        Seq::empty()
    } else {
        let later = newest_first(store.drop_first(), room_id, lower, upper);
        if selects(store[0], room_id, lower, upper) {
            later.push(store[0])
        } else {
            later
        }
    }
}

/// The rows of the answer: the selected messages, most recent first, up to
/// the request's limit.
pub open spec fn window_rows(
    store: Seq<Message>,
    room_id: i64,
    lower: Option<i64>,
    upper: Option<i64>,
) -> Seq<Message> {
    capped(newest_first(store, room_id, lower, upper), limit_of(lower, upper))
}

/// The id that the next message gets: one more than the latest, or 1.
pub open spec fn next_id(store: Seq<Message>) -> int {
    if store.len() == 0 {
        1
    } else {
        store.last().id + 1
    }
}

/// Selecting from two stretches of a log gives the later stretch's messages
/// before the earlier stretch's.
pub proof fn lemma_newest_first_concat(
    a: Seq<Message>,
    b: Seq<Message>,
    room_id: i64,
    lower: Option<i64>,
    upper: Option<i64>,
)
    ensures
        newest_first(a + b, room_id, lower, upper) == newest_first(b, room_id, lower, upper)
            + newest_first(a, room_id, lower, upper),
    decreases a.len(),
{
    let nb = newest_first(b, room_id, lower, upper);
    if a.len() == 0 {
        assert(a + b == b);
        assert(nb + Seq::<Message>::empty() == nb);
    } else {
        let rest = a.drop_first();
        lemma_newest_first_concat(rest, b, room_id, lower, upper);
        assert((a + b).drop_first() == rest + b);
        let nr = newest_first(rest, room_id, lower, upper);
        assert((nb + nr).push(a[0]) == nb + nr.push(a[0]));
    }
}

/// Every selected row is a message of the store that the request selects,
/// and every such message of the store is among the selected rows.
pub proof fn lemma_newest_first_members(
    store: Seq<Message>,
    room_id: i64,
    lower: Option<i64>,
    upper: Option<i64>,
)
    ensures
        forall|m: Message| #[trigger]
            newest_first(store, room_id, lower, upper).contains(m) <==> store.contains(m)
                && selects(m, room_id, lower, upper),
    decreases store.len(),
{
    let rows = newest_first(store, room_id, lower, upper);
    if store.len() == 0 {
        assert forall|m: Message| #[trigger] rows.contains(m) <==> store.contains(m) && selects(
            m,
            room_id,
            lower,
            upper,
        ) by {}
    } else {
        let rest = store.drop_first();
        let later = newest_first(rest, room_id, lower, upper);
        lemma_newest_first_members(rest, room_id, lower, upper);
        assert forall|m: Message| #[trigger] rows.contains(m) <==> store.contains(m) && selects(
            m,
            room_id,
            lower,
            upper,
        ) by {
            if rows.contains(m) {
                let i = choose|i: int| 0 <= i < rows.len() && rows[i] == m;
                if i < later.len() {
                    assert(later[i] == m);
                    assert(later.contains(m));
                    let j = choose|j: int| 0 <= j < rest.len() && rest[j] == m;
                    assert(store[j + 1] == m);
                } else {
                    assert(store[0] == m);
                }
            }
            if store.contains(m) && selects(m, room_id, lower, upper) {
                let j = choose|j: int| 0 <= j < store.len() && store[j] == m;
                if j == 0 {
                    assert(rows[later.len() as int] == m);
                } else {
                    assert(rest[j - 1] == m);
                    assert(later.contains(m));
                    let i = choose|i: int| 0 <= i < later.len() && later[i] == m;
                    assert(rows[i] == m);
                }
            }
        }
    }
}

/// From a log whose ids grow with arrival, the selected rows come with
/// falling ids, each larger than no id of the log's first message.
pub proof fn lemma_newest_first_descends(
    store: Seq<Message>,
    room_id: i64,
    lower: Option<i64>,
    upper: Option<i64>,
)
    requires
        ids_increase(store),
    ensures
        ids_decrease(newest_first(store, room_id, lower, upper)),
        forall|i: int|
            0 <= i < newest_first(store, room_id, lower, upper).len() ==> store[0].id <= (
            #[trigger] newest_first(store, room_id, lower, upper)[i]).id,
    decreases store.len(),
{
    let rows = newest_first(store, room_id, lower, upper);
    if store.len() > 0 {
        let rest = store.drop_first();
        let later = newest_first(rest, room_id, lower, upper);
        assert(ids_increase(rest)) by {
            assert forall|i: int, j: int| 0 <= i < j < rest.len() implies rest[i].id
                < rest[j].id by {
                assert(rest[i] == store[i + 1] && rest[j] == store[j + 1]);
            }
        }
        lemma_newest_first_descends(rest, room_id, lower, upper);
        assert forall|i: int| 0 <= i < later.len() implies store[0].id < (#[trigger] later[i]).id by {
            assert(rest[0] == store[1]);
        }
        assert forall|i: int| 0 <= i < rows.len() implies store[0].id <= (#[trigger] rows[i]).id by {
            if i < later.len() {
                assert(rows[i] == later[i]);
            }
        }
        assert forall|i: int, j: int| 0 <= i < j < rows.len() implies rows[i].id > rows[j].id by {
            assert(rows[i] == later[i]);
            if j < later.len() {
                assert(rows[j] == later[j]);
            }
        }
    }
}

/// Of the answer to any request: each row is a message of the store, of
/// the room asked for, with its id strictly between the bounds given; and
/// from a log whose ids grow with arrival the rows come with falling ids.
pub proof fn lemma_window_rows(
    store: Seq<Message>,
    room_id: i64,
    lower: Option<i64>,
    upper: Option<i64>,
)
    ensures
        window_rows(store, room_id, lower, upper).len() <= limit_of(lower, upper),
        forall|i: int|
            0 <= i < window_rows(store, room_id, lower, upper).len() ==> {
                let m = #[trigger] window_rows(store, room_id, lower, upper)[i];
                store.contains(m) && selects(m, room_id, lower, upper)
            },
        ids_increase(store) ==> ids_decrease(window_rows(store, room_id, lower, upper)),
{
    let all = newest_first(store, room_id, lower, upper);
    let rows = window_rows(store, room_id, lower, upper);
    lemma_newest_first_members(store, room_id, lower, upper);
    assert forall|i: int| 0 <= i < rows.len() implies {
        let m = #[trigger] rows[i];
        store.contains(m) && selects(m, room_id, lower, upper)
    } by {
        assert(rows[i] == all[i]);
        assert(all.contains(rows[i]));
    }
    if ids_increase(store) {
        lemma_newest_first_descends(store, room_id, lower, upper);
        assert forall|i: int, j: int| 0 <= i < j < rows.len() implies rows[i].id > rows[j].id by {
            assert(rows[i] == all[i] && rows[j] == all[j]);
        }
    }
}

/// The watermarks of any answer keep to the request's bounds, also when the
/// answer is empty: the first id lies above a lower bound and the last id
/// below an upper bound. With one bound alone the other watermark does not
/// fall behind it either, so a client that goes on from a watermark never
/// goes back.
pub proof fn lemma_watermarks_keep_to_bounds(
    store: Seq<Message>,
    room_id: i64,
    lower: Option<i64>,
    upper: Option<i64>,
)
    ensures
        ({
            let rows = window_rows(store, room_id, lower, upper);
            let first = first_id_of(span(rows), lower, upper);
            let last = last_id_of(span(rows), lower, upper);
            &&& lower matches Some(l) ==> (first matches Some(f) && f > l)
            &&& upper matches Some(u) ==> (last matches Some(g) && g < u)
            &&& lower matches Some(l) ==> (upper is None ==> (last matches Some(g) && g >= l))
            &&& upper matches Some(u) ==> (lower is None ==> (first matches Some(f) && f <= u))
        }),
{
    let rows = window_rows(store, room_id, lower, upper);
    lemma_window_rows(store, room_id, lower, upper);
    lemma_span_is_min_max(rows);
    if rows.len() > 0 {
        let (lo, hi) = span(rows).unwrap();
        let i = choose|i: int| 0 <= i < rows.len() && (#[trigger] rows[i]).id == lo;
        assert(selects(rows[i], room_id, lower, upper));
        let j = choose|j: int| 0 <= j < rows.len() && (#[trigger] rows[j]).id == hi;
        assert(selects(rows[j], room_id, lower, upper));
    }
}

/// Of rows that come with falling ids, the smallest id is the last row's and
/// the largest is the first row's: these are the watermarks of an answer
/// that is not empty.
pub proof fn lemma_span_of_falling_ids(rows: Seq<Message>)
    requires
        rows.len() > 0,
        ids_decrease(rows),
    ensures
        span(rows) == Some((rows.last().id, rows[0].id)),
    decreases rows.len(),
{
    let init = rows.drop_last();
    if init.len() > 0 {
        assert(ids_decrease(init)) by {
            assert forall|i: int, j: int| 0 <= i < j < init.len() implies init[i].id
                > init[j].id by {
                assert(init[i] == rows[i] && init[j] == rows[j]);
            }
        }
        lemma_span_of_falling_ids(init);
        assert(init.last() == rows[rows.len() - 2]);
        assert(init[0] == rows[0]);
        assert(rows[rows.len() - 2].id > rows[rows.len() - 1].id);
        assert(rows[0].id > rows[rows.len() - 1].id);
    } else {
        assert(span(init) is None);
    }
}

/// Two requests in sequence, the second with the first's last id as its
/// lower bound: every row of the second has an id above that watermark, and
/// so above the id of every row of the first. The log may have grown in
/// between, and the requests may differ in everything else.
pub proof fn lemma_next_poll_is_beyond(
    earlier: Seq<Message>,
    later: Seq<Message>,
    room_id: i64,
    lower: Option<i64>,
    upper: Option<i64>,
    next_room_id: i64,
    next_upper: Option<i64>,
    watermark: i64,
)
    requires
        last_id_of(span(window_rows(earlier, room_id, lower, upper)), lower, upper) == Some(
            watermark as int,
        ),
    ensures
        forall|j: int|
            0 <= j < window_rows(later, next_room_id, Some(watermark), next_upper).len() ==> (
            #[trigger] window_rows(later, next_room_id, Some(watermark), next_upper)[j]).id
                > watermark,
        forall|i: int|
            0 <= i < window_rows(earlier, room_id, lower, upper).len() ==> (
            #[trigger] window_rows(earlier, room_id, lower, upper)[i]).id <= watermark,
{
    let first = window_rows(earlier, room_id, lower, upper);
    let second = window_rows(later, next_room_id, Some(watermark), next_upper);
    lemma_window_rows(later, next_room_id, Some(watermark), next_upper);
    lemma_span_is_min_max(first);
    assert forall|j: int| 0 <= j < second.len() implies (#[trigger] second[j]).id > watermark by {
        assert(selects(second[j], next_room_id, Some(watermark), next_upper));
    }
}

/// A copy of a message.
pub fn duplicate(m: &Message) -> (r: Message)
    ensures
        r == *m,
{
    Message {
        id: m.id,
        room_id: m.room_id,
        user: m.user.clone(),
        timestamp: m.timestamp.clone(),
        content: m.content.clone(),
    }
}

/// The messages of all rooms in the order they arrived.
pub struct MessageLog {
    rows: Vec<Message>,
}

impl MessageLog {
    /// The messages, earliest first.
    pub closed spec fn view(&self) -> Seq<Message> {
        self.rows@
    }

    /// The log's invariant: ids grow with arrival.
    #[verifier::type_invariant]
    pub open spec fn wf(&self) -> bool {
        ids_increase(self@)
    }

    /// An empty log.
    pub fn new() -> (log: MessageLog)
        ensures
            log@ == Seq::<Message>::empty(),
    {
        MessageLog { rows: Vec::new() }
    }

    /// How many messages the log holds.
    pub fn len(&self) -> (n: usize)
        ensures
            n == self@.len(),
    {
        self.rows.len()
    }

    /// Stores a message under the next id and returns that id. Gives `None`,
    /// and stores nothing, when the ids are used up.
    pub fn append(&mut self, room_id: i64, user: String, timestamp: String, content: String) -> (r:
        Option<i64>)
        ensures
            next_id(old(self)@) <= i64::MAX <==> r is Some,
            r is None ==> final(self)@ == old(self)@,
            r matches Some(id) ==> id == next_id(old(self)@) && final(self)@ == old(self)@.push(
                (Message { id, room_id, user, timestamp, content }),
            ),
    {
        proof {
            use_type_invariant(&*self);
        }
        let n = self.rows.len();
        let id: i64 = if n == 0 {
            1
        } else {
            let latest: i64 = self.rows[n - 1].id;
            if latest == i64::MAX {
                return None;
            }
            latest + 1
        };
        let mut rows: Vec<Message> = Vec::new();
        core::mem::swap(&mut self.rows, &mut rows);
        rows.push(Message { id, room_id, user, timestamp, content });
        core::mem::swap(&mut self.rows, &mut rows);
        Some(id)
    }

    /// Stores a message that a user posts: the name escaped, the body read as
    /// UTF-8 and sanitised, so that what is stored can be shown as it is.
    /// Returns the new message's id. A body that is not UTF-8 is refused, and
    /// so is any message once the ids are used up; the log then stays as it
    /// was.
    pub fn post(&mut self, room_id: i64, user: &str, timestamp: String, raw_body: &[u8]) -> (r:
        Result<i64, ChatError>)
        ensures
            r is Ok <==> valid_utf8(raw_body@) && next_id(old(self)@) <= i64::MAX,
            match r {
                Ok(id) => {
                    &&& id == next_id(old(self)@)
                    &&& final(self)@.len() == old(self)@.len() + 1
                    &&& final(self)@.drop_last() == old(self)@
                    &&& final(self)@.last().id == id
                    &&& final(self)@.last().room_id == room_id
                    &&& final(self)@.last().timestamp == timestamp
                    &&& final(self)@.last().user@ == escape(user@)
                    &&& final(self)@.last().content@ == sanitized(decode_utf8(raw_body@))
                },
                Err(e) => {
                    &&& final(self)@ == old(self)@
                    &&& !valid_utf8(raw_body@) ==> e == ChatError::InvalidUtf8
                    &&& valid_utf8(raw_body@) ==> (e matches ChatError::StorageFailure(how) && how@
                        == "message ids are used up"@)
                },
            },
    {
        match prepare_message(user, raw_body) {
            Err(e) => Err(e),
            Ok(prepared) => match self.append(room_id, prepared.user, timestamp, prepared.content) {
                Some(id) => {
                    proof {
                        assert(final(self)@.drop_last() == old(self)@);
                    }
                    Ok(id)
                },
                None => Err(ChatError::StorageFailure(String::from_str("message ids are used up"))),
            },
        }
    }

    /// The messages that a request selects, most recent first, up to the
    /// request's limit.
    pub fn select(&self, room_id: i64, lower: Option<i64>, upper: Option<i64>) -> (out: Vec<Message>)
        ensures
            out@ == window_rows(self@, room_id, lower, upper),
    {
        let limit = row_limit(lower, upper);
        let mut out: Vec<Message> = Vec::new();
        let mut i: usize = self.rows.len();
        let ghost store = self@;
        proof {
            assert(store.skip(store.len() as int) == Seq::<Message>::empty());
        }
        while i > 0 && out.len() < limit
            invariant
                store == self.rows@,
                0 <= i <= store.len(),
                limit == limit_of(lower, upper),
                out@.len() <= limit,
                out@ == newest_first(store.skip(i as int), room_id, lower, upper),
            decreases i,
        {
            i -= 1;
            let m = &self.rows[i];
            proof {
                assert(store.skip(i as int).drop_first() == store.skip(i + 1));
                assert(store.skip(i as int)[0] == store[i as int]);
            }
            let above = match lower {
                Some(l) => m.id > l,
                None => true,
            };
            let below = match upper {
                Some(u) => m.id < u,
                None => true,
            };
            if m.room_id == room_id && above && below {
                out.push(duplicate(m));
            }
        }
        proof {
            assert(store == store.take(i as int) + store.skip(i as int));
            lemma_newest_first_concat(
                store.take(i as int),
                store.skip(i as int),
                room_id,
                lower,
                upper,
            );
            let early = newest_first(store.take(i as int), room_id, lower, upper);
            if i == 0 {
                assert(store.take(0) == Seq::<Message>::empty());
                assert(out@ + early == out@);
            } else {
                assert((out@ + early).take(limit as int) == out@);
            }
        }
        out
    }

    /// Answers a history request with what is sent out: the fragments of the
    /// selected messages, most recent first, and the watermarks.
    pub fn fetch(&self, room_id: i64, lower: Option<i64>, upper: Option<i64>) -> (r: (
        Vec<String>,
        Option<i64>,
        Option<i64>,
    ))
        requires
            lower != Some(i64::MAX),
            upper != Some(i64::MIN),
        ensures
            r.0@.len() == window_rows(self@, room_id, lower, upper).len(),
            forall|i: int|
                0 <= i < r.0@.len() ==> (#[trigger] r.0@[i])@ == fragment(
                    window_rows(self@, room_id, lower, upper)[i],
                ),
            as_int(r.1) == first_id_of(
                span(window_rows(self@, room_id, lower, upper)),
                lower,
                upper,
            ),
            as_int(r.2) == last_id_of(
                span(window_rows(self@, room_id, lower, upper)),
                lower,
                upper,
            ),
    {
        let w = self.query(room_id, lower, upper);
        (render_fragments(&w.rows), w.first_id, w.last_id)
    }

    /// Answers a history request: the selected messages, most recent first,
    /// up to the request's limit, and the watermarks to go on from.
    pub fn query(&self, room_id: i64, lower: Option<i64>, upper: Option<i64>) -> (w: Window)
        requires
            lower != Some(i64::MAX),
            upper != Some(i64::MIN),
        ensures
            w.rows@ == window_rows(self@, room_id, lower, upper),
            w.rows@.len() <= limit_of(lower, upper),
            forall|i: int|
                0 <= i < w.rows@.len() ==> self@.contains(#[trigger] w.rows@[i]) && selects(
                    w.rows@[i],
                    room_id,
                    lower,
                    upper,
                ),
            ids_decrease(w.rows@),
            as_int(w.first_id) == first_id_of(span(w.rows@), lower, upper),
            as_int(w.last_id) == last_id_of(span(w.rows@), lower, upper),
            w.rows@.len() > 0 ==> w.first_id == Some(w.rows@.last().id) && w.last_id == Some(
                w.rows@[0].id,
            ),
    {
        let rows = self.select(room_id, lower, upper);
        proof {
            use_type_invariant(self);
            lemma_window_rows(self@, room_id, lower, upper);
            if rows@.len() > 0 {
                lemma_span_of_falling_ids(rows@);
            }
            assert(capped(rows@, limit_of(lower, upper)) == rows@);
        }
        collect_window(rows, lower, upper)
    }
}

} // verus!
