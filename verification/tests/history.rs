use zswalc::error::ChatError;
use zswalc::history::{
    collect_window, first_watermark, last_watermark, row_limit, select_statement, widen, Message,
    Window, PAGE_LIMIT, SYNC_LIMIT,
};
use zswalc::log::{duplicate, MessageLog};
use zswalc::number::decimal_string;
use zswalc::render::{render_body, render_fragments, render_message};

fn message(id: i64, room_id: i64) -> Message {
    Message {
        id,
        room_id,
        user: format!("user{}", id),
        timestamp: String::from("2020-01-02 03:04:05.678"),
        content: format!("text {}", id),
    }
}

fn ids(rows: &Vec<Message>) -> Vec<i64> {
    let mut out = Vec::new();
    for m in rows {
        out.push(m.id);
    }
    out
}

fn descending(from: i64, to: i64) -> Vec<i64> {
    let mut out = Vec::new();
    let mut id = from;
    while id >= to {
        out.push(id);
        id -= 1;
    }
    out
}

fn log_of(n: i64, room_id: i64) -> MessageLog {
    let mut log = MessageLog::new();
    let mut k = 1;
    while k <= n {
        let id = log.append(
            room_id,
            format!("user{}", k),
            String::from("2020-01-02 03:04:05.678"),
            format!("text {}", k),
        );
        assert_eq!(id, Some(k));
        k += 1;
    }
    log
}

#[test]
fn windowing_without_bounds() {
    let log = log_of(25, 7);
    let w = log.query(7, None, None);
    assert_eq!(ids(&w.rows), descending(25, 6));
    assert_eq!(w.rows.len(), 20);
    assert_eq!(w.first_id, Some(6));
    assert_eq!(w.last_id, Some(25));
    assert_eq!(w.rows[0], message(25, 7));
}

#[test]
fn windowing_empty_incremental_poll() {
    let log = log_of(25, 7);
    let w = log.query(7, Some(25), None);
    assert!(w.rows.is_empty());
    assert_eq!(w.first_id, Some(26));
    assert_eq!(w.last_id, Some(25));
}

#[test]
fn empty_poll_below_an_upper_bound() {
    let log = log_of(25, 7);
    let w = log.query(7, None, Some(1));
    assert!(w.rows.is_empty());
    assert_eq!(w.first_id, Some(1));
    assert_eq!(w.last_id, Some(0));
}

#[test]
fn empty_poll_between_two_bounds() {
    let log = log_of(25, 7);
    let w = log.query(7, Some(10), Some(11));
    assert!(w.rows.is_empty());
    assert_eq!(w.first_id, Some(11));
    assert_eq!(w.last_id, Some(10));
}

#[test]
fn empty_room_without_bounds_has_no_watermarks() {
    let log = log_of(25, 7);
    let w = log.query(8, None, None);
    assert_eq!(
        w,
        Window {
            rows: Vec::new(),
            first_id: None,
            last_id: None
        }
    );
    let w = MessageLog::new().query(1, None, None);
    assert!(w.rows.is_empty());
    assert_eq!((w.first_id, w.last_id), (None, None));
}

#[test]
fn bounds_are_strict() {
    let log = log_of(25, 7);
    let w = log.query(7, Some(20), None);
    assert_eq!(ids(&w.rows), vec![25, 24, 23, 22, 21]);
    assert_eq!((w.first_id, w.last_id), (Some(21), Some(25)));
    let w = log.query(7, None, Some(4));
    assert_eq!(ids(&w.rows), vec![3, 2, 1]);
    assert_eq!((w.first_id, w.last_id), (Some(1), Some(3)));
    let w = log.query(7, Some(3), Some(7));
    assert_eq!(ids(&w.rows), vec![6, 5, 4]);
    assert_eq!((w.first_id, w.last_id), (Some(4), Some(6)));
}

#[test]
fn a_request_with_a_bound_gets_a_hundred_at_most() {
    let log = log_of(250, 1);
    let w = log.query(1, Some(0), None);
    assert_eq!(ids(&w.rows), descending(250, 151));
    assert_eq!((w.first_id, w.last_id), (Some(151), Some(250)));
    let w = log.query(1, None, Some(201));
    assert_eq!(ids(&w.rows), descending(200, 101));
    let w = log.query(1, None, None);
    assert_eq!(ids(&w.rows), descending(250, 231));
}

#[test]
fn rooms_are_kept_apart() {
    let mut log = MessageLog::new();
    for k in 1..=30i64 {
        let room = if k % 3 == 0 { 2 } else { 1 };
        let id = log.append(room, String::from("u"), String::from("t"), String::from("c"));
        assert_eq!(id, Some(k));
    }
    assert_eq!(log.len(), 30);
    let w = log.query(2, None, None);
    assert_eq!(ids(&w.rows), vec![30, 27, 24, 21, 18, 15, 12, 9, 6, 3]);
    assert_eq!((w.first_id, w.last_id), (Some(3), Some(30)));
    let w = log.query(1, Some(25), None);
    assert_eq!(ids(&w.rows), vec![29, 28, 26]);
    assert_eq!(ids(&log.select(1, Some(25), None)), vec![29, 28, 26]);
}

#[test]
fn next_poll_never_returns_what_the_last_one_saw() {
    let mut log = log_of(25, 7);
    let first = log.query(7, None, None);
    let mark = first.last_id.unwrap();
    for _ in 0..3 {
        log.append(7, String::from("u"), String::from("t"), String::from("c"));
    }
    let second = log.query(7, Some(mark), None);
    assert_eq!(ids(&second.rows), vec![28, 27, 26]);
    for m in &second.rows {
        assert!(m.id > mark);
    }
    let third = log.query(7, second.last_id, None);
    assert!(third.rows.is_empty());
    assert_eq!(third.last_id, second.last_id);
    assert_eq!(third.first_id, Some(29));
}

#[test]
fn collect_window_keeps_the_order_it_was_given() {
    let rows = vec![message(9, 1), message(4, 1), message(12, 1)];
    let w = collect_window(rows.clone(), None, None);
    assert_eq!(w.rows, rows);
    assert_eq!((w.first_id, w.last_id), (Some(4), Some(12)));
}

#[test]
fn collect_window_cuts_at_the_limit() {
    let mut rows = Vec::new();
    for id in descending(150, 1) {
        rows.push(message(id, 1));
    }
    let w = collect_window(rows.clone(), None, None);
    assert_eq!(ids(&w.rows), descending(150, 131));
    assert_eq!((w.first_id, w.last_id), (Some(131), Some(150)));
    let w = collect_window(rows.clone(), Some(0), None);
    assert_eq!(ids(&w.rows), descending(150, 51));
    assert_eq!((w.first_id, w.last_id), (Some(51), Some(150)));
    let w = collect_window(rows, None, Some(151));
    assert_eq!(w.rows.len(), 100);
}

#[test]
fn collect_window_of_nothing_falls_back_on_the_bounds() {
    let w = collect_window(Vec::new(), Some(5), Some(9));
    assert_eq!((w.first_id, w.last_id), (Some(6), Some(8)));
    let w = collect_window(Vec::new(), Some(5), None);
    assert_eq!((w.first_id, w.last_id), (Some(6), Some(5)));
    let w = collect_window(Vec::new(), None, Some(9));
    assert_eq!((w.first_id, w.last_id), (Some(9), Some(8)));
    let w = collect_window(Vec::new(), None, None);
    assert_eq!((w.first_id, w.last_id), (None, None));
    let w = collect_window(Vec::new(), Some(-1), Some(i64::MAX));
    assert_eq!((w.first_id, w.last_id), (Some(0), Some(i64::MAX - 1)));
}

#[test]
fn watermarks_prefer_what_was_observed() {
    assert_eq!(first_watermark(Some((3, 8)), Some(1), Some(10)), Some(3));
    assert_eq!(last_watermark(Some((3, 8)), Some(1), Some(10)), Some(8));
    assert_eq!(first_watermark(None, Some(1), Some(10)), Some(2));
    assert_eq!(last_watermark(None, Some(1), Some(10)), Some(9));
    assert_eq!(first_watermark(None, None, Some(10)), Some(10));
    assert_eq!(last_watermark(None, Some(1), None), Some(1));
    assert_eq!(first_watermark(None, None, None), None);
    assert_eq!(last_watermark(None, None, None), None);
    assert_eq!(first_watermark(Some((i64::MIN, 0)), Some(i64::MAX), None), Some(i64::MIN));
    assert_eq!(last_watermark(Some((0, i64::MAX)), None, Some(i64::MIN)), Some(i64::MAX));
}

#[test]
fn widen_tracks_smallest_and_largest() {
    assert_eq!(widen(None, 5), (5, 5));
    assert_eq!(widen(Some((5, 5)), 3), (3, 5));
    assert_eq!(widen(Some((3, 5)), 9), (3, 9));
    assert_eq!(widen(Some((3, 9)), 4), (3, 9));
}

#[test]
fn row_limit_depends_on_the_bounds() {
    assert_eq!(row_limit(None, None), 20);
    assert_eq!(row_limit(Some(1), None), 100);
    assert_eq!(row_limit(None, Some(1)), 100);
    assert_eq!(row_limit(Some(1), Some(2)), 100);
    assert_eq!((PAGE_LIMIT, SYNC_LIMIT), (20, 100));
}

#[test]
fn select_statement_names_the_bounds_that_are_given() {
    assert_eq!(
        select_statement(None, None),
        "SELECT id, user, timestamp, content FROM msgs WHERE chat = :chat ORDER BY id DESC"
    );
    assert_eq!(
        select_statement(Some(1), None),
        "SELECT id, user, timestamp, content FROM msgs WHERE chat = :chat AND id > :lob ORDER BY id DESC"
    );
    assert_eq!(
        select_statement(None, Some(1)),
        "SELECT id, user, timestamp, content FROM msgs WHERE chat = :chat AND id < :upb ORDER BY id DESC"
    );
    assert_eq!(
        select_statement(Some(1), Some(2)),
        "SELECT id, user, timestamp, content FROM msgs WHERE chat = :chat AND id > :lob AND id < :upb ORDER BY id DESC"
    );
}

#[test]
fn append_numbers_messages_from_one() {
    let mut log = MessageLog::new();
    assert_eq!(log.len(), 0);
    assert_eq!(
        log.append(3, String::from("a"), String::from("t"), String::from("c")),
        Some(1)
    );
    assert_eq!(
        log.append(4, String::from("b"), String::from("t"), String::from("d")),
        Some(2)
    );
    assert_eq!(log.len(), 2);
    let w = log.query(4, None, None);
    assert_eq!(
        w.rows,
        vec![Message {
            id: 2,
            room_id: 4,
            user: String::from("b"),
            timestamp: String::from("t"),
            content: String::from("d"),
        }]
    );
}

#[test]
fn duplicate_copies_every_field() {
    let m = message(42, 3);
    assert_eq!(duplicate(&m), m);
}

#[test]
fn decimal_string_agrees_with_the_standard_library() {
    for n in [
        0i64,
        1,
        9,
        10,
        11,
        99,
        100,
        12345,
        -1,
        -9,
        -10,
        -12345,
        i64::MAX,
        i64::MIN,
        i64::MIN + 1,
        1_000_000_007,
    ] {
        assert_eq!(decimal_string(n), format!("{}", n));
    }
    assert_eq!(decimal_string(-907), "-907");
    assert_eq!(decimal_string(i64::MIN), "-9223372036854775808");
}

#[test]
fn fragment_carries_anchor_user_timestamp_and_content() {
    let m = Message {
        id: 17,
        room_id: 1,
        user: String::from("&lt;anon&gt;"),
        timestamp: String::from("2020-05-06 07:08:09.123"),
        content: String::from("<b>hi</b> &amp; bye"),
    };
    assert_eq!(
        render_message(&m),
        "<a name=\"e17\">[17]</a> &lt;anon&gt; (2020-05-06 07:08:09.123): <b>hi</b> &amp; bye<br />\n"
    );
}

#[test]
fn body_joins_fragments_in_the_rows_order() {
    let rows = vec![message(3, 1), message(2, 1)];
    let expected = format!(
        "<a name=\"e{}\">[{}]</a> {} ({}): {}<br />\n<a name=\"e{}\">[{}]</a> {} ({}): {}<br />\n",
        3, 3, "user3", "2020-01-02 03:04:05.678", "text 3",
        2, 2, "user2", "2020-01-02 03:04:05.678", "text 2"
    );
    assert_eq!(render_body(&rows), expected);
    assert_eq!(render_fragments(&rows).join(""), expected);
    assert_eq!(render_fragments(&rows).len(), 2);
    assert_eq!(render_body(&Vec::new()), "");
}

#[test]
fn posted_messages_are_stored_ready_to_show() {
    let mut log = MessageLog::new();
    let id = log.post(
        3,
        "<anon:1.2.3.4>",
        String::from("2021-02-03 04:05:06.007"),
        "[i]hi[/i] <there>".as_bytes(),
    );
    assert_eq!(id, Ok(1));
    assert_eq!(
        log.query(3, None, None).rows,
        vec![Message {
            id: 1,
            room_id: 3,
            user: String::from("&lt;anon:1.2.3.4&gt;"),
            timestamp: String::from("2021-02-03 04:05:06.007"),
            content: String::from("<i>hi</i> &lt;there&gt;"),
        }]
    );
    assert_eq!(
        log.fetch(3, None, None),
        (
            vec![String::from(
                "<a name=\"e1\">[1]</a> &lt;anon:1.2.3.4&gt; (2021-02-03 04:05:06.007): <i>hi</i> &lt;there&gt;<br />\n"
            )],
            Some(1),
            Some(1)
        )
    );
}

#[test]
fn post_refuses_a_body_that_is_not_utf8() {
    let mut log = log_of(2, 1);
    assert_eq!(
        log.post(1, "u", String::from("t"), &[0xff, 0xfe]),
        Err(ChatError::InvalidUtf8)
    );
    assert_eq!(log.len(), 2);
    assert_eq!(log.post(1, "u", String::from("t"), b"ok"), Ok(3));
    assert_eq!(log.len(), 3);
}

#[test]
fn fetch_gives_a_fragment_for_each_row() {
    let log = log_of(25, 7);
    let (fragments, first_id, last_id) = log.fetch(7, None, None);
    assert_eq!(fragments.len(), 20);
    assert_eq!(
        fragments[0],
        "<a name=\"e25\">[25]</a> user25 (2020-01-02 03:04:05.678): text 25<br />\n"
    );
    assert_eq!(
        fragments[19],
        "<a name=\"e6\">[6]</a> user6 (2020-01-02 03:04:05.678): text 6<br />\n"
    );
    assert_eq!((first_id, last_id), (Some(6), Some(25)));
    let (fragments, first_id, last_id) = log.fetch(7, Some(25), None);
    assert!(fragments.is_empty());
    assert_eq!((first_id, last_id), (Some(26), Some(25)));
}
