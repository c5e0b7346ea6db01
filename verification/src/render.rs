//! The HTML that an answer is sent as: one fragment per message.

use vstd::prelude::*;
use vstd::string::*;
use crate::history::Message;
use crate::number::{decimal, decimal_string};

verus! {

/// The fragment for one message: an anchor named after the id, then user,
/// timestamp and content as they are stored, and a line break.
pub open spec fn fragment(m: Message) -> Seq<char> {
    "<a name=\"e"@ + decimal(m.id as int) + "\">["@ + decimal(m.id as int) + "]</a> "@ + m.user@
        + " ("@ + m.timestamp@ + "): "@ + m.content@ + "<br />\n"@
}

/// The body of an answer: the rows' fragments one after the other, in the
/// rows' order.
pub open spec fn body_of(rows: Seq<Message>) -> Seq<char>
    decreases rows.len(),
{
    if rows.len() == 0 {
        Seq::empty()
    } else {
        body_of(rows.drop_last()) + fragment(rows.last())
    }
}

/// The fragment for one message.
pub fn render_message(m: &Message) -> (r: String)
    ensures
        r@ == fragment(*m),
{
    let id = decimal_string(m.id);
    let mut out = String::from_str("<a name=\"e");
    out.append(id.as_str());
    out.append("\">[");
    out.append(id.as_str());
    out.append("]</a> ");
    out.append(m.user.as_str());
    out.append(" (");
    out.append(m.timestamp.as_str());
    out.append("): ");
    out.append(m.content.as_str());
    out.append("<br />\n");
    out
}

/// The fragments of the rows, one for each, in the rows' order.
pub fn render_fragments(rows: &Vec<Message>) -> (out: Vec<String>)
    ensures
        out@.len() == rows@.len(),
        forall|i: int| 0 <= i < rows@.len() ==> (#[trigger] out@[i])@ == fragment(rows@[i]),
{
    let mut out: Vec<String> = Vec::new();
    let mut i: usize = 0;
    while i < rows.len()
        invariant
            0 <= i <= rows.len(),
            out@.len() == i,
            forall|j: int| 0 <= j < i ==> (#[trigger] out@[j])@ == fragment(rows@[j]),
        decreases rows.len() - i,
    {
        out.push(render_message(&rows[i]));
        i += 1;
    }
    out
}

/// The body of an answer: the rows' fragments joined without a separator.
pub fn render_body(rows: &Vec<Message>) -> (r: String)
    ensures
        r@ == body_of(rows@),
{
    let mut out = String::new();
    let mut i: usize = 0;
    proof {
        assert(rows@.take(0) == Seq::<Message>::empty());
    }
    while i < rows.len()
        invariant
            0 <= i <= rows.len(),
            out@ == body_of(rows@.take(i as int)),
        decreases rows.len() - i,
    {
        let piece = render_message(&rows[i]);
        out.append(piece.as_str());
        proof {
            let next = rows@.take(i + 1);
            assert(next.drop_last() == rows@.take(i as int));
            assert(next.last() == rows@[i as int]);
        }
        i += 1;
    }
    proof {
        assert(rows@.take(rows@.len() as int) == rows@);
    }
    out
}

/// The page that reports an error: a fixed head, the message, and a fixed
/// tail, each on lines of its own.
pub open spec fn error_page_of(msg: Seq<char>) -> Seq<char> {
    "<!doctype html>\n<html>\n<head><title>ERROR occured in chat app</title></head>\n<body>\n  <h1>ERROR in chat app</h1>\n  <p style=\"color: red;\">Error:\n"@
        + msg + "\n"@ + "  </p>\n</body>\n</html>\n"@ + "\n"@
}

/// The page that reports an error. The message goes in as it is.
pub fn error_page(msg: &str) -> (r: String)
    ensures
        r@ == error_page_of(msg@),
{
    let mut out = String::from_str(
        "<!doctype html>\n<html>\n<head><title>ERROR occured in chat app</title></head>\n<body>\n  <h1>ERROR in chat app</h1>\n  <p style=\"color: red;\">Error:\n",
    );
    out.append(msg);
    out.append("\n");
    out.append("  </p>\n</body>\n</html>\n");
    out.append("\n");
    out
}

/// The message for a failure: what failed, and where.
pub fn failure_message(detail: &str, context: &str) -> (r: String)
    ensures
        r@ == detail@ + " in "@ + context@,
{
    let mut out = String::from_str(detail);
    out.append(" in ");
    out.append(context);
    out
}

} // verus!
