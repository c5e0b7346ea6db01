//! Which request is meant: from method, path and query to what is to be
//! served.

use vstd::prelude::*;
use vstd::string::*;
use crate::number::{parse_i64, parsed_i64};
use crate::text::{starts_with, str_eq, strip_prefix, trim_end_char, trimmed_end};

verus! {

/// The request methods that are told apart.
#[derive(Debug, Clone, Copy, PartialEq, Eq)]
pub enum Method {
    Get,
    Post,
    Other,
}

/// What is to be served.
#[derive(Debug, Clone, PartialEq, Eq)]
pub enum Route<'a> {
    /// Send the client on to this location.
    Redirect(String),
    /// There is no such thing.
    NotFound,
    /// The client's script.
    Script,
    /// Nothing else is served from the static files.
    MethodNotAllowed,
    /// Store the request's body as a message in this room.
    Post { chat: &'a str },
    /// Answer with a window of this room's history.
    History { chat: &'a str, lower: Option<i64>, upper: Option<i64> },
    /// Answer with the page, opened on the room named.
    Page { show_chat: Option<String> },
}

/// A route with texts as sequences of characters.
pub enum RouteView {
    Redirect(Seq<char>),
    NotFound,
    Script,
    MethodNotAllowed,
    Post { chat: Seq<char> },
    History { chat: Seq<char>, lower: Option<i64>, upper: Option<i64> },
    Page { show_chat: Option<Seq<char>> },
}

/// An optional text as an optional sequence of characters.
pub open spec fn text_view(s: Option<&str>) -> Option<Seq<char>> {
    match s {
        Some(s) => Some(s@),
        None => None,
    }
}

impl<'a> Route<'a> {
    /// The route with its texts as sequences of characters.
    pub open spec fn view(&self) -> RouteView {
        match *self {
            Route::Redirect(to) => RouteView::Redirect(to@),
            Route::NotFound => RouteView::NotFound,
            Route::Script => RouteView::Script,
            Route::MethodNotAllowed => RouteView::MethodNotAllowed,
            Route::Post { chat } => RouteView::Post { chat: chat@ },
            Route::History { chat, lower, upper } => RouteView::History { chat: chat@, lower, upper },
            Route::Page { show_chat } => RouteView::Page {
                show_chat: match show_chat {
                    Some(s) => Some(s@),
                    None => None,
                },
            },
        }
    }
}

/// The fields of a query as texts.
pub open spec fn pairs_of(fields: Seq<(String, String)>) -> Seq<(Seq<char>, Seq<char>)> {
    fields.map_values(|p: (String, String)| (p.0@, p.1@))
}

/// The value of the last field named `name`.
pub open spec fn value_of(fields: Seq<(Seq<char>, Seq<char>)>, name: Seq<char>) -> Option<
    Seq<char>,
>
    decreases fields.len(),
{
    if fields.len() == 0 {
        None
    } else if fields.last().0 == name {
        Some(fields.last().1)
    } else {
        value_of(fields.drop_last(), name)
    }
}

/// The integer in the field named `name`, if the field is there and holds one.
pub open spec fn bound_of(fields: Seq<(Seq<char>, Seq<char>)>, name: Seq<char>) -> Option<i64> {
    match value_of(fields, name) {
        Some(v) => parsed_i64(v),
        None => None,
    }
}

/// Where a request for the root that lacks the prefix is sent on to: the
/// prefix and two slashes, and the query behind them as it came.
pub open spec fn redirect_of(vroot: Seq<char>, query: Option<Seq<char>>) -> Seq<char> {
    vroot + "/"@ + "/"@ + match query {
        Some(q) => "?"@ + q,
        None => Seq::empty(),
    }
}

/// What a `GET` of a room's path asks for: with a bound that is a number,
/// or with the lower bound `cur`, a window of the history; else the page.
pub open spec fn get_route_of(chat: Seq<char>, fields: Seq<(Seq<char>, Seq<char>)>) -> RouteView {
    let lower = bound_of(fields, "lower_bound"@);
    let upper = bound_of(fields, "upper_bound"@);
    if lower is Some || upper is Some || value_of(fields, "lower_bound"@) == Some("cur"@) {
        RouteView::History { chat, lower, upper }
    } else {
        RouteView::Page { show_chat: value_of(fields, "show_chat"@) }
    }
}

/// What a request asks for. A path outside the prefix `vroot` is unknown,
/// but for the root, which is sent on. Within the prefix, slashes at the end
/// do not count; the static files come first, then the method decides, and
/// the rest of the path names the room.
pub open spec fn route_of(
    method: Method,
    path: Seq<char>,
    query: Option<Seq<char>>,
    vroot: Seq<char>,
    fields: Seq<(Seq<char>, Seq<char>)>,
) -> RouteView {
    if !vroot.is_prefix_of(path) {
        if path == "/"@ {
            RouteView::Redirect(redirect_of(vroot, query))
        } else {
            RouteView::NotFound
        }
    } else {
        let local = trimmed_end(path.skip(vroot.len() as int), '/');
        if method == Method::Get && local == "/static/zlc.js"@ {
            RouteView::Script
        } else if "/static/"@.is_prefix_of(local) || local == "/static"@ {
            RouteView::MethodNotAllowed
        } else if local == "/favicon.ico"@ {
            RouteView::NotFound
        } else if method == Method::Post {
            RouteView::Post { chat: local }
        } else if method == Method::Get {
            get_route_of(local, fields)
        } else {
            RouteView::NotFound
        }
    }
}

/// The fields that a query holds, in the query's order, as
/// `url::form_urlencoded::parse` reads them.
pub uninterp spec fn form_pairs(query: Seq<char>) -> Seq<(Seq<char>, Seq<char>)>;

/// `url::form_urlencoded::parse`, on the bytes of `query`: the fields of the
/// query, each a name and a value, decoded. What it gives depends on the
/// query alone. Believed, not proved.
#[verifier::external_body]
fn parse_query(query: &str) -> (r: Vec<(String, String)>)
    ensures
        pairs_of(r@) == form_pairs(query@),
{
    url::form_urlencoded::parse(query.as_bytes()).into_owned().collect()
}

/// The fields that a query holds: name and value of each, decoded, in the
/// query's order. A request without a query has none to read.
pub fn query_fields(query: Option<&str>) -> (r: Vec<(String, String)>)
    ensures
        pairs_of(r@) == form_pairs(
            match query {
                Some(q) => q@,
                None => ""@,
            },
        ),
{
    match query {
        Some(q) => parse_query(q),
        None => parse_query(""),
    }
}

/// The value of the last field named `name`.
pub fn lookup<'a>(fields: &'a Vec<(String, String)>, name: &str) -> (r: Option<&'a str>)
    ensures
        text_view(r) == value_of(pairs_of(fields@), name@),
{
    let ghost all = pairs_of(fields@);
    let mut i: usize = fields.len();
    proof {
        assert(all.take(i as int) == all);
    }
    while i > 0
        invariant
            0 <= i <= fields.len(),
            all == pairs_of(fields@),
            value_of(all, name@) == value_of(all.take(i as int), name@),
        decreases i,
    {
        i -= 1;
        proof {
            assert(all.take(i + 1).drop_last() == all.take(i as int));
            assert(all.take(i + 1).last() == (fields@[i as int].0@, fields@[i as int].1@));
        }
        if str_eq(fields[i].0.as_str(), name) {
            return Some(fields[i].1.as_str());
        }
    }
    None
}

/// Where a request for the root that lacks the prefix is sent on to.
pub fn redirect_target(vroot: &str, query: Option<&str>) -> (r: String)
    ensures
        r@ == redirect_of(vroot@, text_view(query)),
{
    let mut dst = String::from_str(vroot);
    dst.append("/");
    dst.append("/");
    let ghost base = dst@;
    match query {
        Some(q) => {
            dst.append("?");
            dst.append(q);
            proof {
                assert(base + "?"@ + q@ == base + ("?"@ + q@));
            }
        },
        None => {
            proof {
                assert(base + Seq::<char>::empty() == base);
            }
        },
    }
    dst
}

/// What a `GET` of a room's path asks for, given the fields of its query.
pub fn get_route<'a>(chat: &'a str, fields: &Vec<(String, String)>) -> (r: Route<'a>)
    ensures
        r@ == get_route_of(chat@, pairs_of(fields@)),
{
    let lower_text = lookup(fields, "lower_bound");
    let lower = match lower_text {
        Some(v) => parse_i64(v),
        None => None,
    };
    let upper = match lookup(fields, "upper_bound") {
        Some(v) => parse_i64(v),
        None => None,
    };
    let current = match lower_text {
        Some(v) => str_eq(v, "cur"),
        None => false,
    };
    if lower.is_some() || upper.is_some() || current {
        Route::History { chat, lower, upper }
    } else {
        let show_chat = match lookup(fields, "show_chat") {
            Some(name) => Some(String::from_str(name)),
            None => None,
        };
        Route::Page { show_chat }
    }
}

/// What a request asks for, given the fields of its query.
pub fn route_with<'a>(
    method: Method,
    path: &'a str,
    query: Option<&str>,
    vroot: &str,
    fields: &Vec<(String, String)>,
) -> (r: Route<'a>)
    ensures
        r@ == route_of(method, path@, text_view(query), vroot@, pairs_of(fields@)),
{
    let rest = match strip_prefix(path, vroot) {
        None => {
            return if str_eq(path, "/") {
                Route::Redirect(redirect_target(vroot, query))
            } else {
                Route::NotFound
            };
        },
        Some(rest) => rest,
    };
    let local = trim_end_char(rest, '/');
    let is_get = match method {
        Method::Get => true,
        _ => false,
    };
    let is_post = match method {
        Method::Post => true,
        _ => false,
    };
    if is_get && str_eq(local, "/static/zlc.js") {
        Route::Script
    } else if starts_with(local, "/static/") || str_eq(local, "/static") {
        Route::MethodNotAllowed
    } else if str_eq(local, "/favicon.ico") {
        Route::NotFound
    } else if is_post {
        Route::Post { chat: local }
    } else if is_get {
        get_route(local, fields)
    } else {
        Route::NotFound
    }
}

/// What a request asks for.
pub fn route<'a>(method: Method, path: &'a str, query: Option<&str>, vroot: &str) -> (r: Route<'a>)
    ensures
        r@ == route_of(
            method,
            path@,
            text_view(query),
            vroot@,
            form_pairs(
                match query {
                    Some(q) => q@,
                    None => ""@,
                },
            ),
        ),
{
    let fields = query_fields(query);
    route_with(method, path, query, vroot, &fields)
}

} // verus!
