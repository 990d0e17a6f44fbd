//! Response classification and the fetch lifecycle state machine.
//!
//! A worker performs one HTTP exchange and hands back either the response
//! text or a transport failure; everything after that point is decided
//! here: the strict precedence among transport, parse, server-reported and
//! missing-data failures, and the idle/in-flight state transitions that
//! keep at most one fetch outstanding.

use vstd::prelude::*;
use crate::codec::{envelope_view, parse_envelope, parse_envelope_text, EnvelopeView};
use crate::model::{messages_view, ContributionCalendar, Envelope};
use crate::query;

verus! {

/// The single outcome of one fetch: the calendar together with the raw
/// response text, or a human-readable failure message.
pub type FetchResult = Result<(ContributionCalendar, String), String>;

/// Whether the envelope carries a non-empty `errors` list.
pub open spec fn has_api_errors(env: Envelope) -> bool {
    env.errors matches Some(es) && es@.len() > 0
}

/// `m` written inside double quotes.
pub open spec fn quoted(m: Seq<char>) -> Seq<char> {
    seq!['"'] + m + seq!['"']
}

/// The first `k` messages, quoted and comma-separated.
pub open spec fn msgs_prefix(ms: Seq<Seq<char>>, k: int) -> Seq<char>
    decreases k,
{
    if k <= 0 {
        Seq::empty()
    } else if k == 1 {
        quoted(ms[0])
    } else {
        msgs_prefix(ms, k - 1) + seq![',', ' '] + quoted(ms[k - 1])
    }
}

/// The failure text for server-reported errors: every message, quoted, in
/// a bracketed list.
pub open spec fn api_errors_message(ms: Seq<Seq<char>>) -> Seq<char> {
    "API errors: ["@ + msgs_prefix(ms, ms.len() as int) + "]"@
}

/// Whether `needle` occurs contiguously inside `hay`.
pub open spec fn contains_text(hay: Seq<char>, needle: Seq<char>) -> bool {
    exists|i: int|
        0 <= i && i + needle.len() <= hay.len() && #[trigger] hay.subrange(
            i,
            i + needle.len() as int,
        ) == needle
}

proof fn lemma_contains_append_right(a: Seq<char>, b: Seq<char>, x: Seq<char>)
    requires
        contains_text(a, x),
    ensures
        contains_text(a + b, x),
{
    let i = choose|i: int|
        0 <= i && i + x.len() <= a.len() && #[trigger] a.subrange(i, i + x.len() as int) == x;
    assert((a + b).subrange(i, i + x.len() as int) =~= a.subrange(i, i + x.len() as int));
}

proof fn lemma_contains_append_left(a: Seq<char>, b: Seq<char>, x: Seq<char>)
    requires
        contains_text(b, x),
    ensures
        contains_text(a + b, x),
{
    let i = choose|i: int|
        0 <= i && i + x.len() <= b.len() && #[trigger] b.subrange(i, i + x.len() as int) == x;
    assert((a + b).subrange(a.len() + i, a.len() + i + x.len() as int) =~= b.subrange(
        i,
        i + x.len() as int,
    ));
}

proof fn lemma_msgs_prefix_contains(ms: Seq<Seq<char>>, k: int, j: int)
    requires
        0 <= j < k <= ms.len(),
    ensures
        contains_text(msgs_prefix(ms, k), ms[j]),
    decreases k,
{
    if j == k - 1 {
        assert(quoted(ms[j]).subrange(1, 1 + ms[j].len() as int) =~= ms[j]);
        assert(contains_text(quoted(ms[j]), ms[j]));
        if k > 1 {
            lemma_contains_append_left(
                msgs_prefix(ms, k - 1) + seq![',', ' '],
                quoted(ms[k - 1]),
                ms[j],
            );
        }
    } else {
        lemma_msgs_prefix_contains(ms, k - 1, j);
        lemma_contains_append_right(
            msgs_prefix(ms, k - 1),
            seq![',', ' '] + quoted(ms[k - 1]),
            ms[j],
        );
        assert(msgs_prefix(ms, k) =~= msgs_prefix(ms, k - 1) + (seq![',', ' '] + quoted(
            ms[k - 1],
        )));
    }
}

/// Law: when the service reports errors, the failure text contains every
/// reported message verbatim.
pub proof fn lemma_api_errors_message_contains_all(ms: Seq<Seq<char>>, j: int)
    requires
        0 <= j < ms.len(),
    ensures
        contains_text(api_errors_message(ms), ms[j]),
{
    lemma_msgs_prefix_contains(ms, ms.len() as int, j);
    lemma_contains_append_right(msgs_prefix(ms, ms.len() as int), "]"@, ms[j]);
    lemma_contains_append_left("API errors: ["@, msgs_prefix(ms, ms.len() as int) + "]"@, ms[j]);
    assert(api_errors_message(ms) =~= "API errors: ["@ + (msgs_prefix(ms, ms.len() as int)
        + "]"@));
}

/// Join the server-reported error messages into one failure text.
fn api_errors_text(msgs: &Vec<String>) -> (r: String)
    ensures
        r@ == api_errors_message(messages_view(msgs@)),
{
    let ghost mv = messages_view(msgs@);
    let mut r = String::from_str("API errors: [");
    let mut k: usize = 0;
    while k < msgs.len()
        invariant
            k <= msgs@.len(),
            mv == messages_view(msgs@),
            r@ == "API errors: ["@ + msgs_prefix(mv, k as int),
        decreases msgs@.len() - k,
    {
        if k > 0 {
            r.append(", ");
        }
        r.append("\"");
        r.append(msgs[k].as_str());
        r.append("\"");
        proof {
            reveal_strlit("\"");
            reveal_strlit(", ");
            if k == 0 {
                assert(r@ =~= "API errors: ["@ + msgs_prefix(mv, k as int + 1));
            } else {
                assert(r@ =~= "API errors: ["@ + (msgs_prefix(mv, k as int) + seq![',', ' ']
                    + quoted(mv[k as int])));
            }
        }
        k = k + 1;
    }
    r.append("]");
    r
}

/// Classify a decoded envelope, in strict precedence order: non-empty
/// server-reported errors first (even beside populated data), then absent
/// `user`, then absent `data`, and otherwise success carrying the calendar
/// verbatim together with the raw response text.
pub fn classify_envelope(env: Envelope, raw: String) -> (r: FetchResult)
    ensures
        has_api_errors(env) ==> (r matches Err(m) && m@ == api_errors_message(
            messages_view(env.errors->0@),
        )),
        !has_api_errors(env) && env.data is Some && env.data->0.user is Some ==> (
        r matches Ok(p) && p.0 == env.data->0.user->0 && p.1 == raw),
        !has_api_errors(env) && env.data is Some && env.data->0.user is None ==> (
        r matches Err(m) && m@ == "No user data returned"@),
        !has_api_errors(env) && env.data is None ==> (r matches Err(m) && m@
            == "No data returned"@),
{
    match &env.errors {
        Some(errs) => {
            if errs.len() > 0 {
                return Err(api_errors_text(errs));
            }
        },
        None => {},
    }
    match env.data {
        Some(d) => match d.user {
            Some(cal) => Ok((cal, raw)),
            None => Err(String::from_str("No user data returned")),
        },
        None => Err(String::from_str("No data returned")),
    }
}

/// Whether a decoded envelope carries a non-empty `errors` list.
pub open spec fn view_has_errors(ev: EnvelopeView) -> bool {
    ev.errors matches Some(ms) && ms.len() > 0
}

/// The worker's whole decision after the HTTP exchange: decode the
/// response text and classify it. A text outside the envelope shape is a
/// parse failure; otherwise the precedence of `classify_envelope`
/// applies, with the raw text kept alongside a successful calendar.
pub fn classify_response(text: String) -> (r: FetchResult)
    ensures
        parse_envelope(text@) is None ==> (r matches Err(m) && m@
            == "JSON parse error: unrecognized envelope"@),
        parse_envelope(text@) is Some && view_has_errors(parse_envelope(text@)->0) ==> (
        r matches Err(m) && m@ == api_errors_message((parse_envelope(text@)->0).errors->0)),
        parse_envelope(text@) is Some && !view_has_errors(parse_envelope(text@)->0) && (
        parse_envelope(text@)->0).data is Some && ((parse_envelope(text@)->0).data->0) is Some ==> (
        r matches Ok(p) && p.0@ == ((parse_envelope(text@)->0).data->0)->0 && p.1 == text),
        parse_envelope(text@) is Some && !view_has_errors(parse_envelope(text@)->0) && (
        parse_envelope(text@)->0).data is Some && ((parse_envelope(text@)->0).data->0) is None ==> (
        r matches Err(m) && m@ == "No user data returned"@),
        parse_envelope(text@) is Some && !view_has_errors(parse_envelope(text@)->0) && (
        parse_envelope(text@)->0).data is None ==> (r matches Err(m) && m@ == "No data returned"@),
{
    let env = match parse_envelope_text(text.as_str()) {
        Some(e) => e,
        None => {
            return Err(String::from_str("JSON parse error: unrecognized envelope"));
        },
    };
    proof {
        let ev = envelope_view(env);
        assert(parse_envelope(text@) == Some(ev));
        if env.errors is Some {
            assert(ev.errors == Some(messages_view(env.errors->0@)));
            assert(messages_view(env.errors->0@).len() == env.errors->0@.len());
        } else {
            assert(ev.errors is None);
        }
        assert(view_has_errors(ev) == has_api_errors(env));
        if env.data is Some {
            if env.data->0.user is Some {
                assert(ev.data == Some(Some(env.data->0.user->0@)));
            } else {
                assert(ev.data == Some(Option::<crate::model::CalendarView>::None));
            }
        } else {
            assert(ev.data is None);
        }
    }
    classify_envelope(env, text)
}

/// The failure message for a transport-level error, from its details.
pub fn transport_failure(details: &str) -> (r: String)
    ensures
        r@ == "Request error: "@ + details@,
{
    let mut r = String::from_str("Request error: ");
    r.append(details);
    r
}

/// The fetch lifecycle: idle, one fetch outstanding, or the latest
/// terminal outcome. At most one state is ever held; a new outcome
/// replaces the prior one wholesale.
pub enum FetchState {
    Idle,
    InFlight,
    Succeeded(ContributionCalendar),
    Failed(String),
}

/// What a trigger asks the caller to do: POST this body to the service on
/// a fresh execution context, with a fresh result channel.
pub struct FetchRequest {
    pub body: String,
}

/// Owner of the fetch lifecycle. It decides; the caller performs the HTTP
/// exchange and hands the outcome back through `apply_result`.
pub struct FetchCoordinator {
    pub state: FetchState,
    pub raw_log: Option<String>,
}

impl FetchCoordinator {
    /// A coordinator starts idle, with no logged response.
    pub fn new() -> (c: Self)
        ensures
            c.state is Idle,
            c.raw_log is None,
    {
        FetchCoordinator { state: FetchState::Idle, raw_log: None }
    }

    /// Ask for a fetch. While one is already in flight this is a silent
    /// no-op: no second worker is requested and nothing changes. From any
    /// other state it moves to in-flight and hands back the request body
    /// to post for `username`.
    pub fn trigger(&mut self, username: &str) -> (req: Option<FetchRequest>)
        ensures
            old(self).state is InFlight ==> *final(self) == *old(self) && req is None,
            !(old(self).state is InFlight) ==> final(self).state is InFlight
                && final(self).raw_log == old(self).raw_log
                && (req matches Some(fr) && fr.body@ == query::body_spec(username@)),
    {
        match &self.state {
            FetchState::InFlight => None,
            _ => {
                self.state = FetchState::InFlight;
                Some(FetchRequest { body: query::request_body(username) })
            },
        }
    }

    /// Apply a worker's outcome: success replaces the state with the
    /// fetched calendar and keeps the raw response text; failure replaces
    /// it with the message and clears the log.
    pub fn apply_result(&mut self, r: FetchResult)
        ensures
            r matches Ok(p) ==> final(self).state == FetchState::Succeeded(p.0)
                && final(self).raw_log == Some(p.1),
            r matches Err(m) ==> final(self).state == FetchState::Failed(m)
                && final(self).raw_log is None,
    {
        match r {
            Ok((cal, raw)) => {
                self.state = FetchState::Succeeded(cal);
                self.raw_log = Some(raw);
            },
            Err(m) => {
                self.state = FetchState::Failed(m);
                self.raw_log = None;
            },
        }
    }
}

} // verus!
