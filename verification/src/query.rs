//! Building the GraphQL query document and the JSON request body for one
//! user's contribution calendar.
//!
//! The username is interpolated directly into the query document without
//! validation: the service's parameterized-variable mechanism is not used,
//! so a hostile username is an injection surface at the document level.
//! The JSON body layer, by contrast, escapes the document verbatim.

use vstd::prelude::*;

verus! {

/// The document text before the login name.
pub open spec fn query_prefix() -> Seq<char> {
    "{ user(login: \""@
}

/// The document text after the login name: the selection of the calendar's
/// total, weeks, and per-day date, count and color.
pub open spec fn query_suffix() -> Seq<char> {
    "\") { contributionsCollection { contributionCalendar { totalContributions weeks { contributionDays { date contributionCount color } } } } } }"@
}

/// The GraphQL query document for `login`.
pub open spec fn query_doc(login: Seq<char>) -> Seq<char> {
    query_prefix() + login + query_suffix()
}

/// How one character is written inside a JSON string literal: quote and
/// backslash get a backslash escape, everything else stands as itself.
pub open spec fn esc_char(c: char) -> Seq<char> {
    if c == '"' {
        seq!['\\', '"']
    } else if c == '\\' {
        seq!['\\', '\\']
    } else {
        seq![c]
    }
}

/// `s` written as the contents of a JSON string literal.
pub open spec fn json_escaped(s: Seq<char>) -> Seq<char>
    decreases s.len(),
{
    if s.len() == 0 {
        Seq::empty()
    } else {
        esc_char(s[0]) + json_escaped(s.subrange(1, s.len() as int))
    }
}

/// The POST body: a JSON object whose single `query` member holds the
/// escaped query document.
pub open spec fn body_spec(login: Seq<char>) -> Seq<char> {
    "{\"query\":\""@ + json_escaped(query_doc(login)) + "\"}"@
}

proof fn lemma_escaped_append(a: Seq<char>, b: Seq<char>)
    ensures
        json_escaped(a + b) == json_escaped(a) + json_escaped(b),
    decreases a.len(),
{
    if a.len() == 0 {
        assert(a + b =~= b);
        assert(json_escaped(a) + json_escaped(b) =~= json_escaped(b));
    } else {
        let t = a.subrange(1, a.len() as int);
        lemma_escaped_append(t, b);
        assert((a + b).subrange(1, (a + b).len() as int) =~= t + b);
        assert(json_escaped(a + b) == esc_char(a[0]) + (json_escaped(t) + json_escaped(b)));
        assert(esc_char(a[0]) + (json_escaped(t) + json_escaped(b)) =~= (esc_char(a[0])
            + json_escaped(t)) + json_escaped(b));
    }
}

proof fn lemma_escaped_plain(s: Seq<char>)
    requires
        forall|i: int| 0 <= i < s.len() ==> s[i] != '"' && s[i] != '\\',
    ensures
        json_escaped(s) == s,
    decreases s.len(),
{
    if s.len() == 0 {
        assert(json_escaped(s) =~= s);
    } else {
        let t = s.subrange(1, s.len() as int);
        lemma_escaped_plain(t);
        assert(esc_char(s[0]) + t =~= s);
    }
}

proof fn lemma_escaped_one(s: Seq<char>, c: char)
    ensures
        json_escaped(s + seq![c]) == json_escaped(s) + esc_char(c),
{
    lemma_escaped_append(s, seq![c]);
    let u = seq![c];
    assert(u.subrange(1, 1) =~= Seq::<char>::empty());
    assert(esc_char(c) + json_escaped(u.subrange(1, 1)) =~= esc_char(c));
}

/// Write `s` as the contents of a JSON string literal, escaping quotes and
/// backslashes.
pub fn json_escape(s: &str) -> (r: String)
    ensures
        r@ == json_escaped(s@),
{
    let n = s.unicode_len();
    let mut out = String::new();
    let mut start: usize = 0;
    let mut i: usize = 0;
    while i < n
        invariant
            0 <= start <= i <= n,
            n == s@.len(),
            out@ == json_escaped(s@.subrange(0, start as int)),
            forall|j: int| start <= j < i ==> s@[j] != '"' && s@[j] != '\\',
        decreases n - i,
    {
        let c = s.get_char(i);
        if c == '"' || c == '\\' {
            out.append(s.substring_char(start, i));
            proof {
                lemma_escaped_plain(s@.subrange(start as int, i as int));
                lemma_escaped_append(s@.subrange(0, start as int), s@.subrange(start as int, i as int));
                assert(s@.subrange(0, start as int) + s@.subrange(start as int, i as int) =~= s@.subrange(0, i as int));
            }
            if c == '"' {
                out.append("\\\"");
                proof {
                    reveal_strlit("\\\"");
                    lemma_escaped_one(s@.subrange(0, i as int), c);
                    assert("\\\""@ =~= esc_char(c));
                    assert(s@.subrange(0, i as int) + seq![c] =~= s@.subrange(0, i as int + 1));
                }
            } else {
                out.append("\\\\");
                proof {
                    reveal_strlit("\\\\");
                    lemma_escaped_one(s@.subrange(0, i as int), c);
                    assert("\\\\"@ =~= esc_char(c));
                    assert(s@.subrange(0, i as int) + seq![c] =~= s@.subrange(0, i as int + 1));
                }
            }
            start = i + 1;
        }
        i = i + 1;
    }
    out.append(s.substring_char(start, n));
    proof {
        lemma_escaped_plain(s@.subrange(start as int, n as int));
        lemma_escaped_append(s@.subrange(0, start as int), s@.subrange(start as int, n as int));
        assert(s@.subrange(0, start as int) + s@.subrange(start as int, n as int) =~= s@.subrange(0, n as int));
        assert(s@.subrange(0, n as int) =~= s@);
    }
    out
}

/// Compose the GraphQL query document for `username`. The name is spliced
/// in verbatim (see the module note on injection).
pub fn build_query(username: &str) -> (q: String)
    ensures
        q@ == query_doc(username@),
{
    let mut q = String::from_str("{ user(login: \"");
    q.append(username);
    q.append(
        "\") { contributionsCollection { contributionCalendar { totalContributions weeks { contributionDays { date contributionCount color } } } } } }",
    );
    q
}

/// Compose the JSON POST body carrying the query document for `username`.
pub fn request_body(username: &str) -> (b: String)
    ensures
        b@ == body_spec(username@),
{
    let q = build_query(username);
    let e = json_escape(q.as_str());
    let mut b = String::from_str("{\"query\":\"");
    b.append(e.as_str());
    b.append("\"}");
    b
}

} // verus!
