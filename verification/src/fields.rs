//! Request fields: where a named input is read from. A field may come from
//! the query string, the JSON body, a header or a default, in that order of
//! priority; a source that holds the field but in an unusable form makes the
//! field invalid, and lower sources are then not consulted.

use serde_json::Value;
use vstd::prelude::*;

use crate::text::{
    ascii_lower, ascii_lowercase, chars_of, str_eq, string_from_chars, string_from_range, trim_bounds,
    trim_str, trimmed,
};

verus! {

// ---------------------------------------------------------------------------
// Sources
// ---------------------------------------------------------------------------

/// A value of the JSON request body: a string, or any other JSON value.
#[derive(Debug, Clone)]
pub enum BodyValue {
    Text(String),
    NotText,
}

/// What a source says of a field that it holds: its text, or that the
/// value there cannot be used.
#[derive(Debug, Clone)]
pub enum SelectedValue {
    Present(String),
    Invalid,
}

/// A selection seen as plain values: `None` when the source lacks the
/// field, `Some(Some(text))` when it holds usable text, `Some(None)` when it
/// holds an unusable value.
pub open spec fn selected_view(s: Option<SelectedValue>) -> Option<Option<Seq<char>>> {
    match s {
        None => None,
        Some(SelectedValue::Present(t)) => Some(Some(t@)),
        Some(SelectedValue::Invalid) => Some(None),
    }
}

/// The value of the first entry whose name is `key`.
pub open spec fn lookup_first<V>(entries: Seq<(String, V)>, key: Seq<char>) -> Option<V>
    decreases entries.len(),
{
    if entries.len() == 0 {
        None
    } else if entries[0].0@ == key {
        Some(entries[0].1)
    } else {
        lookup_first(entries.drop_first(), key)
    }
}

proof fn lemma_lookup_skip<V>(entries: Seq<(String, V)>, key: Seq<char>, i: int)
    requires
        0 <= i <= entries.len(),
        forall|k: int| 0 <= k < i ==> (#[trigger] entries[k]).0@ != key,
    ensures
        lookup_first(entries, key) == lookup_first(entries.subrange(i, entries.len() as int), key),
    decreases i,
{
    if i == 0 {
        assert(entries.subrange(0, entries.len() as int) =~= entries);
    } else {
        let t = entries.drop_first();
        assert forall|k: int| 0 <= k < i - 1 implies (#[trigger] t[k]).0@ != key by {
            assert(t[k] == entries[k + 1]);
        }
        assert(entries[0].0@ != key);
        lemma_lookup_skip(t, key, i - 1);
        assert(t.subrange(i - 1, t.len() as int) =~= entries.subrange(i, entries.len() as int));
    }
}

/// The position of the first entry named `key`.
pub fn entry_position<V>(entries: &[(String, V)], key: &str) -> (res: Option<usize>)
    ensures
        match res {
            Some(i) => i < entries@.len() && lookup_first(entries@, key@) == Some(entries@[i as int].1),
            None => lookup_first(entries@, key@) is None,
        },
{
    let mut i: usize = 0;
    while i < entries.len()
        invariant
            i <= entries@.len(),
            forall|k: int| 0 <= k < i ==> (#[trigger] entries@[k]).0@ != key@,
        decreases entries@.len() - i,
    {
        if str_eq(entries[i].0.as_str(), key) {
            proof {
                lemma_lookup_skip(entries@, key@, i as int);
                let t = entries@.subrange(i as int, entries@.len() as int);
                assert(t[0] == entries@[i as int]);
            }
            return Some(i);
        }
        i = i + 1;
    }
    proof {
        lemma_lookup_skip(entries@, key@, i as int);
        assert(entries@.subrange(i as int, entries@.len() as int).len() == 0);
    }
    None
}

/// What the query string says of a field.
pub open spec fn query_candidate(field: Seq<char>, query: Seq<(String, String)>) -> Option<Option<Seq<char>>> {
    match lookup_first(query, field) {
        Some(v) => Some(Some(v@)),
        None => None,
    }
}

/// What the JSON body says of a field: only a string value is usable.
pub open spec fn body_candidate(field: Seq<char>, body: Seq<(String, BodyValue)>) -> Option<Option<Seq<char>>> {
    match lookup_first(body, field) {
        Some(BodyValue::Text(t)) => Some(Some(t@)),
        Some(BodyValue::NotText) => Some(None),
        None => None,
    }
}

/// Reads a field from the query string.
pub fn select_from_query(field_name: &str, query: &[(String, String)]) -> (res: Option<SelectedValue>)
    ensures
        selected_view(res) == query_candidate(field_name@, query@),
{
    match entry_position(query, field_name) {
        Some(i) => Some(SelectedValue::Present(query[i].1.clone())),
        None => None,
    }
}

/// Reads a field from the JSON body; a value that is not a string is unusable.
pub fn select_from_body(field_name: &str, body_map: &[(String, BodyValue)]) -> (res: Option<SelectedValue>)
    ensures
        selected_view(res) == body_candidate(field_name@, body_map@),
{
    match entry_position(body_map, field_name) {
        Some(i) => match &body_map[i].1 {
            BodyValue::Text(content) => Some(SelectedValue::Present(content.clone())),
            BodyValue::NotText => Some(SelectedValue::Invalid),
        },
        None => None,
    }
}

// ---------------------------------------------------------------------------
// Headers
// ---------------------------------------------------------------------------

/// A header byte that `HeaderValue::to_str` accepts: visible ASCII or tab.
pub open spec fn is_visible_ascii(b: u8) -> bool {
    (32 <= b && b < 127) || b == 9
}

/// A header value that reads as text.
pub open spec fn header_text_ok(bytes: Seq<u8>) -> bool {
    forall|i: int| 0 <= i < bytes.len() ==> is_visible_ascii(#[trigger] bytes[i])
}

/// The text of ASCII bytes, one character per byte.
pub open spec fn ascii_text(bytes: Seq<u8>) -> Seq<char> {
    Seq::new(bytes.len(), |i: int| bytes[i] as char)
}

/// The value of the first header with the given (lower-case) name.
pub open spec fn header_value(headers: Seq<(String, Vec<u8>)>, name: Seq<char>) -> Option<Seq<u8>> {
    match lookup_first(headers, name) {
        Some(v) => Some(v@),
        None => None,
    }
}

/// The first of two optional values that is present.
pub open spec fn or_else<T>(a: Option<T>, b: Option<T>) -> Option<T> {
    match a {
        Some(x) => Some(x),
        None => b,
    }
}

/// The text of a header value, as `HeaderValue::to_str` gives it: the value
/// read as ASCII when every byte is visible ASCII or tab, otherwise nothing.
pub fn header_text(bytes: &[u8]) -> (res: Option<String>)
    ensures
        res is Some <==> header_text_ok(bytes@),
        res matches Some(t) ==> t@ == ascii_text(bytes@),
{
    let mut cs: Vec<char> = Vec::new();
    let mut i: usize = 0;
    while i < bytes.len()
        invariant
            i <= bytes@.len(),
            forall|k: int| 0 <= k < i ==> is_visible_ascii(#[trigger] bytes@[k]),
            cs@ == ascii_text(bytes@.take(i as int)),
        decreases bytes@.len() - i,
    {
        let b = bytes[i];
        if !((32 <= b && b < 127) || b == 9) {
            return None;
        }
        cs.push(b as char);
        i = i + 1;
        assert(cs@ =~= ascii_text(bytes@.take(i as int)));
    }
    assert(bytes@.take(bytes@.len() as int) =~= bytes@);
    Some(string_from_chars(cs.as_slice()))
}

/// The length of the text before the first `sep` (all of it when there is none).
pub open spec fn piece_end(s: Seq<char>, sep: char) -> nat
    decreases s.len(),
{
    if s.len() == 0 || s[0] == sep {
        0
    } else {
        1 + piece_end(s.drop_first(), sep)
    }
}

/// The text before the first `sep`, as `split(sep).next()` gives it.
pub open spec fn first_piece(s: Seq<char>, sep: char) -> Seq<char> {
    s.take(piece_end(s, sep) as int)
}

proof fn lemma_piece_end_at(s: Seq<char>, sep: char, i: int)
    requires
        0 <= i <= s.len(),
        forall|k: int| 0 <= k < i ==> s[k] != sep,
        i == s.len() || s[i] == sep,
    ensures
        piece_end(s, sep) == i,
    decreases i,
{
    if i > 0 {
        let t = s.drop_first();
        assert forall|k: int| 0 <= k < i - 1 implies t[k] != sep by {
            assert(t[k] == s[k + 1]);
        }
        lemma_piece_end_at(t, sep, i - 1);
    }
}

/// The characters before the first `sep`.
pub fn first_piece_of(cs: &[char], sep: char) -> (res: Vec<char>)
    ensures
        res@ == first_piece(cs@, sep),
{
    let mut out: Vec<char> = Vec::new();
    let mut i: usize = 0;
    while i < cs.len() && cs[i] != sep
        invariant
            i <= cs@.len(),
            forall|k: int| 0 <= k < i ==> cs@[k] != sep,
            out@ == cs@.take(i as int),
        decreases cs@.len() - i,
    {
        out.push(cs[i]);
        i = i + 1;
        assert(out@ =~= cs@.take(i as int));
    }
    proof {
        lemma_piece_end_at(cs@, sep, i as int);
    }
    out
}

/// The characters `bearer ` (with the space).
pub open spec fn bearer_prefix() -> Seq<char> {
    seq!['b', 'e', 'a', 'r', 'e', 'r', ' ']
}

/// Text that starts with `bearer ` in any case of its letters.
pub open spec fn has_bearer_prefix(t: Seq<char>) -> bool {
    t.len() >= 7 && ascii_lowercase(t.take(7)) == bearer_prefix()
}

/// The header (or headers, tried in order) that a field is read from.
pub open spec fn header_candidate(field: Seq<char>, headers: Seq<(String, Vec<u8>)>) -> Option<Seq<u8>> {
    if field == "access_token"@ {
        or_else(header_value(headers, "access_token"@), header_value(headers, "authorization"@))
    } else if field == "refresh_token"@ {
        header_value(headers, "refresh_token"@)
    } else if field == "ip"@ {
        or_else(
            header_value(headers, "ip"@),
            or_else(header_value(headers, "x-forwarded-for"@), header_value(headers, "x-real-ip"@)),
        )
    } else if field == "user_agent"@ {
        or_else(header_value(headers, "user_agent"@), header_value(headers, "user-agent"@))
    } else {
        header_value(headers, field)
    }
}

/// The field value that the text of a header gives: an access token loses a
/// leading `bearer `; an address is the first comma-separated entry, trimmed.
pub open spec fn header_field_text(field: Seq<char>, text: Seq<char>) -> Seq<char> {
    if field == "access_token"@ && has_bearer_prefix(text) {
        text.skip(7)
    } else if field == "ip"@ {
        trimmed(first_piece(text, ','))
    } else {
        text
    }
}

/// What the headers say of a field.
pub open spec fn headers_candidate(field: Seq<char>, headers: Seq<(String, Vec<u8>)>) -> Option<Option<Seq<char>>> {
    match header_candidate(field, headers) {
        None => None,
        Some(bytes) => if header_text_ok(bytes) {
            Some(Some(header_field_text(field, ascii_text(bytes))))
        } else {
            Some(None)
        },
    }
}

fn header_get<'a>(headers: &'a [(String, Vec<u8>)], name: &str) -> (res: Option<&'a Vec<u8>>)
    ensures
        match res {
            Some(v) => header_value(headers@, name@) == Some(v@),
            None => header_value(headers@, name@) is None,
        },
{
    match entry_position(headers, name) {
        Some(i) => Some(&headers[i].1),
        None => None,
    }
}

fn starts_with_bearer(cs: &[char]) -> (res: bool)
    ensures
        res == has_bearer_prefix(cs@),
{
    if cs.len() < 7 {
        return false;
    }
    let expected: [char; 7] = ['b', 'e', 'a', 'r', 'e', 'r', ' '];
    let mut i: usize = 0;
    while i < 7
        invariant
            i <= 7 <= cs@.len(),
            expected@ == bearer_prefix(),
            forall|k: int| 0 <= k < i ==> crate::text::ascii_lower_char(cs@[k]) == bearer_prefix()[k],
        decreases 7 - i,
    {
        if ascii_lower(cs[i]) != expected[i] {
            assert(ascii_lowercase(cs@.take(7))[i as int] != bearer_prefix()[i as int]);
            return false;
        }
        i = i + 1;
    }
    assert(ascii_lowercase(cs@.take(7)) =~= bearer_prefix());
    true
}

/// Reads a field from the headers: `access_token` also from
/// `authorization` (without a `bearer ` prefix), `ip` also from
/// `x-forwarded-for` and `x-real-ip` (first entry, trimmed), `user_agent`
/// also from `user-agent`. A header that is not visible ASCII is unusable.
pub fn select_from_headers(field_name: &str, headers: &[(String, Vec<u8>)]) -> (res: Option<SelectedValue>)
    ensures
        selected_view(res) == headers_candidate(field_name@, headers@),
{
    let is_access = str_eq(field_name, "access_token");
    let is_ip = str_eq(field_name, "ip");
    let header_value = if is_access {
        match header_get(headers, "access_token") {
            Some(v) => Some(v),
            None => header_get(headers, "authorization"),
        }
    } else if str_eq(field_name, "refresh_token") {
        header_get(headers, "refresh_token")
    } else if is_ip {
        match header_get(headers, "ip") {
            Some(v) => Some(v),
            None => match header_get(headers, "x-forwarded-for") {
                Some(v) => Some(v),
                None => header_get(headers, "x-real-ip"),
            },
        }
    } else if str_eq(field_name, "user_agent") {
        match header_get(headers, "user_agent") {
            Some(v) => Some(v),
            None => header_get(headers, "user-agent"),
        }
    } else {
        header_get(headers, field_name)
    };
    assert(match header_value {
        Some(v) => header_candidate(field_name@, headers@) == Some(v@),
        None => header_candidate(field_name@, headers@) is None,
    });
    match header_value {
        None => None,
        Some(bytes) => match header_text(bytes.as_slice()) {
            None => Some(SelectedValue::Invalid),
            Some(parsed) => {
                let cs = chars_of(parsed.as_str());
                if is_access && starts_with_bearer(cs.as_slice()) {
                    let rest = string_from_range(cs.as_slice(), 7, cs.len());
                    assert(rest@ =~= cs@.skip(7));
                    Some(SelectedValue::Present(rest))
                } else if is_ip {
                    let piece = first_piece_of(cs.as_slice(), ',');
                    let (i, j) = trim_bounds(piece.as_slice());
                    Some(SelectedValue::Present(string_from_range(piece.as_slice(), i, j)))
                } else {
                    Some(SelectedValue::Present(parsed))
                }
            },
        },
    }
}

// ---------------------------------------------------------------------------
// Selection
// ---------------------------------------------------------------------------

/// The value of a field: the first source that holds it decides, in the
/// order query, body, headers, default; a present value is the field, an
/// unusable one is an error; a field that no source holds is absent.
pub open spec fn selected_field(
    field: Seq<char>,
    query: Seq<(String, String)>,
    body: Seq<(String, BodyValue)>,
    headers: Seq<(String, Vec<u8>)>,
    default: Option<Seq<char>>,
) -> Result<Option<Seq<char>>, ()> {
    let first = or_else(
        query_candidate(field, query),
        or_else(
            body_candidate(field, body),
            or_else(
                headers_candidate(field, headers),
                match default {
                    Some(d) => Some(Some(d)),
                    None => None,
                },
            ),
        ),
    );
    match first {
        None => Ok(None),
        Some(Some(t)) => Ok(Some(t)),
        Some(None) => Err(()),
    }
}

/// An optional text seen as plain values.
pub open spec fn opt_view(o: Option<String>) -> Option<Seq<char>> {
    match o {
        Some(s) => Some(s@),
        None => None,
    }
}

/// Reads a field from the sources in the order of priority.
pub fn select_string_field(
    field_name: &str,
    query: &[(String, String)],
    body_map: &[(String, BodyValue)],
    headers: &[(String, Vec<u8>)],
    default: Option<String>,
) -> (res: Result<Option<String>, ()>)
    ensures
        match res {
            Ok(v) => selected_field(field_name@, query@, body_map@, headers@, opt_view(default)) == Ok::<Option<Seq<char>>, ()>(opt_view(v)),
            Err(_) => selected_field(field_name@, query@, body_map@, headers@, opt_view(default)) is Err,
        },
{
    let from_query = select_from_query(field_name, query);
    let candidate = match from_query {
        Some(c) => Some(c),
        None => match select_from_body(field_name, body_map) {
            Some(c) => Some(c),
            None => match select_from_headers(field_name, headers) {
                Some(c) => Some(c),
                None => match default {
                    Some(d) => Some(SelectedValue::Present(d)),
                    None => None,
                },
            },
        },
    };
    match candidate {
        None => Ok(None),
        Some(SelectedValue::Present(value)) => Ok(Some(value)),
        Some(SelectedValue::Invalid) => Err(()),
    }
}

/// A token field: present and not blank, otherwise an error.
pub open spec fn required_token(selected: Result<Option<Seq<char>>, ()>) -> Option<Seq<char>> {
    match selected {
        Ok(Some(t)) => if trimmed(t).len() > 0 {
            Some(t)
        } else {
            None
        },
        _ => None,
    }
}

/// Reads a token field that must be present and not blank; the token is
/// returned as read, untrimmed.
pub fn select_required_token_field(
    field_name: &str,
    query: &[(String, String)],
    body_map: &[(String, BodyValue)],
    headers: &[(String, Vec<u8>)],
) -> (res: Result<String, ()>)
    ensures
        match res {
            Ok(t) => required_token(selected_field(field_name@, query@, body_map@, headers@, None)) == Some(t@),
            Err(_) => required_token(selected_field(field_name@, query@, body_map@, headers@, None)) is None,
        },
{
    let value = select_string_field(field_name, query, body_map, headers, None);
    match value {
        Ok(Some(token)) => {
            let t = trim_str(token.as_str());
            if t.as_str().is_empty() {
                Err(())
            } else {
                Ok(token)
            }
        },
        _ => Err(()),
    }
}

/// An optional text trimmed; blank text counts as absent.
pub open spec fn sanitized(value: Option<Seq<char>>) -> Option<Seq<char>> {
    match value {
        Some(c) => if trimmed(c).len() == 0 {
            None
        } else {
            Some(trimmed(c))
        },
        None => None,
    }
}

/// Trims an optional text; blank text becomes absent.
pub fn sanitize_optional_text(value: Option<String>) -> (res: Option<String>)
    ensures
        opt_view(res) == sanitized(opt_view(value)),
{
    match value {
        Some(content) => {
            let t = trim_str(content.as_str());
            if t.as_str().is_empty() {
                None
            } else {
                Some(t)
            }
        },
        None => None,
    }
}

// ---------------------------------------------------------------------------
// The JSON body
// ---------------------------------------------------------------------------

/// What `serde_json` reads from a body: the entries of the JSON object it
/// holds (each value a string or not), or nothing when it is not a JSON
/// object.
pub uninterp spec fn json_object_entries(body: Seq<u8>) -> Option<Seq<(Seq<char>, Option<Seq<char>>)>>;

/// Body entries seen as plain values.
pub open spec fn body_entries_view(entries: Seq<(String, BodyValue)>) -> Seq<(Seq<char>, Option<Seq<char>>)> {
    entries.map_values(
        |e: (String, BodyValue)|
            (
                e.0@,
                match e.1 {
                    BodyValue::Text(t) => Some(t@),
                    BodyValue::NotText => None,
                },
            ),
    )
}

/// Calls `serde_json::from_slice` for a `serde_json::Value` and, when that
/// is an object, hands out its entries, a string value as its text and any
/// other value as `NotText`. The result is named by `json_object_entries`.
#[verifier::external_body]
fn json_object_fields(body: &[u8]) -> (res: Option<Vec<(String, BodyValue)>>)
    ensures
        match res {
            Some(v) => json_object_entries(body@) == Some(body_entries_view(v@)),
            None => json_object_entries(body@) is None,
        },
{
    match serde_json::from_slice::<Value>(body) {
        Ok(Value::Object(map)) => Some(map.into_iter().map(|(key, value)| (key, match value {
            Value::String(text) => BodyValue::Text(text),
            Value::Null => BodyValue::NotText,
            Value::Bool(_) => BodyValue::NotText,
            Value::Number(_) => BodyValue::NotText,
            Value::Array(_) => BodyValue::NotText,
            Value::Object(_) => BodyValue::NotText,
        })).collect()),
        Ok(_) => None,
        Err(_) => None,
    }
}

/// The fields of a request body: none for an empty body, the entries of the
/// JSON object otherwise; a body that is not a JSON object is an error.
pub fn parse_body_object(body: &[u8]) -> (res: Result<Vec<(String, BodyValue)>, ()>)
    ensures
        body@.len() == 0 ==> (res matches Ok(v) && v@.len() == 0),
        body@.len() > 0 ==> match res {
            Ok(v) => json_object_entries(body@) == Some(body_entries_view(v@)),
            Err(_) => json_object_entries(body@) is None,
        },
{
    if body.len() == 0 {
        return Ok(Vec::new());
    }
    match json_object_fields(body) {
        Some(map) => Ok(map),
        None => Err(()),
    }
}

// ---------------------------------------------------------------------------
// Request context
// ---------------------------------------------------------------------------

/// The client address and user agent that a request reports.
#[derive(Debug, Clone)]
pub struct RequestContext {
    pub ip: String,
    pub user_agent: Option<String>,
}

/// The client address of a request: the first entry of `x-forwarded-for`
/// (or else `x-real-ip`), trimmed, when that header reads as text and the
/// entry is not blank; the connection's address otherwise.
pub open spec fn context_ip(headers: Seq<(String, Vec<u8>)>, remote_ip: Seq<char>) -> Seq<char> {
    match or_else(header_value(headers, "x-forwarded-for"@), header_value(headers, "x-real-ip"@)) {
        Some(bytes) => if header_text_ok(bytes) && trimmed(first_piece(ascii_text(bytes), ',')).len() > 0 {
            trimmed(first_piece(ascii_text(bytes), ','))
        } else {
            remote_ip
        },
        None => remote_ip,
    }
}

/// The user agent of a request: the `user-agent` header trimmed, when it
/// reads as text and is not blank.
pub open spec fn context_user_agent(headers: Seq<(String, Vec<u8>)>) -> Option<Seq<char>> {
    match header_value(headers, "user-agent"@) {
        Some(bytes) => if header_text_ok(bytes) && trimmed(ascii_text(bytes)).len() > 0 {
            Some(trimmed(ascii_text(bytes)))
        } else {
            None
        },
        None => None,
    }
}

/// Reads the client address and user agent from the headers, falling back
/// to the connection's address.
pub fn request_context(headers: &[(String, Vec<u8>)], remote_ip: &str) -> (res: RequestContext)
    ensures
        res.ip@ == context_ip(headers@, remote_ip@),
        opt_view(res.user_agent) == context_user_agent(headers@),
{
    let forwarded = match header_get(headers, "x-forwarded-for") {
        Some(v) => Some(v),
        None => header_get(headers, "x-real-ip"),
    };
    let mut ip: Option<String> = None;
    if let Some(bytes) = forwarded {
        if let Some(text) = header_text(bytes.as_slice()) {
            let cs = chars_of(text.as_str());
            let piece = first_piece_of(cs.as_slice(), ',');
            let (i, j) = trim_bounds(piece.as_slice());
            if i < j {
                ip = Some(string_from_range(piece.as_slice(), i, j));
            }
        }
    }
    let ip = match ip {
        Some(value) => value,
        None => remote_ip.to_owned(),
    };
    let mut user_agent: Option<String> = None;
    if let Some(bytes) = header_get(headers, "user-agent") {
        if let Some(text) = header_text(bytes.as_slice()) {
            let t = trim_str(text.as_str());
            if !t.as_str().is_empty() {
                user_agent = Some(t);
            }
        }
    }
    RequestContext { ip, user_agent }
}

/// The client address is read from the `ip` header when there is one;
/// otherwise from `x-forwarded-for`, whatever `x-real-ip` holds; and from
/// `x-real-ip` only when neither of the others is there. From a forwarded
/// list the address is its first entry, trimmed.
pub proof fn law_ip_header_order(headers: Seq<(String, Vec<u8>)>, b: Seq<u8>)
    ensures
        header_value(headers, "ip"@) == Some(b) ==> header_candidate("ip"@, headers) == Some(b),
        header_value(headers, "ip"@) is None && header_value(headers, "x-forwarded-for"@) == Some(b)
            ==> header_candidate("ip"@, headers) == Some(b),
        header_value(headers, "ip"@) is None && header_value(headers, "x-forwarded-for"@) is None
            ==> header_candidate("ip"@, headers) == header_value(headers, "x-real-ip"@),
        header_value(headers, "ip"@) is None && header_value(headers, "x-forwarded-for"@) == Some(b)
            && header_text_ok(b) ==> headers_candidate("ip"@, headers) == Some(Some(trimmed(first_piece(ascii_text(b), ',')))),
{
    reveal_strlit("ip");
    reveal_strlit("access_token");
    reveal_strlit("refresh_token");
    assert("ip"@ != "access_token"@) by {
        assert("ip"@.len() != "access_token"@.len());
    }
    assert("ip"@ != "refresh_token"@) by {
        assert("ip"@.len() != "refresh_token"@.len());
    }
}

} // verus!
