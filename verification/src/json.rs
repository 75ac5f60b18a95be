//! JSON text: the quoting of names, the check of raw JSON values that plugins
//! hand back, and the layout of JSON objects.

use vstd::prelude::*;

verus! {

#[verifier::external_type_specification]
#[verifier::external_body]
pub struct ExJsonError(serde_json::Error);

/// The hexadecimal digit (lower case) of `d`, for `0 <= d < 16`.
pub open spec fn hex_digit(d: int) -> char {
    if d < 10 {
        (('0' as int) + d) as char
    } else {
        (('a' as int) + d - 10) as char
    }
}

/// How one character is written inside a JSON string: quote and backslash
/// are escaped, control characters get their short escape or `\u00XX`,
/// every other character stands for itself.
pub open spec fn escape_char(c: char) -> Seq<char> {
    if c == '"' {
        seq!['\\', '"']
    } else if c == '\\' {
        seq!['\\', '\\']
    } else if c == '\u{8}' {
        seq!['\\', 'b']
    } else if c == '\t' {
        seq!['\\', 't']
    } else if c == '\n' {
        seq!['\\', 'n']
    } else if c == '\u{c}' {
        seq!['\\', 'f']
    } else if c == '\r' {
        seq!['\\', 'r']
    } else if (c as int) < 0x20 {
        seq!['\\', 'u', '0', '0', hex_digit((c as int) / 16), hex_digit((c as int) % 16)]
    } else {
        seq![c]
    }
}

/// The escaped characters of `s`.
pub open spec fn escape_text(s: Seq<char>) -> Seq<char>
    decreases s.len(),
{
    if s.len() == 0 {
        Seq::empty()
    } else {
        escape_text(s.drop_last()) + escape_char(s.last())
    }
}

/// `s` as a JSON string literal.
pub open spec fn json_quoted(s: Seq<char>) -> Seq<char> {
    seq!['"'] + escape_text(s) + seq!['"']
}

/// `serde_json::to_string` on a `str`: the string as a JSON string literal.
/// As serde_json's source shows, the text is the string between double
/// quotes, with `"` and `\` escaped, the control characters U+0008, U+0009,
/// U+000A, U+000C and U+000D written `\b \t \n \f \r`, the other characters
/// below U+0020 written `\u00` and two lower-case hex digits, and every other
/// character as itself; serialising a `str` into memory does not fail.
#[verifier::external_body]
fn serde_quote(s: &str) -> (r: Result<String, serde_json::Error>)
    ensures
        r is Ok,
        r matches Ok(t) ==> t@ == json_quoted(s@),
{
    serde_json::to_string(s)
}

/// `s` as a JSON string literal.
pub fn quote(s: &str) -> (r: String)
    ensures
        r@ == json_quoted(s@),
{
    let q = serde_quote(s);
    match q {
        Ok(t) => t,
        Err(_) => {
            proof {
                assert(false);
            }
            String::new()
        },
    }
}

/// What `serde_json::value::RawValue::from_string` keeps of `text`: the text
/// of the one JSON value that `text` holds, or `None` where `text` is not a
/// single JSON value.
pub uninterp spec fn raw_json_text(text: Seq<char>) -> Option<Seq<char>>;

/// `serde_json::value::RawValue::from_string`: parses `text` as one JSON
/// value and keeps its text. Nothing is stated of which texts it accepts nor
/// of the text it keeps (whitespace around the value is not kept): both are
/// named by `raw_json_text`, a function of `text` alone.
#[verifier::external_body]
fn serde_raw_value(text: String) -> (r: Result<String, serde_json::Error>)
    ensures
        match r {
            Ok(t) => raw_json_text(text@) == Some(t@),
            Err(_) => raw_json_text(text@) is None,
        },
{
    match serde_json::value::RawValue::from_string(text) {
        Ok(raw) => Ok(raw.get().to_string()),
        Err(e) => Err(e),
    }
}

/// Checks that `text` is one JSON value, and returns that value's text.
pub fn raw_json(text: String) -> (r: Option<String>)
    ensures
        match r {
            Some(t) => raw_json_text(text@) == Some(t@),
            None => raw_json_text(text@) is None,
        },
{
    match serde_raw_value(text) {
        Ok(t) => Some(t),
        Err(_) => None,
    }
}

/// `s` begins with `p`.
pub open spec fn starts_with(s: Seq<char>, p: Seq<char>) -> bool {
    p.len() <= s.len() && s.take(p.len() as int) == p
}

/// `b` as JSON.
pub open spec fn json_bool(b: bool) -> Seq<char> {
    if b {
        "true"@
    } else {
        "false"@
    }
}

/// `b` as JSON.
pub fn bool_json(b: bool) -> (r: &'static str)
    ensures
        r@ == json_bool(b),
{
    if b {
        "true"
    } else {
        "false"
    }
}

/// One member of a JSON object: the quoted name, a colon, the value's text.
pub open spec fn json_member(name: Seq<char>, value: Seq<char>) -> Seq<char> {
    json_quoted(name) + seq![':'] + value
}

/// The members of a JSON object, separated by commas.
pub open spec fn json_members(ms: Seq<(Seq<char>, Seq<char>)>) -> Seq<char>
    decreases ms.len(),
{
    if ms.len() == 0 {
        Seq::empty()
    } else if ms.len() == 1 {
        json_member(ms[0].0, ms[0].1)
    } else {
        json_members(ms.drop_last()) + seq![','] + json_member(ms.last().0, ms.last().1)
    }
}

/// A JSON object with the members `ms`, in that order.
pub open spec fn json_object(ms: Seq<(Seq<char>, Seq<char>)>) -> Seq<char> {
    seq!['{'] + json_members(ms) + seq!['}']
}

/// Appends the member `name: value` to an object whose first `count`
/// members `out` already holds (after its opening brace).
pub(crate) fn push_member(
    out: &mut String,
    Ghost(prefix): Ghost<Seq<char>>,
    Ghost(ms): Ghost<Seq<(Seq<char>, Seq<char>)>>,
    count: usize,
    name: &str,
    value: &str,
)
    requires
        count == ms.len(),
        old(out)@ == prefix + seq!['{'] + json_members(ms),
    ensures
        final(out)@ == prefix + seq!['{'] + json_members(ms.push((name@, value@))),
{
    let ghost ms2 = ms.push((name@, value@));
    assert(ms2.drop_last() =~= ms);
    if count > 0 {
        out.append(",");
    }
    let q = quote(name);
    out.append(q.as_str());
    out.append(":");
    out.append(value);
    proof {
        reveal_strlit(",");
        reveal_strlit(":");
        assert(",".view() =~= seq![',']);
        assert(":".view() =~= seq![':']);
        if count == 0 {
            assert(json_members(ms) =~= Seq::empty());
        }
        assert(out@ =~= prefix + seq!['{'] + json_members(ms2));
    }
}

} // verus!
