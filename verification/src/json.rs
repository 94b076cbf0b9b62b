//! JSON values, held as JSON text.
//!
//! Parsing and printing is serde_json's work. A value is printed without blanks.
use vstd::prelude::*;

use crate::text;

verus! {

/// Whether a text is within one line.
pub open spec fn one_line(s: Seq<char>) -> bool {
    !s.contains('\n')
}

/// Texts that are each within one line are so together.
pub proof fn lemma_one_line(a: Seq<char>, b: Seq<char>)
    requires
        one_line(a),
        one_line(b),
    ensures
        one_line(a + b),
{
    if (a + b).contains('\n') {
        let i = choose|i: int| 0 <= i < (a + b).len() && (a + b)[i] == '\n';
        if i < a.len() {
            assert(a[i] == '\n');
        } else {
            assert(b[i - a.len()] == '\n');
        }
    }
}

/// The text that serde_json prints for the value that it reads from `text`, or the message of its
/// error if it reads none.
pub uninterp spec fn compacted(text: Seq<char>) -> Result<Seq<char>, Seq<char>>;

/// Calls `serde_json::from_str` on `text` and `to_string` on the value or on the error. What is
/// claimed is that the result depends on the text alone.
#[verifier::external_body]
pub(crate) fn compact(text: &str) -> (r: Result<String, String>)
    ensures
        match r {
            Ok(t) => compacted(text@) == Ok::<Seq<char>, Seq<char>>(t@),
            Err(e) => compacted(text@) == Err::<Seq<char>, Seq<char>>(e@),
        },
{
    match serde_json::from_str::<serde_json::Value>(text) {
        Ok(value) => Ok(value.to_string()),
        Err(e) => Err(e.to_string()),
    }
}

/// A hexadecimal digit.
pub open spec fn hex_digit(d: nat) -> char {
    if d < 10 {
        (48 + d) as u8 as char
    } else {
        (87 + d) as u8 as char
    }
}

/// A character as it stands within a JSON string.
pub open spec fn escaped(c: char) -> Seq<char> {
    if c == '"' || c == '\\' {
        seq!['\\', c]
    } else if c == '\u{8}' {
        seq!['\\', 'b']
    } else if c == '\t' {
        seq!['\\', 't']
    } else if c == '\n' {
        seq!['\\', 'n']
    } else if c == '\u{c}' {
        seq!['\\', 'f']
    } else if c == '\r' {
        seq!['\\', 'r']
    } else if (c as nat) < 32 {
        seq!['\\', 'u', '0', '0', hex_digit(c as nat / 16), hex_digit(c as nat % 16)]
    } else {
        seq![c]
    }
}

/// A text as it stands within a JSON string.
pub open spec fn escaped_all(s: Seq<char>) -> Seq<char>
    decreases s.len(),
{
    if s.len() == 0 {
        Seq::empty()
    } else {
        escaped_all(s.drop_last()) + escaped(s.last())
    }
}

/// The JSON text of the string `s`.
pub open spec fn quoted(s: Seq<char>) -> Seq<char> {
    seq!['"'] + escaped_all(s) + seq!['"']
}

/// Calls `to_string` on the string value `s` of serde_json. What is claimed is that the string is
/// printed between quotation marks, with quotation marks, backslashes and control characters
/// escaped and all else as it is.
#[verifier::external_body]
fn print_string(s: &str) -> (r: String)
    ensures
        r@ == quoted(s@),
{
    serde_json::Value::String(s.to_owned()).to_string()
}

/// The JSON text of the string `s`.
pub(crate) fn quote(s: &str) -> (r: String)
    ensures
        r@ == quoted(s@),
        one_line(r@),
{
    proof {
        law_strings_are_printed_in_one_line(s@);
    }
    print_string(s)
}

proof fn lemma_escaped_line(s: Seq<char>)
    ensures
        one_line(escaped_all(s)),
    decreases s.len(),
{
    if s.len() > 0 {
        lemma_escaped_line(s.drop_last());
        lemma_one_line(escaped_all(s.drop_last()), escaped(s.last()));
    }
}

/// The JSON text of a string is within one line, whatever the string holds.
pub proof fn law_strings_are_printed_in_one_line(s: Seq<char>)
    ensures
        one_line(quoted(s)),
{
    lemma_escaped_line(s);
    lemma_one_line(seq!['"'], escaped_all(s));
    lemma_one_line(seq!['"'] + escaped_all(s), seq!['"']);
}

/// The text that serde_json prints for the member `key` of the value that it reads from `text`;
/// none if it reads none, or that is no object, or has no such member.
pub uninterp spec fn member_of(text: Seq<char>, key: Seq<char>) -> Option<Seq<char>>;

/// Calls `serde_json::from_str` on `text`, `get` with `key` on the value, and `to_string` on the
/// member. What is claimed is that the result depends on text and key alone, and that it is within
/// one line: nothing is printed between the parts of a value, and control characters are escaped.
#[verifier::external_body]
pub(crate) fn member(text: &str, key: &str) -> (r: Option<String>)
    ensures
        r.deep_view() == member_of(text@, key@),
        r is Some ==> one_line(r->0@),
{
    serde_json::from_str::<serde_json::Value>(text).ok()?.get(key).map(|value| value.to_string())
}

/// The string that serde_json reads from `text`; none if it reads something else.
pub uninterp spec fn string_value(text: Seq<char>) -> Option<Seq<char>>;

/// Calls `serde_json::from_str` on `text` and `as_str` on the value. What is claimed is that the
/// result depends on the text alone.
#[verifier::external_body]
pub(crate) fn as_string(text: &str) -> (r: Option<String>)
    ensures
        r.deep_view() == string_value(text@),
{
    serde_json::from_str::<serde_json::Value>(text).ok()?.as_str().map(|s| s.to_owned())
}

/// The unsigned number that serde_json reads from `text`; none if it reads something else.
pub uninterp spec fn number_value(text: Seq<char>) -> Option<u64>;

/// Calls `serde_json::from_str` on `text` and `as_u64` on the value. What is claimed is that the
/// result depends on the text alone.
#[verifier::external_body]
pub(crate) fn as_number(text: &str) -> (r: Option<u64>)
    ensures
        r == number_value(text@),
{
    serde_json::from_str::<serde_json::Value>(text).ok()?.as_u64()
}

/// The texts that serde_json prints for the elements of the array that it reads from `text`; none
/// if it reads something else.
pub uninterp spec fn elements_of(text: Seq<char>) -> Option<Seq<Seq<char>>>;

/// Calls `serde_json::from_str` on `text`, `as_array` on the value, and `to_string` on each
/// element. What is claimed is that the result depends on the text alone.
#[verifier::external_body]
pub(crate) fn elements(text: &str) -> (r: Option<Vec<String>>)
    ensures
        r.deep_view() == elements_of(text@),
{
    let value = serde_json::from_str::<serde_json::Value>(text).ok()?;
    value.as_array().map(|items| items.iter().map(|item| item.to_string()).collect())
}

/// The string at the member `key` of an object.
pub open spec fn string_at(text: Seq<char>, key: Seq<char>) -> Option<Seq<char>> {
    match member_of(text, key) {
        Some(m) => string_value(m),
        None => None,
    }
}

/// The string at the member `key` of an object.
pub(crate) fn member_string(text: &str, key: &str) -> (r: Option<String>)
    ensures
        r.deep_view() == string_at(text@, key@),
{
    match member(text, key) {
        Some(m) => as_string(&m),
        None => None,
    }
}

/// The unsigned number at the member `key` of an object.
pub open spec fn number_at(text: Seq<char>, key: Seq<char>) -> Option<u64> {
    match member_of(text, key) {
        Some(m) => number_value(m),
        None => None,
    }
}

/// The unsigned number at the member `key` of an object.
pub(crate) fn member_number(text: &str, key: &str) -> (r: Option<u64>)
    ensures
        r == number_at(text@, key@),
{
    match member(text, key) {
        Some(m) => as_number(&m),
        None => None,
    }
}

/// `text`, or the text of the null value if there is none.
pub open spec fn or_null(text: Option<Seq<char>>) -> Seq<char> {
    match text {
        Some(t) => t,
        None => "null"@,
    }
}

/// `text`, or the text of the null value if there is none.
pub fn text_or_null(text: Option<String>) -> (r: String)
    ensures
        r@ == or_null(text.deep_view()),
{
    match text {
        Some(t) => t,
        None => "null".to_owned(),
    }
}

/// The text of a signed number.
pub open spec fn signed_view(n: int) -> Seq<char> {
    if n < 0 {
        "-"@ + text::decimal_view((-n) as nat)
    } else {
        text::decimal_view(n as nat)
    }
}

/// The text of a signed number.
pub fn signed(n: i32) -> (r: String)
    ensures
        r@ == signed_view(n as int),
{
    if n < 0 {
        let digits = text::decimal((-(n as i64)) as u64);
        "-".to_owned().concat(&digits)
    } else {
        text::decimal(n as u64)
    }
}

/// What is absent is the null value, and what is there stays as it is.
pub proof fn law_absent_values_are_null(text: Seq<char>)
    ensures
        or_null(Some(text)) == text,
        or_null(None) == seq!['n', 'u', 'l', 'l'],
{
    reveal_strlit("null");
    assert(or_null(None) =~= seq!['n', 'u', 'l', 'l']);
}

/// The text of a signed number is that of its amount, behind a minus sign if it is below zero.
pub proof fn law_signed_numbers_keep_their_sign(n: int)
    ensures
        n >= 0 ==> text::number(signed_view(n)) == n,
        n < 0 ==> signed_view(n)[0] == '-' && text::number(signed_view(n).skip(1)) == -n,
        n < 0 ==> signed_view(n).skip(1) == signed_view(-n),
{
    reveal_strlit("-");
    if n >= 0 {
        text::law_decimals_stand_for_their_number(n as nat);
    } else {
        text::law_decimals_stand_for_their_number((-n) as nat);
        assert(signed_view(n).skip(1) =~= text::decimal_view((-n) as nat));
    }
}

/// A member that is a string, or a number, is what is read from the text of the member.
pub proof fn law_members_are_read_by_their_kind(text: Seq<char>, key: Seq<char>)
    ensures
        member_of(text, key) is None ==> string_at(text, key) is None && number_at(text, key)
            is None,
        member_of(text, key) is Some ==> string_at(text, key) == string_value(
            member_of(text, key)->0,
        ) && number_at(text, key) == number_value(member_of(text, key)->0),
{
}

} // verus!
