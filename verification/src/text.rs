//! Texts: numbers in decimal, and text as bytes and back.
use vstd::prelude::*;
use vstd::slice::slice_to_vec;
use vstd::string::{StrSliceExecFns, StringExecFns};
use vstd::utf8::{
    decode_utf8, encode_utf8, encode_utf8_decode_utf8, encode_utf8_valid_utf8, is_ascii_chars,
    is_ascii_chars_encode_utf8, valid_utf8,
};

verus! {

/// The digit of a number below ten.
pub open spec fn digit(n: nat) -> char {
    (48 + n % 10) as char
}

/// A number in decimal, without leading zeros.
pub open spec fn decimal(n: nat) -> Seq<char>
    decreases n,
{
    if n < 10 {
        seq![digit(n)]
    } else {
        decimal(n / 10).push(digit(n % 10))
    }
}

/// The text of one digit.
pub(crate) fn digit_str(n: u8) -> (s: &'static str)
    requires
        n < 10,
    ensures
        s@ == seq![digit(n as nat)],
{
    proof {
        reveal_strlit("0");
        reveal_strlit("1");
        reveal_strlit("2");
        reveal_strlit("3");
        reveal_strlit("4");
        reveal_strlit("5");
        reveal_strlit("6");
        reveal_strlit("7");
        reveal_strlit("8");
        reveal_strlit("9");
    }
    let s = match n {
        0 => "0",
        1 => "1",
        2 => "2",
        3 => "3",
        4 => "4",
        5 => "5",
        6 => "6",
        7 => "7",
        8 => "8",
        _ => "9",
    };
    assert(s@ =~= seq![digit(n as nat)]);
    s
}

/// Writes `n` in decimal behind `text`.
pub fn push_decimal(text: &mut String, n: u128)
    ensures
        final(text)@ == old(text)@ + decimal(n as nat),
    decreases n,
{
    if n >= 10 {
        push_decimal(text, n / 10);
    }
    text.append(digit_str((n % 10) as u8));
    assert(text@ =~= old(text)@ + decimal(n as nat));
}

/// A text as bytes.
pub fn text_bytes(text: &str) -> (bytes: Vec<u8>)
    ensures
        bytes@ == encode_utf8(text@),
{
    slice_to_vec(text.as_bytes())
}

/// A copy of a text.
pub fn owned(text: &str) -> (copy: String)
    ensures
        copy@ == text@,
{
    text.to_owned()
}

/// Calls `core::str::from_utf8`: the text that the bytes encode, if they are valid
/// UTF-8.
#[verifier::external_body]
pub(crate) fn utf8_text(bytes: &[u8]) -> (text: Option<&str>)
    ensures
        match text {
            Some(t) => valid_utf8(bytes@) && encode_utf8(t@) == bytes@,
            None => !valid_utf8(bytes@),
        },
{
    core::str::from_utf8(bytes).ok()
}

/// Whether two texts are the same.
pub fn same_text(a: &str, b: &str) -> (same: bool)
    ensures
        same == (a@ == b@),
{
    let same = same_bytes(a.as_bytes(), b.as_bytes());
    proof {
        encode_utf8_decode_utf8(a@);
        encode_utf8_decode_utf8(b@);
    }
    same
}

/// Whether two byte strings are the same.
pub fn same_bytes(a: &[u8], b: &[u8]) -> (same: bool)
    ensures
        same == (a@ == b@),
{
    if a.len() != b.len() {
        return false;
    }
    let mut i: usize = 0;
    while i < a.len()
        invariant
            i <= a.len(),
            a.len() == b.len(),
            forall|j: int| 0 <= j < i ==> a@[j] == b@[j],
        decreases a.len() - i,
    {
        if a[i] != b[i] {
            return false;
        }
        i += 1;
    }
    assert(a@ =~= b@);
    true
}

/// The text of bytes that need not be UTF-8, as `String::from_utf8_lossy` gives it.
pub uninterp spec fn lossy_text(bytes: Seq<u8>) -> Seq<char>;

/// Calls `String::from_utf8_lossy`: the text that valid UTF-8 encodes; of other
/// bytes, only that the text depends on nothing but them.
#[verifier::external_body]
fn utf8_lossy(bytes: &[u8]) -> (text: String)
    ensures
        text@ == lossy_text(bytes@),
        valid_utf8(bytes@) ==> encode_utf8(text@) == bytes@,
{
    String::from_utf8_lossy(bytes).into_owned()
}

/// The text that bytes are shown as: what they encode, if they are valid UTF-8.
pub open spec fn shown_text(bytes: Seq<u8>) -> Seq<char> {
    if valid_utf8(bytes) {
        decode_utf8(bytes)
    } else {
        lossy_text(bytes)
    }
}

/// The text that bytes are shown as.
pub fn shown(bytes: &[u8]) -> (text: String)
    ensures
        text@ == shown_text(bytes@),
{
    let text = utf8_lossy(bytes);
    proof {
        encode_utf8_decode_utf8(text@);
    }
    text
}

/// The capital of a letter from `a` to `z`; any other character as it is.
pub open spec fn ascii_capital(c: char) -> char {
    if 'a' <= c <= 'z' {
        (c as u32 - 32) as char
    } else {
        c
    }
}

/// The upper-case form of a text, as `str::to_uppercase` gives it.
pub uninterp spec fn uppercase_text(text: Seq<char>) -> Seq<char>;

/// Calls `str::to_uppercase`: each ASCII letter in capitals, if all characters are
/// ASCII; of other texts, only that the result depends on nothing but the text.
#[verifier::external_body]
fn uppercase(text: &str) -> (upper: String)
    ensures
        upper@ == uppercase_text(text@),
        is_ascii_chars(text@) ==> upper@ == text@.map_values(|c: char| ascii_capital(c)),
{
    text.to_uppercase()
}

/// A text in capitals.
pub open spec fn capitals_of(text: Seq<char>) -> Seq<char> {
    if is_ascii_chars(text) {
        text.map_values(|c: char| ascii_capital(c))
    } else {
        uppercase_text(text)
    }
}

/// A text in capitals.
pub fn capitals(text: &str) -> (upper: String)
    ensures
        upper@ == capitals_of(text@),
{
    uppercase(text)
}

/// Whether a character is white space, as `char::is_whitespace` says.
pub uninterp spec fn white_space(c: char) -> bool;

/// Calls `char::is_whitespace`: among the ASCII characters, the space and those from
/// tab to carriage return are white space; of other characters, only that the answer
/// depends on nothing but the character.
#[verifier::external_body]
fn is_white_space(c: char) -> (white: bool)
    ensures
        white == white_space(c),
        c <= '\u{7f}' ==> white == (c == ' ' || '\t' <= c <= '\r'),
{
    c.is_whitespace()
}

/// Whether a character is white space.
pub open spec fn is_blank(c: char) -> bool {
    if c <= '\u{7f}' {
        c == ' ' || '\t' <= c <= '\r'
    } else {
        white_space(c)
    }
}

/// How many blanks a text starts with.
pub open spec fn blanks_before(text: Seq<char>) -> nat
    decreases text.len(),
{
    if text.len() > 0 && is_blank(text[0]) {
        1 + blanks_before(text.skip(1))
    } else {
        0
    }
}

/// How many blanks a text ends with.
pub open spec fn blanks_behind(text: Seq<char>) -> nat
    decreases text.len(),
{
    if text.len() > 0 && is_blank(text.last()) {
        1 + blanks_behind(text.drop_last())
    } else {
        0
    }
}

/// A text without the white space around it.
pub open spec fn trimmed(text: Seq<char>) -> Seq<char> {
    let rest = text.skip(blanks_before(text) as int);
    rest.take(rest.len() - blanks_behind(rest))
}

/// A text without the white space around it.
pub fn trim(text: &str) -> (inner: &str)
    ensures
        inner@ == trimmed(text@),
{
    let len = text.unicode_len();
    let mut start: usize = 0;
    assert(text@.skip(0) =~= text@);
    while start < len && is_white_space(text.get_char(start))
        invariant
            len == text@.len(),
            start <= len,
            blanks_before(text@) == start + blanks_before(text@.skip(start as int)),
        decreases len - start,
    {
        assert(text@.skip(start as int).skip(1) =~= text@.skip(start + 1));
        start += 1;
    }
    let ghost rest = text@.skip(start as int);
    let mut end: usize = len;
    assert(rest.take(rest.len() as int) =~= rest);
    while start < end && is_white_space(text.get_char(end - 1))
        invariant
            len == text@.len(),
            start <= end <= len,
            rest == text@.skip(start as int),
            blanks_behind(rest) == len - end + blanks_behind(rest.take(end - start)),
        decreases end - start,
    {
        assert(rest.take(end - start).drop_last() =~= rest.take(end - start - 1));
        end -= 1;
    }
    assert(text@.subrange(start as int, end as int) =~= rest.take(end - start));
    text.substring_char(start, end)
}

/// Bytes below 128 are the encoding of a text, character by character.
pub proof fn lemma_ascii_is_utf8(bytes: Seq<u8>)
    requires
        forall|i: int| 0 <= i < bytes.len() ==> #[trigger] bytes[i] < 128,
    ensures
        valid_utf8(bytes),
        decode_utf8(bytes) == Seq::new(bytes.len(), |i: int| bytes[i] as char),
{
    let chars = Seq::new(bytes.len(), |i: int| bytes[i] as char);
    assert(is_ascii_chars(chars));
    is_ascii_chars_encode_utf8(chars);
    assert forall|i: int| 0 <= i < bytes.len() implies encode_utf8(chars)[i] == bytes[i] by {
        assert(chars[i] as u8 == bytes[i]);
    }
    assert(encode_utf8(chars) =~= bytes);
    encode_utf8_valid_utf8(chars);
    encode_utf8_decode_utf8(chars);
}

} // verus!
