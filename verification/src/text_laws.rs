//! What holds of every text: how it is cut, spelled in capitals, and written and read as bytes
//! and as numbers.
use crate::text::{
    ascii_capital, blanks_before, blanks_behind, capitals, capitals_of, decimal, digit, is_blank,
    lossy_text, owned, push_decimal, same_bytes, same_text, shown, text_bytes, trim, trimmed,
    uppercase_text, white_space,
};
use vstd::prelude::*;
use vstd::utf8::{decode_utf8_encode_utf8, encode_utf8, is_ascii_chars, valid_utf8};

verus! {

/// Whether a character is white space: a space, what stands from tab to carriage return, or,
/// beyond ASCII, what is white space by its property.
pub open spec fn is_white(c: char) -> bool {
    c == ' ' || '\t' <= c <= '\r' || (c > '\u{7f}' && white_space(c))
}

/// Whether all characters of a text are white space.
pub open spec fn all_white(text: Seq<char>) -> bool {
    forall|i: int| 0 <= i < text.len() ==> is_white(#[trigger] text[i])
}

/// Whether a text is not empty, and neither starts nor ends with white space.
pub open spec fn has_no_edges(text: Seq<char>) -> bool {
    text.len() > 0 && !is_white(text[0]) && !is_white(text.last())
}

proof fn lemma_blanks_before(before: Seq<char>, rest: Seq<char>)
    requires
        all_white(before),
        rest.len() == 0 || !is_white(rest[0]),
    ensures
        blanks_before(before + rest) == before.len(),
    decreases before.len(),
{
    let all = before + rest;
    if before.len() > 0 {
        assert(is_white(before[0]));
        assert(all[0] == before[0] && is_blank(all[0]));
        assert(all.skip(1) =~= before.skip(1) + rest);
        assert forall|i: int| 0 <= i < before.skip(1).len() implies is_white(
            #[trigger] before.skip(1)[i],
        ) by {
            assert(is_white(before[i + 1]));
        }
        lemma_blanks_before(before.skip(1), rest);
    } else {
        assert(all =~= rest);
    }
}

proof fn lemma_blanks_behind(rest: Seq<char>, behind: Seq<char>)
    requires
        all_white(behind),
        rest.len() == 0 || !is_white(rest.last()),
    ensures
        blanks_behind(rest + behind) == behind.len(),
    decreases behind.len(),
{
    let all = rest + behind;
    if behind.len() > 0 {
        assert(is_white(behind.last()));
        assert(all.last() == behind.last() && is_blank(all.last()));
        assert(all.drop_last() =~= rest + behind.drop_last());
        assert forall|i: int| 0 <= i < behind.drop_last().len() implies is_white(
            #[trigger] behind.drop_last()[i],
        ) by {
            assert(is_white(behind[i]));
        }
        lemma_blanks_behind(rest, behind.drop_last());
    } else {
        assert(all =~= rest);
    }
}

/// White space around a text is cut off, all of it, and nothing else is.
pub proof fn law_trimmed(before: Seq<char>, inner: Seq<char>, behind: Seq<char>)
    requires
        all_white(before),
        all_white(behind),
        has_no_edges(inner) || inner.len() == 0,
    ensures
        trimmed(before + inner + behind) == inner,
{
    let text = before + inner + behind;
    if inner.len() > 0 {
        assert(text =~= before + (inner + behind));
        lemma_blanks_before(before, inner + behind);
        let rest = text.skip(before.len() as int);
        assert(rest =~= inner + behind);
        lemma_blanks_behind(inner, behind);
        assert(trimmed(text) =~= inner);
    } else {
        let all = before + behind;
        assert(text =~= all + Seq::<char>::empty());
        assert(all_white(all)) by {
            assert forall|i: int| 0 <= i < all.len() implies is_white(#[trigger] all[i]) by {
                if i < before.len() {
                    assert(is_white(before[i]));
                } else {
                    assert(is_white(behind[i - before.len()]));
                }
            }
        }
        lemma_blanks_before(all, Seq::empty());
        let rest = text.skip(all.len() as int);
        assert(rest =~= Seq::<char>::empty() + Seq::<char>::empty());
        lemma_blanks_behind(Seq::empty(), Seq::empty());
        assert(trimmed(text) =~= inner);
    }
}

/// The same of a call.
pub proof fn law_white_space_is_cut_off(
    text: &str,
    before: Seq<char>,
    inner: Seq<char>,
    behind: Seq<char>,
    cut: &str,
)
    requires
        call_ensures(trim, (text,), cut),
        text@ == before + inner + behind,
        all_white(before),
        all_white(behind),
        has_no_edges(inner) || inner.len() == 0,
    ensures
        cut@ == inner,
{
    law_trimmed(before, inner, behind);
}

/// Whether a word is spelled like a word in capitals, each letter in either case.
pub open spec fn spells(word: Seq<char>, capital: Seq<char>) -> bool {
    &&& word.len() == capital.len()
    &&& forall|i: int|
        0 <= i < word.len() ==> #[trigger] word[i] == capital[i] || word[i] as int == capital[i]
            as int + 32
}

/// Whether all characters are capital letters.
pub open spec fn all_capital(text: Seq<char>) -> bool {
    forall|i: int| 0 <= i < text.len() ==> 'A' <= #[trigger] text[i] <= 'Z'
}

/// A word that is spelled like a word in capitals, letter by letter, has those capitals; and
/// an ASCII word with those capitals is spelled so.
pub proof fn law_capitals_of_a_word(word: Seq<char>, capital: Seq<char>)
    requires
        all_capital(capital),
    ensures
        spells(word, capital) ==> capitals_of(word) == capital,
        is_ascii_chars(word) && capitals_of(word) == capital ==> spells(word, capital),
{
    let upper = word.map_values(|c: char| ascii_capital(c));
    if spells(word, capital) {
        assert forall|i: int| 0 <= i < word.len() implies '\0' <= #[trigger] word[i] <= '\u{7f}'
            && upper[i] == capital[i] by {
            assert('A' <= capital[i] <= 'Z');
        }
        assert(is_ascii_chars(word));
        assert(upper =~= capital);
    }
    if is_ascii_chars(word) && upper == capital {
        assert forall|i: int| 0 <= i < word.len() implies #[trigger] word[i] == capital[i]
            || word[i] as int == capital[i] as int + 32 by {
            assert(upper[i] == capital[i]);
        }
    }
}

/// The same of a call.
pub proof fn law_capitals(text: &str, capital: Seq<char>, upper: String)
    requires
        call_ensures(capitals, (text,), upper),
        all_capital(capital),
        spells(text@, capital),
    ensures
        upper@ == capital,
{
    law_capitals_of_a_word(text@, capital);
}

/// A text that is not all ASCII has the capitals that its characters have.
pub proof fn law_capitals_of_any_text(text: &str, upper: String)
    requires
        call_ensures(capitals, (text,), upper),
    ensures
        is_ascii_chars(text@) ==> upper@.len() == text@.len() && forall|i: int|
            0 <= i < text@.len() ==> #[trigger] upper@[i] == if 'a' <= text@[i] <= 'z' {
                (text@[i] as u32 - 32) as char
            } else {
                text@[i]
            },
        !is_ascii_chars(text@) ==> upper@ == uppercase_text(text@),
{
}

/// The number that digits write, from the first to the last.
pub open spec fn value_of(digits: Seq<char>) -> int {
    digits.fold_left(0int, |value: int, c: char| 10 * value + (c as int - '0' as int))
}

/// A number in decimal is written by digits, without leading zeros, and they write that
/// number.
pub proof fn law_decimal_writes_the_number(n: nat)
    ensures
        value_of(decimal(n)) == n,
        decimal(n).len() > 0,
        forall|i: int| 0 <= i < decimal(n).len() ==> '0' <= #[trigger] decimal(n)[i] <= '9',
        decimal(n).len() > 1 ==> decimal(n)[0] != '0',
    decreases n,
{
    let digits = decimal(n);
    let f = |value: int, c: char| 10 * value + (c as int - '0' as int);
    if n >= 10 {
        law_decimal_writes_the_number(n / 10);
        let first = decimal(n / 10);
        assert(digits.drop_last() =~= first);
        assert(digits.last() == digit(n % 10));
        assert(digits.fold_left(0int, f) == f(first.fold_left(0int, f), digits.last()));
        assert forall|i: int| 0 <= i < digits.len() implies '0' <= #[trigger] digits[i] <= '9' by {
            if i < first.len() {
                assert(digits[i] == first[i]);
            }
        }
        assert(digits[0] == first[0]);
        if first.len() == 1 {
            reveal_with_fuel(Seq::fold_left, 3);
            assert(first.drop_last() =~= Seq::empty());
            assert(value_of(first) == first[0] as int - '0' as int);
        }
    } else {
        reveal_with_fuel(Seq::fold_left, 3);
        assert(digits.drop_last() =~= Seq::empty());
        assert(digits.last() == digit(n));
    }
}

/// A number is written behind a text.
pub proof fn law_number_is_written_in_decimal(text: &mut String, n: u128)
    requires
        call_ensures(push_decimal, (text, n), ()),
    ensures
        final(text)@.take(old(text)@.len() as int) == old(text)@,
        value_of(final(text)@.skip(old(text)@.len() as int)) == n,
{
    law_decimal_writes_the_number(n as nat);
    assert(final(text)@.take(old(text)@.len() as int) =~= old(text)@);
    assert(final(text)@.skip(old(text)@.len() as int) =~= decimal(n as nat));
}

/// A text, a copy of it, its bytes and what bytes are shown as are the same text; texts and
/// byte strings are the same if all their parts are.
pub proof fn law_texts_are_kept(
    text: &str,
    copy: String,
    bytes: Vec<u8>,
    raw: &[u8],
    text_of_raw: String,
    other: &str,
    texts_same: bool,
    other_raw: &[u8],
    bytes_same: bool,
)
    requires
        call_ensures(owned, (text,), copy),
        call_ensures(text_bytes, (text,), bytes),
        call_ensures(shown, (raw,), text_of_raw),
        call_ensures(same_text, (text, other), texts_same),
        call_ensures(same_bytes, (raw, other_raw), bytes_same),
    ensures
        copy@ == text@,
        bytes@ == encode_utf8(text@),
        valid_utf8(raw@) ==> encode_utf8(text_of_raw@) == raw@,
        !valid_utf8(raw@) ==> text_of_raw@ == lossy_text(raw@),
        texts_same <==> text@ == other@,
        bytes_same <==> raw@ == other_raw@,
{
    if valid_utf8(raw@) {
        decode_utf8_encode_utf8(raw@);
    }
}

} // verus!
