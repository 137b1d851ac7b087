//! What holds of every log: what was written is read back, and a crash or a
//! corrupt tail costs no entry that stands before it.
use crate::checksum::{crc32_of, law_damaged_byte_changes_checksum};
use crate::codec::{law_le_u32, le_u32, low_u32, u32_of_le};
use crate::wal::{
    append_error, apply, clean, first_entry, known_op, log_entries, opened, recovered, replay,
    valid_len, Entry, CRC_LEN, HEADER_LEN, OP_DELETE, OP_SET,
};
use vstd::prelude::*;

verus! {

/// The bytes of entries, one behind the other.
pub open spec fn log_bytes(entries: Seq<Entry>) -> Seq<u8>
    decreases entries.len(),
{
    if entries.len() == 0 {
        Seq::empty()
    } else {
        log_bytes(entries.drop_last()) + entries.last().bytes()
    }
}

/// The number of bytes of entries, one behind the other.
pub open spec fn log_len(entries: Seq<Entry>) -> nat
    decreases entries.len(),
{
    if entries.len() == 0 {
        0
    } else {
        log_len(entries.drop_last()) + entries.last().len()
    }
}

/// Whether an entry can be read back: it may be appended, and its lengths fit.
pub open spec fn readable(entry: Entry) -> bool {
    append_error(entry) is None && entry.lengths_fit()
}

/// The parts of an entry, in the bytes of the entry.
proof fn lemma_layout(entry: Entry, tail: Seq<u8>)
    requires
        entry.lengths_fit(),
    ensures
        ({
            let data = entry.bytes() + tail;
            let key_end = HEADER_LEN + entry.key.len();
            let body_len = key_end + entry.value.len();
            &&& entry.bytes().len() == entry.len()
            &&& data[0] == entry.op
            &&& data.subrange(1, 5) == le_u32(entry.key.len() as u32)
            &&& data.subrange(5, 9) == le_u32(entry.value.len() as u32)
            &&& u32_of_le(data.subrange(1, 5)) == entry.key.len()
            &&& u32_of_le(data.subrange(5, 9)) == entry.value.len()
            &&& data.subrange(HEADER_LEN as int, key_end as int) == entry.key
            &&& data.subrange(key_end as int, body_len as int) == entry.value
            &&& data.take(body_len as int) == entry.body()
            &&& data.subrange(body_len as int, body_len + CRC_LEN) == le_u32(
                crc32_of(entry.body()),
            )
        }),
{
    let data = entry.bytes() + tail;
    let key_len = entry.key.len() as u32;
    let value_len = entry.value.len() as u32;
    let key_end = HEADER_LEN + entry.key.len();
    let body_len = key_end + entry.value.len();
    assert(low_u32(entry.key.len()) == key_len);
    assert(low_u32(entry.value.len()) == value_len);
    law_le_u32(key_len, le_u32(key_len));
    law_le_u32(value_len, le_u32(value_len));
    assert(data.subrange(1, 5) =~= le_u32(key_len));
    assert(data.subrange(5, 9) =~= le_u32(value_len));
    assert(data.subrange(HEADER_LEN as int, key_end as int) =~= entry.key);
    assert(data.subrange(key_end as int, body_len as int) =~= entry.value);
    assert(data.take(body_len as int) =~= entry.body());
    assert(data.subrange(body_len as int, body_len + CRC_LEN) =~= le_u32(crc32_of(entry.body())));
}

/// An entry that was written is read back, whatever stands behind it.
pub proof fn law_entry_reads_back(entry: Entry, tail: Seq<u8>)
    requires
        readable(entry),
    ensures
        first_entry(entry.bytes() + tail) == Some((entry, entry.len() as int)),
{
    lemma_layout(entry, tail);
    let crc = crc32_of(entry.body());
    law_le_u32(crc, le_u32(crc));
}

/// An intact entry is read as the same entry, whatever stands behind it.
proof fn lemma_first_entry_stays(data: Seq<u8>, tail: Seq<u8>)
    requires
        first_entry(data) is Some,
    ensures
        first_entry(data + tail) == first_entry(data),
{
    let all = data + tail;
    let key_len = u32_of_le(data.subrange(1, 5)) as int;
    let value_len = u32_of_le(data.subrange(5, 9)) as int;
    let body_len = HEADER_LEN + key_len + value_len;
    assert(all.subrange(1, 5) =~= data.subrange(1, 5));
    assert(all.subrange(5, 9) =~= data.subrange(5, 9));
    assert(all.subrange(HEADER_LEN as int, HEADER_LEN + key_len) =~= data.subrange(
        HEADER_LEN as int,
        HEADER_LEN + key_len,
    ));
    assert(all.subrange(HEADER_LEN + key_len, body_len) =~= data.subrange(
        HEADER_LEN + key_len,
        body_len,
    ));
    assert(all.subrange(body_len, body_len + CRC_LEN) =~= data.subrange(
        body_len,
        body_len + CRC_LEN,
    ));
    assert(all.take(body_len) =~= data.take(body_len));
}

/// The intact entries of a log are no longer than the log.
pub proof fn law_valid_len_bounded(data: Seq<u8>)
    ensures
        valid_len(data) <= data.len(),
    decreases data.len(),
{
    if let Some((_, len)) = first_entry(data) {
        law_valid_len_bounded(data.skip(len));
    }
}

/// Reading goes on behind a log that has no torn tail.
proof fn lemma_log_then_tail(data: Seq<u8>, tail: Seq<u8>)
    requires
        clean(data),
    ensures
        log_entries(data + tail) == log_entries(data) + log_entries(tail),
        valid_len(data + tail) == data.len() + valid_len(tail),
    decreases data.len(),
{
    match first_entry(data) {
        Some((entry, len)) => {
            let rest = data.skip(len);
            lemma_first_entry_stays(data, tail);
            assert((data + tail).skip(len) =~= rest + tail);
            lemma_log_then_tail(rest, tail);
            assert(seq![entry] + (log_entries(rest) + log_entries(tail)) =~= (seq![entry]
                + log_entries(rest)) + log_entries(tail));
        },
        None => {
            assert(data =~= Seq::empty());
            assert(data + tail =~= tail);
            assert(log_entries(data) + log_entries(tail) =~= log_entries(tail));
        },
    }
}

/// An entry that is appended to a log is read back behind all that the log held,
/// and the index that the log stands for changes by that entry alone.
pub proof fn law_append_is_recovered(data: Seq<u8>, entry: Entry)
    requires
        clean(data),
        readable(entry),
    ensures
        log_entries(data + entry.bytes()) == log_entries(data).push(entry),
        recovered(data + entry.bytes()) == apply(recovered(data), entry),
        clean(data + entry.bytes()),
        valid_len(data + entry.bytes()) == valid_len(data) + entry.len(),
{
    let bytes = entry.bytes();
    lemma_layout(entry, Seq::empty());
    law_entry_reads_back(entry, Seq::empty());
    assert(bytes + Seq::empty() =~= bytes);
    assert(bytes.skip(entry.len() as int) =~= Seq::empty());
    lemma_empty_log();
    lemma_log_then_tail(data, bytes);
    assert(log_entries(bytes) =~= seq![entry]);
    assert(log_entries(data) + seq![entry] =~= log_entries(data).push(entry));
    assert(log_entries(data).push(entry).drop_last() =~= log_entries(data));
}

/// An empty file is a log without entries.
pub proof fn lemma_empty_log()
    ensures
        clean(Seq::empty()),
        log_entries(Seq::empty()) == Seq::<Entry>::empty(),
        recovered(Seq::empty()) == Map::<Seq<u8>, Seq<u8>>::empty(),
{
}

/// Entries that were written one behind the other are all read back, in order, and
/// nothing else is.
pub proof fn law_log_reads_back(entries: Seq<Entry>)
    requires
        forall|i: int| 0 <= i < entries.len() ==> readable(#[trigger] entries[i]),
    ensures
        log_entries(log_bytes(entries)) == entries,
        recovered(log_bytes(entries)) == replay(entries),
        clean(log_bytes(entries)),
        valid_len(log_bytes(entries)) == log_len(entries),
    decreases entries.len(),
{
    lemma_empty_log();
    if entries.len() > 0 {
        let before = entries.drop_last();
        law_log_reads_back(before);
        law_append_is_recovered(log_bytes(before), entries.last());
        assert(before.push(entries.last()) =~= entries);
    } else {
        assert(entries =~= Seq::empty());
    }
}

/// A tail that does not start with an intact entry is as if it were not there.
pub proof fn law_tail_is_discarded(data: Seq<u8>, tail: Seq<u8>)
    requires
        clean(data),
        first_entry(tail) is None,
    ensures
        opened(data + tail) == opened(data),
        recovered(data + tail) == recovered(data),
        (data + tail).take(valid_len(data + tail) as int) == data,
{
    lemma_log_then_tail(data, tail);
    assert(log_entries(data) + log_entries(tail) =~= log_entries(data));
    assert((data + tail).take(data.len() as int) =~= data);
}

/// A crash in the middle of a write costs the entry that was being written and no
/// other.
pub proof fn law_torn_write_is_discarded(data: Seq<u8>, entry: Entry, written: nat)
    requires
        clean(data),
        entry.lengths_fit(),
        written < entry.len(),
    ensures
        opened(data + entry.bytes().take(written as int)) == opened(data),
        recovered(data + entry.bytes().take(written as int)) == recovered(data),
{
    let torn = entry.bytes().take(written as int);
    lemma_layout(entry, Seq::empty());
    assert(entry.bytes() + Seq::empty() =~= entry.bytes());
    if written >= HEADER_LEN + CRC_LEN {
        assert(torn.subrange(1, 5) =~= entry.bytes().subrange(1, 5));
        assert(torn.subrange(5, 9) =~= entry.bytes().subrange(5, 9));
    }
    law_tail_is_discarded(data, torn);
}

/// An entry with bytes that do not fit its checksum ends the log, and costs what
/// stands behind it, but nothing that stands before it.
pub proof fn law_corrupt_entry_ends_log(
    data: Seq<u8>,
    entry: Entry,
    damaged: Seq<u8>,
    rest: Seq<u8>,
)
    requires
        clean(data),
        entry.lengths_fit(),
        damaged.len() == entry.body().len(),
        damaged.subrange(1, HEADER_LEN as int) == entry.body().subrange(1, HEADER_LEN as int),
        crc32_of(damaged) != crc32_of(entry.body()),
    ensures
        opened(data + (damaged + le_u32(crc32_of(entry.body())) + rest)) == opened(data),
        recovered(data + (damaged + le_u32(crc32_of(entry.body())) + rest)) == recovered(data),
{
    let crc = crc32_of(entry.body());
    let tail = damaged + le_u32(crc) + rest;
    let body_len = entry.body().len() as int;
    lemma_layout(entry, rest);
    law_le_u32(crc, le_u32(crc));
    let body = entry.body();
    assert forall|i: int| 1 <= i < HEADER_LEN implies tail[i] == (entry.bytes() + rest)[i] by {
        assert(damaged.subrange(1, HEADER_LEN as int)[i - 1] == damaged[i]);
        assert(body.subrange(1, HEADER_LEN as int)[i - 1] == body[i]);
    }
    assert(tail.subrange(1, 5) =~= (entry.bytes() + rest).subrange(1, 5));
    assert(tail.subrange(5, 9) =~= (entry.bytes() + rest).subrange(5, 9));
    assert(tail.take(body_len) =~= damaged);
    assert(tail.subrange(body_len, body_len + CRC_LEN) =~= le_u32(crc));
    law_tail_is_discarded(data, tail);
}

/// One damaged byte of an entry, other than in its two lengths, ends the log, and costs
/// nothing that stands before the entry.
pub proof fn law_damaged_byte_ends_log(
    data: Seq<u8>,
    entry: Entry,
    at: int,
    byte: u8,
    rest: Seq<u8>,
)
    requires
        clean(data),
        entry.lengths_fit(),
        0 <= at < entry.len(),
        !(1 <= at < HEADER_LEN),
        byte != entry.bytes()[at],
    ensures
        opened(data + (entry.bytes().update(at, byte) + rest)) == opened(data),
        recovered(data + (entry.bytes().update(at, byte) + rest)) == recovered(data),
{
    let body = entry.body();
    let crc = crc32_of(body);
    let body_len = body.len() as int;
    lemma_layout(entry, rest);
    law_le_u32(crc, le_u32(crc));
    if at < body_len {
        let damaged = body.update(at, byte);
        assert(entry.bytes()[at] == body[at]);
        law_damaged_byte_changes_checksum(body, at, byte);
        assert(damaged.subrange(1, HEADER_LEN as int) =~= body.subrange(1, HEADER_LEN as int));
        assert(entry.bytes().update(at, byte) =~= damaged + le_u32(crc));
        law_corrupt_entry_ends_log(data, entry, damaged, rest);
    } else {
        let stored = le_u32(crc).update(at - body_len, byte);
        let whole = entry.bytes() + rest;
        let tail = entry.bytes().update(at, byte) + rest;
        assert(stored[at - body_len] == byte);
        law_le_u32(crc, stored);
        assert(tail.subrange(1, 5) =~= whole.subrange(1, 5));
        assert(tail.subrange(5, 9) =~= whole.subrange(5, 9));
        assert(tail.take(body_len) =~= body);
        assert(tail.subrange(body_len, body_len + CRC_LEN) =~= stored);
        law_tail_is_discarded(data, tail);
    }
}

/// A tail whose op is not known, or whose key is empty, ends the log.
pub proof fn law_malformed_entry_ends_log(data: Seq<u8>, tail: Seq<u8>)
    requires
        clean(data),
        tail.len() >= HEADER_LEN,
        !known_op(tail[0]) || u32_of_le(tail.subrange(1, 5)) == 0,
    ensures
        opened(data + tail) == opened(data),
        recovered(data + tail) == recovered(data),
{
    law_tail_is_discarded(data, tail);
}

/// A log that is cut off behind its last intact entry reads as before, and has no
/// tail left: reading it once more changes nothing.
pub proof fn law_truncation_keeps_entries(data: Seq<u8>)
    ensures
        valid_len(data) <= data.len(),
        clean(data.take(valid_len(data) as int)),
        opened(data.take(valid_len(data) as int)) == opened(data),
        recovered(data.take(valid_len(data) as int)) == recovered(data),
    decreases data.len(),
{
    law_valid_len_bounded(data);
    lemma_truncation(data);
}

proof fn lemma_truncation(data: Seq<u8>)
    ensures
        valid_len(data) <= data.len(),
        valid_len(data.take(valid_len(data) as int)) == valid_len(data),
        log_entries(data.take(valid_len(data) as int)) == log_entries(data),
    decreases data.len(),
{
    law_valid_len_bounded(data);
    let kept = data.take(valid_len(data) as int);
    match first_entry(data) {
        Some((entry, len)) => {
            let rest = data.skip(len);
            lemma_truncation(rest);
            lemma_entry_needs_its_bytes(data, kept);
            assert(kept.skip(len) =~= rest.take(valid_len(rest) as int));
        },
        None => {
            assert(kept =~= Seq::empty());
        },
    }
}

/// An intact entry is read from its own bytes.
proof fn lemma_entry_needs_its_bytes(data: Seq<u8>, kept: Seq<u8>)
    requires
        first_entry(data) is Some,
        (first_entry(data)->0).1 <= kept.len() <= data.len(),
        kept == data.take(kept.len() as int),
    ensures
        first_entry(kept) == first_entry(data),
{
    let key_len = u32_of_le(data.subrange(1, 5)) as int;
    let value_len = u32_of_le(data.subrange(5, 9)) as int;
    let body_len = HEADER_LEN + key_len + value_len;
    assert(kept.subrange(1, 5) =~= data.subrange(1, 5));
    assert(kept.subrange(5, 9) =~= data.subrange(5, 9));
    assert(kept.subrange(HEADER_LEN as int, HEADER_LEN + key_len) =~= data.subrange(
        HEADER_LEN as int,
        HEADER_LEN + key_len,
    ));
    assert(kept.subrange(HEADER_LEN + key_len, body_len) =~= data.subrange(
        HEADER_LEN + key_len,
        body_len,
    ));
    assert(kept.subrange(body_len, body_len + CRC_LEN) =~= data.subrange(
        body_len,
        body_len + CRC_LEN,
    ));
    assert(kept.take(body_len) =~= data.take(body_len));
}

/// The last entry of a key decides: a set is read back, a delete is not, and other
/// keys are not touched.
pub proof fn law_last_entry_decides(data: Seq<u8>, entry: Entry, other: Seq<u8>)
    requires
        clean(data),
        readable(entry),
        other != entry.key,
    ensures
        ({
            let before = recovered(data);
            let after = recovered(data + entry.bytes());
            &&& entry.op == OP_SET ==> after.contains_key(entry.key) && after[entry.key]
                == entry.value
            &&& entry.op == OP_DELETE ==> !after.contains_key(entry.key)
            &&& after.contains_key(other) == before.contains_key(other)
            &&& before.contains_key(other) ==> after[other] == before[other]
        }),
{
    law_append_is_recovered(data, entry);
}

} // verus!
