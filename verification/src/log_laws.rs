//! What holds of every call on a log and on an index, in terms of bytes and of keys and values.
use crate::checksum::crc32_of;
use crate::codec::{le_u32, low_u32, u32_of_le};
use crate::index::{lists_once, KeySizes, MemoryIndex};
use crate::protocol_laws::{law_bytes_are_digits, little_at};
use crate::wal::{
    append_error, apply, clean, crc_hash, first_entry, opened, recovered, replay, Entry,
    StagedEntry, Wal, WalError,
};
use crate::wal_laws::{law_log_reads_back, law_tail_is_discarded, log_bytes, readable};
use crate::worker_laws::length_in_all;
use vstd::prelude::*;

verus! {

/// Whether bytes are an entry with these parts: the op, the lengths of key and value, key and
/// value, and the checksum of all that stands before it.
pub open spec fn is_entry(bytes: Seq<u8>, op: u8, key: Seq<u8>, value: Seq<u8>) -> bool {
    let value_at = 9 + key.len() as int;
    let crc_at = value_at + value.len();
    &&& bytes.len() == crc_at + 4
    &&& bytes[0] == op
    &&& key.len() <= u32::MAX ==> little_at(bytes, 1) == key.len()
    &&& value.len() <= u32::MAX ==> little_at(bytes, 5) == value.len()
    &&& bytes.subrange(9, value_at) == key
    &&& bytes.subrange(value_at, crc_at) == value
    &&& little_at(bytes, crc_at) == crc32_of(bytes.take(crc_at))
}

/// Where the parts of an entry stand in its bytes.
pub proof fn law_entry_layout(entry: Entry)
    ensures
        is_entry(entry.bytes(), entry.op, entry.key, entry.value),
        entry.len() == 13 + entry.key.len() + entry.value.len(),
        entry.bytes().take(entry.bytes().len() - 4) == entry.body(),
{
    let key_len = le_u32(low_u32(entry.key.len()));
    let value_len = le_u32(low_u32(entry.value.len()));
    let crc = le_u32(crc32_of(entry.body()));
    law_bytes_are_digits(low_u32(entry.key.len()), 0);
    law_bytes_are_digits(low_u32(entry.value.len()), 0);
    law_bytes_are_digits(crc32_of(entry.body()), 0);
    lemma_entry_parts(seq![entry.op], key_len, value_len, entry.key, entry.value, crc);
}

proof fn lemma_entry_parts(
    op: Seq<u8>,
    key_len: Seq<u8>,
    value_len: Seq<u8>,
    key: Seq<u8>,
    value: Seq<u8>,
    crc: Seq<u8>,
)
    requires
        op.len() == 1,
        key_len.len() == 4,
        value_len.len() == 4,
        crc.len() == 4,
    ensures
        ({
            let body = op + key_len + value_len + key + value;
            let bytes = body + crc;
            let value_at = 9 + key.len() as int;
            let crc_at = value_at + value.len();
            &&& bytes.len() == crc_at + 4
            &&& bytes[0] == op[0]
            &&& little_at(bytes, 1) == little_at(key_len, 0)
            &&& little_at(bytes, 5) == little_at(value_len, 0)
            &&& bytes.subrange(9, value_at) == key
            &&& bytes.subrange(value_at, crc_at) == value
            &&& bytes.take(crc_at) == body
            &&& little_at(bytes, crc_at) == little_at(crc, 0)
        }),
{
    let body = op + key_len + value_len + key + value;
    let bytes = body + crc;
    let value_at = 9 + key.len() as int;
    let crc_at = value_at + value.len();
    assert(bytes.subrange(9, value_at) =~= key);
    assert(bytes.subrange(value_at, crc_at) =~= value);
    assert(bytes.take(crc_at) =~= body);
}

/// Whether a change can be logged: it sets a key or deletes it, it has a key, and a delete has
/// no value.
pub open spec fn can_be_logged(op: u8, key: Seq<u8>, value: Seq<u8>) -> bool {
    (op == 1 || op == 2) && key.len() > 0 && (op == 2 ==> value.len() == 0)
}

/// A change that can be logged is put into the write buffer as one entry, behind what waits
/// there; any other is refused, for its op first, then for its key, then for its value. Either
/// way nothing else changes.
pub proof fn law_entry_is_staged(
    wal: &mut Wal,
    op: u8,
    key: &[u8],
    value: &[u8],
    result: Result<StagedEntry, WalError>,
    len: u64,
)
    requires
        call_ensures(Wal::append, (wal, op, key, value), result),
        result matches Ok(staged) ==> call_ensures(StagedEntry::len, (&staged,), len),
    ensures
        result is Ok <==> can_be_logged(op, key@, value@),
        result matches Ok(staged) ==> {
            let before = old(wal)@.write_buf;
            let after = final(wal)@.write_buf;
            &&& len == 13 + key@.len() + value@.len()
            &&& staged.spec_len() == len
            &&& after.take(before.len() as int) == before
            &&& is_entry(after.skip(before.len() as int), op, key@, value@)
        },
        result matches Err(error) ==> {
            &&& final(wal)@.write_buf == old(wal)@.write_buf
            &&& error is UnknownOp <==> op != 1 && op != 2
            &&& error is EmptyKey <==> (op == 1 || op == 2) && key@.len() == 0
        },
        final(wal)@.file_len == old(wal)@.file_len,
        final(wal)@.entry_count == old(wal)@.entry_count,
{
    let entry = Entry { op, key: key@, value: value@ };
    law_entry_layout(entry);
    let before = old(wal)@.write_buf;
    let all = before + entry.bytes();
    assert(all.take(before.len() as int) =~= before);
    assert(all.skip(before.len() as int) =~= entry.bytes());
}

/// Each refusal has its words.
pub proof fn law_refusal_has_its_words(error: WalError, message: String)
    requires
        call_ensures(WalError::message, (&error,), message),
    ensures
        error is UnknownOp ==> message@ == "wal: unknown operation"@,
        error is EmptyKey ==> message@ == "wal: key cannot be empty"@,
        error is DeleteWithValue ==> message@ == "wal: delete cannot carry a value"@,
{
}

/// The checksum of an entry covers its op, both lengths, its key and its value.
pub proof fn law_checksum_covers_the_entry(
    op: u8,
    key: &[u8],
    value: &[u8],
    crc: u32,
    bytes: Seq<u8>,
)
    requires
        call_ensures(crc_hash, (op, key, value), crc),
        is_entry(bytes, op, key@, value@),
        key@.len() <= u32::MAX,
        value@.len() <= u32::MAX,
    ensures
        crc == little_at(bytes, bytes.len() - 4),
{
    let entry = Entry { op, key: key@, value: value@ };
    law_entry_layout(entry);
    let body = bytes.take(bytes.len() - 4);
    let own = entry.bytes();
    assert forall|i: int| 0 <= i < body.len() implies #[trigger] body[i] == entry.body()[i] by {
        let value_at = 9 + key@.len() as int;
        assert(entry.body()[i] == own.take(own.len() - 4)[i]);
        if i >= value_at {
            assert(bytes.subrange(value_at, bytes.len() - 4)[i - value_at] == bytes[i]);
            assert(own.subrange(value_at, own.len() - 4)[i - value_at] == own[i]);
        } else if i >= 9 {
            assert(bytes.subrange(9, value_at)[i - 9] == bytes[i]);
            assert(own.subrange(9, value_at)[i - 9] == own[i]);
        } else {
            lemma_same_digits(bytes, own, 1);
            lemma_same_digits(bytes, own, 5);
        }
    }
    assert(body =~= entry.body());
}

proof fn lemma_same_digits(a: Seq<u8>, b: Seq<u8>, at: int)
    requires
        little_at(a, at) == little_at(b, at),
    ensures
        a[at] == b[at],
        a[at + 1] == b[at + 1],
        a[at + 2] == b[at + 2],
        a[at + 3] == b[at + 3],
{
}

/// What can be logged, with lengths that fit their four bytes, is what can be read back.
pub proof fn law_what_is_logged_can_be_read(entry: Entry)
    ensures
        readable(entry) <==> can_be_logged(entry.op, entry.key, entry.value) && entry.key.len()
            <= 4294967295 && entry.value.len() <= 4294967295,
        append_error(entry) is None <==> can_be_logged(entry.op, entry.key, entry.value),
{
}

/// Whether bytes start with an intact entry: all that the lengths announce is there, the
/// checksum fits, the entry sets or deletes, and it has a key.
pub open spec fn starts_with_entry(data: Seq<u8>) -> bool {
    let end = 9 + little_at(data, 1) + little_at(data, 5);
    &&& data.len() >= 13
    &&& data.len() >= end + 4
    &&& little_at(data, end) == crc32_of(data.take(end))
    &&& data[0] == 1 || data[0] == 2
    &&& little_at(data, 1) > 0
}

/// An entry is read exactly where bytes start with an intact one, and it is the one that they
/// spell.
pub proof fn law_intact_entries_are_read(data: Seq<u8>)
    ensures
        first_entry(data) is Some <==> starts_with_entry(data),
        first_entry(data) matches Some((entry, len)) ==> {
            let value_at = 9 + little_at(data, 1);
            let crc_at = value_at + little_at(data, 5);
            &&& len == crc_at + 4
            &&& entry.op == data[0]
            &&& entry.key == data.subrange(9, value_at)
            &&& entry.value == data.subrange(value_at, crc_at)
        },
{
    if data.len() >= 13 {
        assert(u32_of_le(data.subrange(1, 5)) == little_at(data, 1));
        assert(u32_of_le(data.subrange(5, 9)) == little_at(data, 5));
        let end = 9 + little_at(data, 1) + little_at(data, 5);
        if data.len() >= end + 4 {
            assert(u32_of_le(data.subrange(end, end + 4)) == little_at(data, end));
        }
    }
}

/// A log file is read back: all entries that were written, in their order, up to the first
/// bytes that are no intact entry. The index holds what they leave behind, the next entry goes
/// where they end, and nothing waits to be written.
pub proof fn law_log_file_is_read(
    data: &[u8],
    result: (Wal, MemoryIndex),
    entries: Seq<Entry>,
    tail: Seq<u8>,
)
    requires
        call_ensures(Wal::init, (data,), result),
        forall|i: int|
            0 <= i < entries.len() ==> can_be_logged(
                (#[trigger] entries[i]).op,
                entries[i].key,
                entries[i].value,
            ) && entries[i].key.len() <= 4294967295 && entries[i].value.len() <= 4294967295,
        !starts_with_entry(tail),
        data@ == log_bytes(entries) + tail,
    ensures
        result.0@.file_len == log_bytes(entries).len(),
        result.0@.entry_count == entries.len(),
        result.0@.write_buf.len() == 0,
        result.1@ == replay(entries),
{
    assert forall|i: int| 0 <= i < entries.len() implies readable(#[trigger] entries[i]) by {
        law_what_is_logged_can_be_read(entries[i]);
    }
    law_log_reads_back(entries);
    law_intact_entries_are_read(tail);
    law_tail_is_discarded(log_bytes(entries), tail);
}

/// A log of one entry more has the bytes of that entry behind the others.
pub proof fn law_log_grows_by_entries(entries: Seq<Entry>, entry: Entry)
    ensures
        log_bytes(Seq::empty()).len() == 0,
        log_bytes(entries.push(entry)) == log_bytes(entries) + entry.bytes(),
        is_entry(entry.bytes(), entry.op, entry.key, entry.value),
{
    law_entry_layout(entry);
    assert(entries.push(entry).drop_last() =~= entries);
}

/// Entries leave behind what the last of each key says: a set gives the key the value, a
/// delete takes it out, and no other key is touched.
pub proof fn law_replay_follows_the_entries(
    entries: Seq<Entry>,
    entry: Entry,
    index: Map<Seq<u8>, Seq<u8>>,
)
    ensures
        replay(Seq::empty()) == Map::<Seq<u8>, Seq<u8>>::empty(),
        entry.op == 1 ==> replay(entries.push(entry)) == replay(entries).insert(
            entry.key,
            entry.value,
        ),
        entry.op == 2 ==> replay(entries.push(entry)) == replay(entries).remove(entry.key),
        entry.op == 1 ==> apply(index, entry) == index.insert(entry.key, entry.value),
        entry.op == 2 ==> apply(index, entry) == index.remove(entry.key),
{
    assert(entries.push(entry).drop_last() =~= entries);
}

/// What a log file of any bytes is opened as is what its intact entries are.
pub proof fn law_opened_log(data: &[u8], result: (Wal, MemoryIndex))
    requires
        call_ensures(Wal::init, (data,), result),
    ensures
        result.0@ == opened(data@),
        result.1@ == recovered(data@),
        clean(data@) ==> result.0@.file_len == data@.len(),
{
}

/// A log tells where its next entry goes, how many entries it has, what it takes on disk and
/// what waits to be written, and whether a file is longer than that.
pub proof fn law_log_tells_its_state(
    wal: Wal,
    offset: u64,
    count: u64,
    size: u64,
    waiting: &[u8],
    file_len: u64,
    cut: Option<u64>,
)
    requires
        call_ensures(Wal::next_offset, (&wal,), offset),
        call_ensures(Wal::entry_count, (&wal,), count),
        call_ensures(Wal::size_on_disk, (&wal,), size),
        call_ensures(Wal::write_buf, (&wal,), waiting),
        call_ensures(Wal::truncated_len, (&wal, file_len), cut),
    ensures
        offset == wal@.file_len,
        count == wal@.entry_count,
        size == wal@.file_len,
        waiting@ == wal@.write_buf,
        file_len > wal@.file_len ==> cut == Some(offset),
        file_len <= wal@.file_len ==> cut is None,
{
}

/// An entry that has reached the file starts where the log ended and moves its end by its own
/// bytes; one that has not leaves the log as it was. Nothing waits afterwards.
pub proof fn law_entry_is_confirmed_or_discarded(
    confirmed: &mut Wal,
    entry: StagedEntry,
    offset: u64,
    discarded: &mut Wal,
)
    requires
        call_ensures(Wal::confirm, (confirmed, entry), offset),
        call_ensures(Wal::discard, (discarded,), ()),
    ensures
        offset == old(confirmed)@.file_len,
        final(confirmed)@.file_len == offset + entry.spec_len(),
        final(confirmed)@.entry_count == old(confirmed)@.entry_count + 1,
        final(confirmed)@.write_buf.len() == 0,
        final(discarded)@.file_len == old(discarded)@.file_len,
        final(discarded)@.entry_count == old(discarded)@.entry_count,
        final(discarded)@.write_buf.len() == 0,
{
}

/// What was put into an index is what it gives back, whole; other keys keep their values.
pub proof fn law_index_gives_back_what_was_put_in(
    index: &mut MemoryIndex,
    key: Vec<u8>,
    value: Vec<u8>,
    after: MemoryIndex,
    asked: &[u8],
    found: Option<&Vec<u8>>,
)
    requires
        call_ensures(MemoryIndex::insert, (index, key, value), ()),
        after@ == final(index)@,
        call_ensures(MemoryIndex::get, (&after, asked), found),
    ensures
        asked@ == key@ ==> found is Some && (found->0)@ == value@,
        asked@ != key@ && old(index)@.contains_key(asked@) ==> found is Some && (found->0)@
            == old(index)@[asked@],
        asked@ != key@ && !old(index)@.contains_key(asked@) ==> found is None,
{
}

/// What was taken out of an index is gone, and whether it was there is told; other keys keep
/// their values.
pub proof fn law_index_forgets_what_was_taken_out(
    index: &mut MemoryIndex,
    key: &[u8],
    removed: bool,
    after: MemoryIndex,
    asked: &[u8],
    found: Option<&Vec<u8>>,
)
    requires
        call_ensures(MemoryIndex::remove, (index, key), removed),
        after@ == final(index)@,
        call_ensures(MemoryIndex::get, (&after, asked), found),
    ensures
        removed <==> old(index)@.contains_key(key@),
        asked@ == key@ ==> found is None,
        asked@ != key@ && old(index)@.contains_key(asked@) ==> found is Some && (found->0)@
            == old(index)@[asked@],
        asked@ != key@ && !old(index)@.contains_key(asked@) ==> found is None,
{
}

/// An index counts its keys and their lengths. The keys are given as a list that has each of
/// them once.
pub proof fn law_index_counts_its_keys(
    index: MemoryIndex,
    listed: Seq<Seq<u8>>,
    fresh: MemoryIndex,
    len: usize,
    empty: bool,
    sizes: KeySizes,
)
    requires
        call_ensures(MemoryIndex::new, (), fresh),
        call_ensures(MemoryIndex::len, (&index,), len),
        call_ensures(MemoryIndex::is_empty, (&index,), empty),
        call_ensures(MemoryIndex::key_sizes, (&index,), sizes),
        listed.no_duplicates(),
        forall|key: Seq<u8>| #[trigger] listed.contains(key) <==> index@.contains_key(key),
    ensures
        forall|key: Seq<u8>| !#[trigger] fresh@.contains_key(key),
        len == listed.len(),
        empty <==> listed.len() == 0,
        sizes.count == listed.len(),
        sizes.total == length_in_all(listed),
        forall|i: int|
            0 <= i < listed.len() ==> sizes.min <= (#[trigger] listed[i]).len() <= sizes.max,
        listed.len() > 0 ==> exists|i: int|
            0 <= i < listed.len() && sizes.min == (#[trigger] listed[i]).len(),
        listed.len() > 0 ==> exists|i: int|
            0 <= i < listed.len() && sizes.max == (#[trigger] listed[i]).len(),
{
    let keys = index@.dom();
    assert(listed.to_set() =~= keys) by {
        assert forall|key: Seq<u8>| listed.to_set().contains(key) == keys.contains(key) by {
            assert(listed.contains(key) <==> index@.contains_key(key));
        }
    }
    assert(lists_once(listed, keys));
    crate::index::lemma_lists_once(listed, keys);
    crate::index::lemma_total_len_of_list(listed, keys);
    if listed.len() > 0 {
        assert forall|i: int| 0 <= i < listed.len() implies sizes.min <= (
        #[trigger] listed[i]).len() <= sizes.max by {
            assert(listed.contains(listed[i]));
            assert(keys.contains(listed[i]));
        }
        let short = choose|key: Seq<u8>| #[trigger] keys.contains(key) && key.len() == sizes.min;
        let long = choose|key: Seq<u8>| #[trigger] keys.contains(key) && key.len() == sizes.max;
        assert(listed.contains(short) && listed.contains(long));
        let i = choose|i: int| 0 <= i < listed.len() && listed[i] == short;
        let j = choose|j: int| 0 <= j < listed.len() && listed[j] == long;
        assert(listed[i].len() == sizes.min && listed[j].len() == sizes.max);
        assert(listed.contains(listed[0]));
        assert(index@.contains_key(listed[0]));
    } else {
        assert forall|key: Seq<u8>| !#[trigger] index@.contains_key(key) by {
            assert(listed.contains(key) <==> index@.contains_key(key));
        }
        assert(index@ =~= Map::<Seq<u8>, Seq<u8>>::empty());
    }
}

} // verus!
