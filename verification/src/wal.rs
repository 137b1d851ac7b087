//! The write-ahead log of one database.
//!
//! An entry is `(1 B op | 4 B key length | 4 B value length | key | value | 4 B CRC-32)`,
//! with lengths and checksum in little-endian order. The checksum covers all that
//! stands before it in the entry.
//!
//! A log is read from its start up to the first bytes that are not a whole, intact
//! entry. What stands behind them is a torn or corrupt tail: it is cut off, and the
//! next entry is written in its place.
use crate::checksum::{crc32, crc32_of};
use crate::codec::{le_u32, len_u32, low_u32, push_bytes, push_u32_le, read_u32_le, u32_of_le};
use crate::index::MemoryIndex;
use crate::text::owned;
use vstd::prelude::*;

verus! {

/// Bytes of an entry before its key: op, key length, value length.
pub const HEADER_LEN: usize = 1 + 4 + 4;

/// Bytes of an entry behind its value.
pub const CRC_LEN: usize = 4;

/// The entry gives its key its value.
pub const OP_SET: u8 = 1;

/// The entry takes its key out.
pub const OP_DELETE: u8 = 2;

/// An entry of the log.
#[verifier::ext_equal]
pub struct Entry {
    pub op: u8,
    pub key: Seq<u8>,
    pub value: Seq<u8>,
}

/// Whether `op` may stand in a log.
pub open spec fn known_op(op: u8) -> bool {
    op == OP_SET || op == OP_DELETE
}

impl Entry {
    /// Whether both lengths fit the four bytes that the entry has for each.
    pub open spec fn lengths_fit(self) -> bool {
        self.key.len() <= u32::MAX && self.value.len() <= u32::MAX
    }

    /// What the checksum covers.
    pub open spec fn body(self) -> Seq<u8> {
        seq![self.op] + le_u32(low_u32(self.key.len())) + le_u32(low_u32(self.value.len()))
            + self.key + self.value
    }

    /// The entry as it stands in the log.
    pub open spec fn bytes(self) -> Seq<u8> {
        self.body() + le_u32(crc32_of(self.body()))
    }

    /// The number of bytes of the entry.
    pub open spec fn len(self) -> nat {
        HEADER_LEN as nat + self.key.len() + self.value.len() + CRC_LEN as nat
    }
}

/// The intact entry at the start of `data`, and its length.
///
/// There is one if `data` holds all the bytes that the two lengths announce, the
/// checksum fits, the op is known and the key is not empty.
pub open spec fn first_entry(data: Seq<u8>) -> Option<(Entry, int)> {
    let key_len = u32_of_le(data.subrange(1, 5)) as int;
    let value_len = u32_of_le(data.subrange(5, 9)) as int;
    let body_len = HEADER_LEN + key_len + value_len;
    let entry = Entry {
        op: data[0],
        key: data.subrange(HEADER_LEN as int, HEADER_LEN + key_len),
        value: data.subrange(HEADER_LEN + key_len, body_len),
    };
    if data.len() < HEADER_LEN + CRC_LEN || data.len() < body_len + CRC_LEN {
        None
    } else if u32_of_le(data.subrange(body_len, body_len + CRC_LEN)) != crc32_of(
        data.take(body_len),
    ) {
        None
    } else if !known_op(entry.op) || key_len == 0 {
        None
    } else {
        Some((entry, body_len + CRC_LEN))
    }
}

/// The intact entries that `data` starts with.
pub open spec fn log_entries(data: Seq<u8>) -> Seq<Entry>
    decreases data.len(),
{
    match first_entry(data) {
        Some((entry, len)) => seq![entry] + log_entries(data.skip(len)),
        None => Seq::empty(),
    }
}

/// The number of bytes of the intact entries that `data` starts with.
pub open spec fn valid_len(data: Seq<u8>) -> nat
    decreases data.len(),
{
    match first_entry(data) {
        Some((_, len)) => (len + valid_len(data.skip(len))) as nat,
        None => 0,
    }
}

/// Whether `data` is a log without a torn or corrupt tail.
pub open spec fn clean(data: Seq<u8>) -> bool {
    valid_len(data) == data.len()
}

/// An index after one entry more.
pub open spec fn apply(index: Map<Seq<u8>, Seq<u8>>, entry: Entry) -> Map<Seq<u8>, Seq<u8>> {
    if entry.op == OP_SET {
        index.insert(entry.key, entry.value)
    } else if entry.op == OP_DELETE {
        index.remove(entry.key)
    } else {
        index
    }
}

/// The index that entries leave behind, from the first to the last.
pub open spec fn replay(entries: Seq<Entry>) -> Map<Seq<u8>, Seq<u8>>
    decreases entries.len(),
{
    if entries.len() == 0 {
        Map::empty()
    } else {
        apply(replay(entries.drop_last()), entries.last())
    }
}

/// The index that a log stands for.
pub open spec fn recovered(data: Seq<u8>) -> Map<Seq<u8>, Seq<u8>> {
    replay(log_entries(data))
}

/// Why an entry is not appended.
#[derive(Debug, Clone, Copy, PartialEq, Eq)]
pub enum WalError {
    /// Neither a set nor a delete.
    UnknownOp,
    /// The key is empty.
    EmptyKey,
    /// A delete with a value.
    DeleteWithValue,
}

impl WalError {
    /// The error in words.
    pub open spec fn text(self) -> Seq<char> {
        match self {
            WalError::UnknownOp => "wal: unknown operation"@,
            WalError::EmptyKey => "wal: key cannot be empty"@,
            WalError::DeleteWithValue => "wal: delete cannot carry a value"@,
        }
    }

    /// The error in words.
    pub fn message(&self) -> (message: String)
        ensures
            message@ == self.text(),
    {
        match self {
            WalError::UnknownOp => owned("wal: unknown operation"),
            WalError::EmptyKey => owned("wal: key cannot be empty"),
            WalError::DeleteWithValue => owned("wal: delete cannot carry a value"),
        }
    }
}

/// The first reason that speaks against an entry.
pub open spec fn append_error(entry: Entry) -> Option<WalError> {
    if !known_op(entry.op) {
        Some(WalError::UnknownOp)
    } else if entry.key.len() == 0 {
        Some(WalError::EmptyKey)
    } else if entry.op == OP_DELETE && entry.value.len() > 0 {
        Some(WalError::DeleteWithValue)
    } else {
        None
    }
}

/// The checksum of an entry with these parts.
pub fn crc_hash(op: u8, key: &[u8], value: &[u8]) -> (crc: u32)
    ensures
        crc == crc32_of((Entry { op, key: key@, value: value@ }).body()),
{
    let body = entry_body(op, key, value);
    crc32(body.as_slice())
}

/// What the checksum of an entry with these parts covers.
fn entry_body(op: u8, key: &[u8], value: &[u8]) -> (body: Vec<u8>)
    ensures
        body@ == (Entry { op, key: key@, value: value@ }).body(),
{
    let mut body: Vec<u8> = Vec::new();
    body.push(op);
    push_u32_le(&mut body, len_u32(key.len()));
    push_u32_le(&mut body, len_u32(value.len()));
    push_bytes(&mut body, key);
    push_bytes(&mut body, value);
    assert(body@ =~= (Entry { op, key: key@, value: value@ }).body());
    body
}

/// An entry that waits in the write buffer of a log.
pub struct StagedEntry {
    len: u64,
}

impl StagedEntry {
    /// The number of bytes of the entry.
    pub closed spec fn spec_len(self) -> nat {
        self.len as nat
    }

    /// The number of bytes of the entry.
    pub fn len(&self) -> (len: u64)
        ensures
            len == self.spec_len(),
    {
        self.len
    }
}

/// A log: where its next entry goes, how many entries it has, and the bytes that
/// wait to be written to its file.
pub struct Wal {
    file_len: u64,
    entry_count: u64,
    write_buf: Vec<u8>,
}

/// What a log holds.
#[verifier::ext_equal]
pub struct WalView {
    /// The number of bytes of the intact entries of the file.
    pub file_len: nat,
    /// The number of intact entries of the file.
    pub entry_count: nat,
    /// The bytes that wait to be written.
    pub write_buf: Seq<u8>,
}

impl View for Wal {
    type V = WalView;

    closed spec fn view(&self) -> WalView {
        WalView {
            file_len: self.file_len as nat,
            entry_count: self.entry_count as nat,
            write_buf: self.write_buf@,
        }
    }
}

/// The log of a file that holds `data`.
pub open spec fn opened(data: Seq<u8>) -> WalView {
    WalView {
        file_len: valid_len(data),
        entry_count: log_entries(data).len(),
        write_buf: Seq::empty(),
    }
}

/// Where the parts of an entry stand in a log.
struct EntrySpan {
    op: u8,
    key_start: usize,
    value_start: usize,
    crc_start: usize,
    end: usize,
}

/// Finds the parts of the intact entry that starts at `offset`.
fn entry_at(data: &[u8], offset: usize) -> (found: Option<EntrySpan>)
    requires
        offset <= data@.len(),
    ensures
        match found {
            Some(span) => {
                &&& offset < span.key_start <= span.value_start <= span.crc_start < span.end
                &&& span.end <= data@.len()
                &&& known_op(span.op)
                &&& first_entry(data@.skip(offset as int)) == Some(
                    (
                        Entry {
                            op: span.op,
                            key: data@.subrange(span.key_start as int, span.value_start as int),
                            value: data@.subrange(span.value_start as int, span.crc_start as int),
                        },
                        span.end - offset,
                    ),
                )
            },
            None => first_entry(data@.skip(offset as int)) is None,
        },
{
    let ghost rest = data@.skip(offset as int);
    let len = data.len();
    if len - offset < HEADER_LEN + CRC_LEN {
        return None;
    }
    let op = data[offset];
    let key_len = read_u32_le(data, offset + 1);
    let value_len = read_u32_le(data, offset + 5);
    let body_len: u64 = HEADER_LEN as u64 + key_len as u64 + value_len as u64;
    assert(rest.subrange(1, 5) =~= data@.subrange(offset + 1, offset + 5));
    assert(rest.subrange(5, 9) =~= data@.subrange(offset + 5, offset + 9));

    // the tail is shorter than the entry it starts
    if body_len + CRC_LEN as u64 > (len - offset) as u64 {
        return None;
    }
    let key_start = offset + HEADER_LEN;
    let value_start = key_start + key_len as usize;
    let crc_start = value_start + value_len as usize;

    // the entry is corrupt
    let stored_crc = read_u32_le(data, crc_start);
    let computed_crc = crc32(&data[offset..crc_start]);
    assert(rest.subrange(body_len as int, body_len + CRC_LEN) =~= data@.subrange(
        crc_start as int,
        crc_start + 4,
    ));
    assert(rest.take(body_len as int) =~= data@.subrange(offset as int, crc_start as int));
    if stored_crc != computed_crc {
        return None;
    }
    if (op != OP_SET && op != OP_DELETE) || key_len == 0 {
        return None;
    }
    assert(rest.subrange(HEADER_LEN as int, HEADER_LEN + key_len) =~= data@.subrange(
        key_start as int,
        value_start as int,
    ));
    assert(rest.subrange(HEADER_LEN + key_len, body_len as int) =~= data@.subrange(
        value_start as int,
        crc_start as int,
    ));
    Some(EntrySpan { op, key_start, value_start, crc_start, end: crc_start + CRC_LEN })
}

impl Wal {
    /// Reads the bytes of a log file: the log, and the index that its intact entries
    /// leave behind.
    pub fn init(data: &[u8]) -> (result: (Self, MemoryIndex))
        ensures
            result.0@ == opened(data@),
            result.1@ == recovered(data@),
    {
        let mut offset: usize = 0;
        let mut count: u64 = 0;
        let mut index = MemoryIndex::new();
        let ghost mut done: Seq<Entry> = Seq::empty();
        assert(data@.skip(0) =~= data@);
        assert(done + log_entries(data@) =~= log_entries(data@));

        loop
            invariant
                offset <= data@.len(),
                count == done.len(),
                count <= offset,
                index@ == replay(done),
                log_entries(data@) == done + log_entries(data@.skip(offset as int)),
                valid_len(data@) == offset + valid_len(data@.skip(offset as int)),
            ensures
                first_entry(data@.skip(offset as int)) is None,
            decreases data@.len() - offset,
        {
            let span = match entry_at(data, offset) {
                Some(span) => span,
                None => {
                    break;
                },
            };
            let key = &data[span.key_start..span.value_start];
            let value = &data[span.value_start..span.crc_start];
            let ghost entry = Entry { op: span.op, key: key@, value: value@ };
            if span.op == OP_SET {
                index.insert(vstd::slice::slice_to_vec(key), vstd::slice::slice_to_vec(value));
            } else {
                let _ = index.remove(key);
            }
            proof {
                let rest = data@.skip(span.end as int);
                assert(data@.skip(offset as int).skip(span.end - offset) =~= rest);
                assert(done.push(entry).drop_last() =~= done);
                assert(done + (seq![entry] + log_entries(rest)) =~= done.push(entry) + log_entries(
                    rest,
                ));
                done = done.push(entry);
            }
            offset = span.end;
            count += 1;
        }
        assert(done + log_entries(data@.skip(offset as int)) =~= done);
        (Wal { file_len: offset as u64, entry_count: count, write_buf: Vec::new() }, index)
    }

    /// The length that a file of `file_len` bytes is cut to so that it ends with the
    /// last intact entry, if it is longer.
    pub fn truncated_len(&self, file_len: u64) -> (len: Option<u64>)
        ensures
            match len {
                Some(n) => n == self@.file_len && n < file_len,
                None => self@.file_len >= file_len,
            },
    {
        if self.file_len < file_len {
            Some(self.file_len)
        } else {
            None
        }
    }

    /// Puts a new entry into the write buffer, unless it may not stand in a log.
    ///
    /// The entry counts only once `confirm` says that the buffer has reached the file. If
    /// it could not be written, `discard` takes it out again.
    pub fn append(&mut self, op: u8, key: &[u8], value: &[u8]) -> (result: Result<
        StagedEntry,
        WalError,
    >)
        requires
            key@.len() + value@.len() + HEADER_LEN + CRC_LEN <= usize::MAX,
        ensures
            ({
                let entry = Entry { op, key: key@, value: value@ };
                match result {
                    Ok(staged) => {
                        &&& append_error(entry) is None
                        &&& staged.spec_len() == entry.len()
                        &&& final(self)@ == (WalView {
                            write_buf: old(self)@.write_buf + entry.bytes(),
                            ..old(self)@
                        })
                    },
                    Err(error) => {
                        &&& append_error(entry) == Some(error)
                        &&& final(self)@ == old(self)@
                    },
                }
            }),
    {
        if op != OP_SET && op != OP_DELETE {
            return Err(WalError::UnknownOp);
        }
        if key.len() == 0 {
            return Err(WalError::EmptyKey);
        }
        if op == OP_DELETE && value.len() > 0 {
            return Err(WalError::DeleteWithValue);
        }
        let total_len = HEADER_LEN + key.len() + value.len() + CRC_LEN;
        let crc = crc_hash(op, key, value);
        self.write_buf.push(op);
        push_u32_le(&mut self.write_buf, len_u32(key.len()));
        push_u32_le(&mut self.write_buf, len_u32(value.len()));
        push_bytes(&mut self.write_buf, key);
        push_bytes(&mut self.write_buf, value);
        push_u32_le(&mut self.write_buf, crc);
        assert(self@.write_buf =~= old(self)@.write_buf + (Entry {
            op,
            key: key@,
            value: value@,
        }).bytes());
        Ok(StagedEntry { len: total_len as u64 })
    }

    /// The bytes that wait to be written to the file.
    pub fn write_buf(&self) -> (bytes: &[u8])
        ensures
            bytes@ == self@.write_buf,
    {
        self.write_buf.as_slice()
    }

    /// Counts an entry whose bytes have reached the file, and gives the offset that
    /// it starts at.
    pub fn confirm(&mut self, entry: StagedEntry) -> (offset: u64)
        requires
            old(self)@.file_len + entry.spec_len() <= u64::MAX,
            old(self)@.entry_count < u64::MAX,
        ensures
            offset == old(self)@.file_len,
            final(self)@ == (WalView {
                file_len: old(self)@.file_len + entry.spec_len(),
                entry_count: old(self)@.entry_count + 1,
                write_buf: Seq::empty(),
            }),
    {
        let offset = self.file_len;
        self.write_buf.clear();
        self.file_len += entry.len;
        self.entry_count += 1;
        assert(self@.write_buf =~= Seq::empty());
        offset
    }

    /// Takes the bytes that could not be written out of the write buffer. The file holds
    /// nothing of them once it is cut back to the offset of the next entry.
    pub fn discard(&mut self)
        ensures
            final(self)@ == (WalView { write_buf: Seq::empty(), ..old(self)@ }),
    {
        self.write_buf.clear();
        assert(self@.write_buf =~= Seq::empty());
    }

    /// The offset that the next entry starts at.
    pub fn next_offset(&self) -> (offset: u64)
        ensures
            offset == self@.file_len,
    {
        self.file_len
    }

    /// The number of entries of the log.
    pub fn entry_count(&self) -> (count: u64)
        ensures
            count == self@.entry_count,
    {
        self.entry_count
    }

    /// The number of bytes that the entries of the log take in its file.
    pub fn size_on_disk(&self) -> (size: u64)
        ensures
            size == self@.file_len,
    {
        self.file_len
    }
}

} // verus!
