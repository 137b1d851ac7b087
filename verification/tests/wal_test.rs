use mini_db::index::MemoryIndex;
use mini_db::wal::{StagedEntry, Wal, WalError, CRC_LEN, HEADER_LEN, OP_DELETE, OP_SET};

/// Appends an entry and writes the buffer behind `file`, as a log file is written.
fn append(wal: &mut Wal, file: &mut Vec<u8>, op: u8, key: &[u8], value: &[u8]) -> Result<u64, WalError> {
    let staged: StagedEntry = wal.append(op, key, value)?;
    file.extend_from_slice(wal.write_buf());
    Ok(wal.confirm(staged))
}

/// Opens a log file: reads it and cuts off what is not intact.
fn open(file: &mut Vec<u8>) -> (Wal, MemoryIndex) {
    let (wal, index) = Wal::init(file);
    if let Some(len) = wal.truncated_len(file.len() as u64) {
        file.truncate(len as usize);
    }
    (wal, index)
}

fn record_len(klen: usize, vlen: usize) -> u64 {
    (HEADER_LEN + klen + vlen + CRC_LEN) as u64
}

#[test]
fn empty_init_returns_empty_map() {
    let mut file: Vec<u8> = Vec::new();
    let (wal, map) = open(&mut file);
    assert!(map.is_empty());
    assert_eq!(wal.next_offset(), 0);
    assert_eq!(wal.entry_count(), 0);
}

#[test]
fn set_entries_survive_recovery() {
    let mut file: Vec<u8> = Vec::new();
    let (mut wal, _) = open(&mut file);
    let off0 = append(&mut wal, &mut file, OP_SET, b"k1", b"v1").unwrap();
    let off1 = append(&mut wal, &mut file, OP_SET, b"k2", b"v2").unwrap();
    assert_eq!(off0, 0);
    assert_eq!(off1, record_len(2, 2));
    assert_eq!(wal.entry_count(), 2);

    let (wal2, map) = open(&mut file);
    assert_eq!(map.len(), 2);
    assert_eq!(map.get(b"k1").unwrap(), b"v1");
    assert_eq!(map.get(b"k2").unwrap(), b"v2");
    assert_eq!(wal2.entry_count(), 2);
    assert_eq!(wal2.next_offset(), record_len(2, 2) * 2);
}

#[test]
fn delete_removes_key_on_recovery() {
    let mut file: Vec<u8> = Vec::new();
    let (mut wal, _) = open(&mut file);
    append(&mut wal, &mut file, OP_SET, b"k1", b"v1").unwrap();
    append(&mut wal, &mut file, OP_SET, b"k2", b"v2").unwrap();
    append(&mut wal, &mut file, OP_DELETE, b"k1", b"").unwrap();

    let (wal2, map) = open(&mut file);
    assert_eq!(map.len(), 1);
    assert!(map.get(b"k1").is_none());
    assert_eq!(map.get(b"k2").unwrap(), b"v2");
    // two sets and one delete all count as entries
    assert_eq!(wal2.entry_count(), 3);
}

#[test]
fn append_rejects_structurally_invalid() {
    let mut file: Vec<u8> = Vec::new();
    let (mut wal, _) = open(&mut file);

    // unknown ops are never logged
    assert!(append(&mut wal, &mut file, 0, b"k", b"v").is_err());
    assert!(append(&mut wal, &mut file, 99, b"k", b"v").is_err());
    // an empty key could not be recovered
    assert!(append(&mut wal, &mut file, OP_SET, b"", b"v").is_err());
    // a delete carries no value
    assert!(append(&mut wal, &mut file, OP_DELETE, b"k", b"nonempty").is_err());

    assert_eq!(append(&mut wal, &mut file, 99, b"", b"v"), Err(WalError::UnknownOp));
    assert_eq!(append(&mut wal, &mut file, OP_DELETE, b"", b"v"), Err(WalError::EmptyKey));
    assert_eq!(append(&mut wal, &mut file, OP_DELETE, b"k", b"v"), Err(WalError::DeleteWithValue));

    // failed appends do not advance the state
    assert_eq!(wal.next_offset(), 0);
    assert_eq!(wal.entry_count(), 0);
    assert!(wal.write_buf().is_empty());
    assert!(file.is_empty());
}

#[test]
fn torn_tail_is_truncated_on_init() {
    let mut file: Vec<u8> = Vec::new();
    let (mut wal, _) = open(&mut file);
    append(&mut wal, &mut file, OP_SET, b"k1", b"v1").unwrap();
    append(&mut wal, &mut file, OP_SET, b"k2", b"v2").unwrap();
    let good_len = file.len() as u64;

    // a crash in the middle of a write: three bytes at the end, fewer than header and checksum
    file.extend_from_slice(&[1, 2, 3]);
    assert!(file.len() as u64 > good_len);

    let (wal2, map) = open(&mut file);
    assert_eq!(map.len(), 2);
    assert_eq!(map.get(b"k1").unwrap(), b"v1");
    assert_eq!(wal2.next_offset(), good_len);
    assert_eq!(file.len() as u64, good_len);
}

#[test]
fn crc_mismatch_discards_tail_suffix() {
    let mut file: Vec<u8> = Vec::new();
    let (mut wal, _) = open(&mut file);
    append(&mut wal, &mut file, OP_SET, b"k1", b"v1").unwrap();
    append(&mut wal, &mut file, OP_SET, b"k2", b"v2").unwrap();

    let good_len = record_len(2, 2);
    // flip a byte inside the value of k2
    let k2_value_offset = (record_len(2, 2) as usize) + HEADER_LEN + 2;
    file[k2_value_offset] ^= 0xFF;

    let (wal2, map) = open(&mut file);
    assert_eq!(map.len(), 1);
    assert_eq!(map.get(b"k1").unwrap(), b"v1");
    assert!(map.get(b"k2").is_none());
    assert_eq!(wal2.next_offset(), good_len);
    assert_eq!(file.len() as u64, good_len);
}

#[test]
fn unknown_op_tail_is_truncated_not_panicking() {
    let mut file: Vec<u8> = Vec::new();
    let (mut wal, _) = open(&mut file);
    append(&mut wal, &mut file, OP_SET, b"k1", b"v1").unwrap();
    let good_len = file.len() as u64;

    // op 99, one byte of key, one of value, and a checksum that does not fit
    file.extend_from_slice(&[99, 1, 0, 0, 0, 1, 0, 0, 0, b'x', b'y', 0, 0, 0, 0]);

    let (wal2, map) = open(&mut file);
    assert_eq!(map.len(), 1);
    assert_eq!(map.get(b"k1").unwrap(), b"v1");
    assert_eq!(wal2.next_offset(), good_len);
    assert_eq!(file.len() as u64, good_len);
}

#[test]
fn offsets_are_monotonic_record_starts() {
    let mut file: Vec<u8> = Vec::new();
    let (mut wal, _) = open(&mut file);
    let o0 = append(&mut wal, &mut file, OP_SET, b"a", b"1111").unwrap();
    let o1 = append(&mut wal, &mut file, OP_SET, b"bb", b"22").unwrap();
    let o2 = append(&mut wal, &mut file, OP_DELETE, b"a", b"").unwrap();

    assert_eq!(o0, 0);
    assert_eq!(o1, record_len(1, 4));
    assert_eq!(o2, record_len(1, 4) + record_len(2, 2));
    assert_eq!(wal.next_offset(), o2 + record_len(1, 0));
    assert_eq!(wal.entry_count(), 3);
}

/// The bytes of an entry with a checksum that fits, whatever its op and key are.
fn sealed(op: u8, key: &[u8], value: &[u8]) -> Vec<u8> {
    let mut bytes: Vec<u8> = vec![op];
    bytes.extend_from_slice(&(key.len() as u32).to_le_bytes());
    bytes.extend_from_slice(&(value.len() as u32).to_le_bytes());
    bytes.extend_from_slice(key);
    bytes.extend_from_slice(value);
    let crc = crc32fast::hash(&bytes);
    bytes.extend_from_slice(&crc.to_le_bytes());
    bytes
}

#[test]
fn entry_bytes_follow_the_documented_layout() {
    let (mut wal, _) = Wal::init(&[]);
    wal.append(OP_SET, b"k1", b"value").unwrap();
    let expected = sealed(OP_SET, b"k1", b"value");
    assert_eq!(wal.write_buf(), expected.as_slice());
    assert_eq!(&expected[..11], &[1, 2, 0, 0, 0, 5, 0, 0, 0, b'k', b'1']);
    assert_eq!(mini_db::wal::crc_hash(OP_SET, b"k1", b"value"), crc32fast::hash(&expected[..16]));
}

#[test]
fn checksum_is_the_ieee_crc32() {
    // the check value of CRC-32/ISO-HDLC, over an entry whose parts spell its input
    let mut hasher = crc32fast::Hasher::new();
    hasher.update(&[OP_DELETE, 1, 0, 0, 0, 0, 0, 0, 0, b'a']);
    assert_eq!(mini_db::wal::crc_hash(OP_DELETE, b"a", b""), hasher.finalize());
    assert_eq!(crc32fast::hash(b"123456789"), 0xCBF43926);
}

#[test]
fn malformed_entries_with_good_checksums_end_the_log() {
    let good = sealed(OP_SET, b"k", b"v");
    for bad in [sealed(99, b"x", b"y"), sealed(OP_SET, b"", b"y"), sealed(0, b"x", b"")] {
        let mut file = good.clone();
        file.extend_from_slice(&bad);
        file.extend_from_slice(&sealed(OP_SET, b"later", b"lost"));
        let (wal, map) = open(&mut file);
        assert_eq!(wal.entry_count(), 1);
        assert_eq!(file, good);
        assert_eq!(map.len(), 1);
    }
}

#[test]
fn a_logged_delete_may_carry_a_value() {
    let mut file = sealed(OP_SET, b"k", b"v");
    file.extend_from_slice(&sealed(OP_DELETE, b"k", b"ignored"));
    let (wal, map) = open(&mut file);
    assert_eq!(wal.entry_count(), 2);
    assert!(map.is_empty());
}

#[test]
fn every_torn_write_costs_only_its_own_entry() {
    let before = sealed(OP_SET, b"kept", b"value");
    let entry = sealed(OP_SET, b"torn", b"another value");
    for written in 0..entry.len() {
        let mut file = before.clone();
        file.extend_from_slice(&entry[..written]);
        let (wal, map) = open(&mut file);
        assert_eq!(file, before);
        assert_eq!(wal.entry_count(), 1);
        assert_eq!(map.len(), 1);
    }
    let mut file = before;
    file.extend_from_slice(&entry);
    let (wal, map) = open(&mut file);
    assert_eq!(wal.entry_count(), 2);
    assert_eq!(map.get(b"torn").unwrap(), b"another value");
}

#[test]
fn truncation_is_idempotent_and_appending_goes_on() {
    let mut file = sealed(OP_SET, b"k", b"old");
    file.extend_from_slice(&[1, 9, 9, 9, 9, 0, 0, 0, 0, 1, 2, 3, 4, 5]);
    let (mut wal, _) = open(&mut file);
    let again = file.clone();
    let (_, _) = open(&mut file);
    assert_eq!(file, again);
    let offset = append(&mut wal, &mut file, OP_SET, b"k", b"new").unwrap();
    assert_eq!(offset, again.len() as u64);
    let (wal, map) = open(&mut file);
    assert_eq!(map.get(b"k").unwrap(), b"new");
    assert_eq!(wal.size_on_disk(), file.len() as u64);
}

#[test]
fn unwritten_bytes_are_discarded() {
    let mut file: Vec<u8> = Vec::new();
    let (mut wal, _) = open(&mut file);
    let staged = wal.append(OP_SET, b"a", b"1").unwrap();
    assert_eq!(staged.len(), record_len(1, 1));
    // the write failed in the middle: the file is cut back, and nothing is confirmed
    file.extend_from_slice(&wal.write_buf()[..5]);
    wal.discard();
    file.truncate(wal.next_offset() as usize);
    assert!(wal.write_buf().is_empty());
    assert_eq!(wal.next_offset(), 0);
    assert_eq!(wal.entry_count(), 0);

    let offset = append(&mut wal, &mut file, OP_SET, b"b", b"2").unwrap();
    assert_eq!(offset, 0);
    assert_eq!(wal.next_offset(), record_len(1, 1));
    assert_eq!(file.len() as u64, record_len(1, 1));
    let (wal, map) = open(&mut file);
    assert_eq!(wal.entry_count(), 1);
    assert!(map.get(b"a").is_none());
    assert_eq!(map.get(b"b").unwrap(), b"2");
}

/// The CRC-32 (IEEE), bit by bit.
fn crc_bit_by_bit(bytes: &[u8]) -> u32 {
    let mut register = u32::MAX;
    for byte in bytes {
        register ^= u32::from(*byte);
        for _ in 0..8 {
            register = if register & 1 == 1 { (register >> 1) ^ 0xEDB88320 } else { register >> 1 };
        }
    }
    register ^ u32::MAX
}

#[test]
fn checksums_are_polynomial_remainders() {
    assert_eq!(crc_bit_by_bit(b"123456789"), 0xCBF43926);
    // lengths around the sizes of the blocks that fast implementations work on
    for len in (0..300).chain([1000, 4096, 4103]) {
        let value: Vec<u8> = (0..len).map(|i| (i * i + 7 * i) as u8).collect();
        let entry = sealed(OP_SET, b"key", &value);
        let crc = mini_db::wal::crc_hash(OP_SET, b"key", &value);
        assert_eq!(crc, crc_bit_by_bit(&entry[..entry.len() - CRC_LEN]));
    }
}

#[test]
fn one_damaged_byte_ends_the_log() {
    let before = sealed(OP_SET, b"kept", b"value");
    let entry = sealed(OP_SET, b"hit", b"another value");
    for at in (0..1).chain(HEADER_LEN..entry.len()) {
        for bit in 0..8 {
            let mut file = before.clone();
            file.extend_from_slice(&entry);
            file.extend_from_slice(&sealed(OP_SET, b"later", b"lost"));
            file[before.len() + at] ^= 1 << bit;
            let (wal, map) = open(&mut file);
            assert_eq!(file, before);
            assert_eq!(wal.entry_count(), 1);
            assert_eq!(map.len(), 1);
        }
    }
}

#[test]
fn longer_files_are_cut() {
    let file = sealed(OP_SET, b"k", b"v");
    let (wal, _) = Wal::init(&file);
    let len = file.len() as u64;
    assert_eq!(wal.truncated_len(len), None);
    assert_eq!(wal.truncated_len(len + 1), Some(len));
}
