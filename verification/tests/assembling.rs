use p4_stream::changes::P4ChangesIterator;
use p4_stream::describe::P4DescribeIterator;
use p4_stream::{parse_u32, parse_u64, split_indexed_key, P4AssembleError, P4Changelist, P4File};

// One length-prefixed string token of the binary wire format.
fn tok(s: &[u8]) -> Vec<u8> {
    let mut out = vec![b's'];
    out.extend_from_slice(&(s.len() as u32).to_le_bytes());
    out.extend_from_slice(s);
    out
}

// One binary record holding the given key-value pairs.
fn record(pairs: &[(&[u8], &[u8])]) -> Vec<u8> {
    let mut out = vec![b'{'];
    for (k, v) in pairs {
        out.extend_from_slice(&tok(k));
        out.extend_from_slice(&tok(v));
    }
    out.push(b'0');
    out
}

#[test]
fn assemble_single_changelist() {
    let data = record(&[
        (b"change", b"10"),
        (b"time", b"1743724741"),
        (b"user", b"david"),
        (b"desc", b"Long yeet\n"),
    ]);
    let mut iter = P4ChangesIterator::new_from_reader(data);
    let expected = P4Changelist {
        changelist: 10,
        time: 1743724741,
        user: "david".into(),
        description: "Long yeet\n".into(),
        files: vec![],
    };
    assert_eq!(iter.next().unwrap(), Some(expected));
    assert_eq!(iter.next().unwrap(), None);
    assert_eq!(iter.next().unwrap(), None);
}

#[test]
fn assemble_two_changelists() {
    let mut data = record(&[
        (b"change", b"10"),
        (b"time", b"100"),
        (b"user", b"alice"),
        (b"desc", b"first"),
    ]);
    data.extend_from_slice(&record(&[
        (b"change", b"9"),
        (b"time", b"90"),
        (b"user", b"bob"),
        (b"desc", b"second"),
    ]));
    let mut iter = P4ChangesIterator::new_from_reader(data);
    assert_eq!(iter.next().unwrap().unwrap().changelist, 10);
    assert_eq!(iter.next().unwrap().unwrap().changelist, 9);
    assert_eq!(iter.next().unwrap(), None);
}

#[test]
fn assemble_ignores_unknown_keys() {
    let data = record(&[
        (b"code", b"stat"),
        (b"change", b"7"),
        (b"time", b"70"),
        (b"user", b"u"),
        (b"desc", b"d"),
        (b"status", b"submitted"),
    ]);
    let mut iter = P4ChangesIterator::new_from_reader(data);
    let cl = iter.next().unwrap().unwrap();
    assert_eq!(cl.changelist, 7);
    assert_eq!(cl.description, "d");
}

#[test]
fn assemble_missing_field_fails() {
    // The record never carries a time, so finalizing it names that field.
    let data = record(&[(b"change", b"5"), (b"user", b"u"), (b"desc", b"d")]);
    let mut iter = P4ChangesIterator::new_from_reader(data);
    assert_eq!(iter.next(), Err(P4AssembleError::MissingField("Missing time")));
    // Errors are terminal.
    assert_eq!(iter.next(), Ok(None));
}

#[test]
fn assemble_conversion_failure_fails() {
    let data = record(&[(b"change", b"not-a-number")]);
    let mut iter = P4ChangesIterator::new_from_reader(data);
    assert_eq!(iter.next(), Err(P4AssembleError::Conversion));
    assert_eq!(iter.next(), Ok(None));
}

#[test]
fn assemble_empty_stream_yields_none() {
    let mut iter = P4ChangesIterator::new_from_reader(Vec::new());
    assert_eq!(iter.next(), Ok(None));
    assert_eq!(iter.next(), Ok(None));
}

#[test]
fn describe_header_and_files() {
    let data = record(&[
        (b"change", b"1015"),
        (b"time", b"1743724741"),
        (b"user", b"david"),
        (b"desc", b"big import\n"),
        (b"depotFile0", b"//depot/a.txt"),
        (b"action0", b"add"),
        (b"rev0", b"1"),
        (b"fileSize0", b"1015"),
        (b"digest0", b"a9e93320e1fc469228d707c9124c878c"),
        (b"depotFile1", b"//depot/b.txt"),
        (b"action1", b"edit"),
        (b"rev1", b"2"),
        (b"fileSize1", b"522"),
        (b"digest1", b"AC5A3215649DDD472B4A594A23C620BE"),
    ]);
    let mut iter = P4DescribeIterator::new_from_reader(data).unwrap();
    let cl = iter.get_changelist();
    assert_eq!(cl.changelist, 1015);
    assert_eq!(cl.user, "david");
    assert_eq!(cl.description, "big import\n");

    let expected0 = P4File {
        depot_path: "//depot/a.txt".into(),
        action: "add".into(),
        revision: 1,
        file_size: 1015,
        digest: [
            0xa9, 0xe9, 0x33, 0x20, 0xe1, 0xfc, 0x46, 0x92, 0x28, 0xd7, 0x07, 0xc9, 0x12, 0x4c,
            0x87, 0x8c,
        ],
    };
    let expected1 = P4File {
        depot_path: "//depot/b.txt".into(),
        action: "edit".into(),
        revision: 2,
        file_size: 522,
        digest: [
            0xac, 0x5a, 0x32, 0x15, 0x64, 0x9d, 0xdd, 0x47, 0x2b, 0x4a, 0x59, 0x4a, 0x23, 0xc6,
            0x20, 0xbe,
        ],
    };
    assert_eq!(iter.next().unwrap(), Some(expected0));
    assert_eq!(iter.next().unwrap(), Some(expected1));
    assert_eq!(iter.next().unwrap(), None);
    assert_eq!(iter.next().unwrap(), None);
}

#[test]
fn describe_missing_header_field_fails() {
    let data = record(&[(b"change", b"3"), (b"user", b"u"), (b"desc", b"d")]);
    assert_eq!(
        P4DescribeIterator::new_from_reader(data).err(),
        Some(P4AssembleError::MissingField("Missing time"))
    );
}

#[test]
fn describe_unexpected_key_shape_fails() {
    let data = record(&[
        (b"change", b"3"),
        (b"time", b"30"),
        (b"user", b"u"),
        (b"desc", b"d"),
        (b"depotFile0", b"//depot/a.txt"),
        (b"nodigits", b"x"),
    ]);
    let mut iter = P4DescribeIterator::new_from_reader(data).unwrap();
    assert_eq!(iter.next(), Err(P4AssembleError::UnexpectedKeyShape));
    assert_eq!(iter.next(), Ok(None));
}

#[test]
fn describe_bad_digest_fails() {
    let data = record(&[
        (b"change", b"3"),
        (b"time", b"30"),
        (b"user", b"u"),
        (b"desc", b"d"),
        (b"depotFile0", b"//depot/a.txt"),
        (b"digest0", b"zz"),
    ]);
    let mut iter = P4DescribeIterator::new_from_reader(data).unwrap();
    assert_eq!(iter.next(), Err(P4AssembleError::Conversion));
}

#[test]
fn describe_missing_file_field_fails() {
    let data = record(&[
        (b"change", b"3"),
        (b"time", b"30"),
        (b"user", b"u"),
        (b"desc", b"d"),
        (b"depotFile0", b"//depot/a.txt"),
    ]);
    let mut iter = P4DescribeIterator::new_from_reader(data).unwrap();
    assert_eq!(iter.next(), Err(P4AssembleError::MissingField("Missing action")));
}

#[test]
fn split_indexed_key_splits_base_and_suffix() {
    assert_eq!(split_indexed_key("depotFile0"), Some(("depotFile", 0)));
    assert_eq!(split_indexed_key("rev12"), Some(("rev", 12)));
    assert_eq!(split_indexed_key("digest"), None);
    // The suffix must be a plain decimal number that fits in 32 bits.
    assert_eq!(split_indexed_key("rev99999999999"), None);
}

#[test]
fn parse_decimal_values() {
    assert_eq!(parse_u32("12345"), Some(12345));
    assert_eq!(parse_u32("+7"), Some(7));
    assert_eq!(parse_u32(""), None);
    assert_eq!(parse_u32("12a"), None);
    assert_eq!(parse_u32("4294967295"), Some(u32::MAX));
    assert_eq!(parse_u32("4294967296"), None);
    assert_eq!(parse_u64("18446744073709551615"), Some(u64::MAX));
    assert_eq!(parse_u64("18446744073709551616"), None);
}
