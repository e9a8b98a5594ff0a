use p4_stream::parsers::py_dict::{P4PyDictParseError, P4PyDictParser};
use p4_stream::parsers::ztag::{P4ZtagParseError, P4ZtagParser};
use p4_stream::parsers::P4KeyValuePair;

fn kvp(dict_index: u32, key: &str, value: &str) -> P4KeyValuePair {
    P4KeyValuePair { dict_index, key: key.to_string(), value: value.to_string() }
}

// One length-prefixed string token of the binary wire format.
fn tok(s: &[u8]) -> Vec<u8> {
    let mut out = vec![b's'];
    out.extend_from_slice(&(s.len() as u32).to_le_bytes());
    out.extend_from_slice(s);
    out
}

// One binary record holding the given key-value pairs.
fn record(pairs: &[(&[u8], &[u8])]) -> Vec<u8> {
    let mut out = vec![b'{'];
    for (k, v) in pairs {
        out.extend_from_slice(&tok(k));
        out.extend_from_slice(&tok(v));
    }
    out.push(b'0');
    out
}

#[test]
fn test_ztag_parsing() {
    let data = "\
        ... changeType public\n\
        ... change 12345\n\
        ... desc BLAHBLAH\n\
        BLAHBLAH\n\
        ... zambo aaa\n\
        ... zoop bbb\n\
        \n\
        ... desc WOOWOO\n\
        WOWWOW\n\
        ... desc SNASNA\n\
        ... desc SNASNA2\n";

    let expected = [
        ("changeType", "public", 0),
        ("change", "12345", 0),
        ("desc", "BLAHBLAH\nBLAHBLAH", 0),
        ("zambo", "aaa", 1),
        ("zoop", "bbb", 1),
        ("desc", "WOOWOO\nWOWWOW", 1),
        ("desc", "SNASNA", 2),
        ("desc", "SNASNA2", 3),
    ]
    .map(|(key, value, dict_index)| kvp(dict_index, key, value));

    let mut parser = P4ZtagParser::new(data.as_bytes().to_vec(), Some("desc"));

    let mut index = 0;
    while let Some(kvp) = parser.get_next_kvp().unwrap() {
        assert_eq!(kvp, expected[index], "Key-value pair mismatch at index {}", index);
        index += 1;
    }

    assert_eq!(index, expected.len(), "Not all key-value pairs were read");
}

#[test]
fn ztag_without_delimiter_reports_index_zero() {
    let data = b"... a 1\n... b 2\n\n... c 3\n".to_vec();
    let mut parser = P4ZtagParser::new(data, None);
    let mut count = 0;
    while let Some(kvp) = parser.get_next_kvp().unwrap() {
        assert_eq!(kvp.dict_index, 0);
        count += 1;
    }
    assert_eq!(count, 3);
}

#[test]
fn ztag_multiline_round_trip() {
    // Joining continuation lines with \n and stripping only the final
    // terminator reproduces the original multi-line text.
    let data = b"... desc A\nB\nC\n... zoop x\n".to_vec();
    let mut parser = P4ZtagParser::new(data, Some("desc"));
    let first = parser.get_next_kvp().unwrap().unwrap();
    assert_eq!(first, kvp(0, "desc", "A\nB\nC"));
    let second = parser.get_next_kvp().unwrap().unwrap();
    assert_eq!(second, kvp(1, "zoop", "x"));
    assert_eq!(parser.get_next_kvp().unwrap(), None);
}

#[test]
fn ztag_multiline_at_end_of_input() {
    let data = b"... desc X\ncontinued".to_vec();
    let mut parser = P4ZtagParser::new(data, Some("desc"));
    let first = parser.get_next_kvp().unwrap().unwrap();
    assert_eq!(first, kvp(0, "desc", "X\ncontinued"));
    assert_eq!(parser.get_next_kvp().unwrap(), None);
}

#[test]
fn ztag_crlf_terminator_stripped() {
    let data = b"... key value\r\n".to_vec();
    let mut parser = P4ZtagParser::new(data, None);
    assert_eq!(parser.get_next_kvp().unwrap().unwrap(), kvp(0, "key", "value"));
    assert_eq!(parser.get_next_kvp().unwrap(), None);
}

#[test]
fn ztag_malformed_line_is_fatal() {
    // A field line without a space separating key and value.
    let data = b"... keyonly\n".to_vec();
    let mut parser = P4ZtagParser::new(data, None);
    assert_eq!(parser.get_next_kvp(), Err(P4ZtagParseError::MalformedLine));
    // Errors are terminal; later pulls report exhaustion.
    assert_eq!(parser.get_next_kvp(), Ok(None));
}

#[test]
fn ztag_line_without_prefix_is_fatal() {
    let data = b"garbage line\n".to_vec();
    let mut parser = P4ZtagParser::new(data, None);
    assert_eq!(parser.get_next_kvp(), Err(P4ZtagParseError::MalformedLine));
}

#[test]
fn ztag_exhaustion_is_stable() {
    let data = b"... a 1\n".to_vec();
    let mut parser = P4ZtagParser::new(data, None);
    assert_eq!(parser.get_next_kvp().unwrap(), Some(kvp(0, "a", "1")));
    for _ in 0..4 {
        assert_eq!(parser.get_next_kvp(), Ok(None));
    }
}

#[test]
fn binary_single_record() {
    let data = record(&[(b"change", b"10"), (b"desc", b"Long yeet\n")]);
    let mut parser = P4PyDictParser::new(data);
    assert_eq!(parser.get_next_kvp().unwrap(), Some(kvp(0, "change", "10")));
    assert_eq!(parser.get_next_kvp().unwrap(), Some(kvp(0, "desc", "Long yeet\n")));
    assert_eq!(parser.get_next_kvp().unwrap(), None);
}

#[test]
fn binary_indices_count_records() {
    // Triple count equals the pair count over all records; the record index
    // starts at 0, never decreases, and steps by one per record.
    let mut data = record(&[(b"a", b"1"), (b"b", b"2")]);
    data.extend_from_slice(&record(&[]));
    data.extend_from_slice(&record(&[(b"c", b"3")]));
    let mut parser = P4PyDictParser::new(data);
    let mut seen = Vec::new();
    while let Some(kvp) = parser.get_next_kvp().unwrap() {
        seen.push((kvp.dict_index, kvp.key, kvp.value));
    }
    assert_eq!(
        seen,
        vec![
            (0, "a".to_string(), "1".to_string()),
            (0, "b".to_string(), "2".to_string()),
            (2, "c".to_string(), "3".to_string()),
        ]
    );
}

#[test]
fn binary_eof_at_record_boundary_is_clean() {
    // End of input where a record would begin is exhaustion, not an error.
    let mut parser = P4PyDictParser::new(Vec::new());
    assert_eq!(parser.get_next_kvp(), Ok(None));
    let data = record(&[(b"k", b"v")]);
    let mut parser = P4PyDictParser::new(data);
    assert_eq!(parser.get_next_kvp().unwrap(), Some(kvp(0, "k", "v")));
    for _ in 0..4 {
        assert_eq!(parser.get_next_kvp(), Ok(None));
    }
}

#[test]
fn binary_invalid_tag_carries_byte() {
    let data = vec![b'x'];
    let mut parser = P4PyDictParser::new(data);
    assert_eq!(parser.get_next_kvp(), Err(P4PyDictParseError::InvalidTag { tag: b'x' }));
    assert_eq!(parser.get_next_kvp(), Ok(None));
}

#[test]
fn binary_truncation_is_unexpected_eof() {
    // The stream ends inside a string body.
    let mut data = vec![b'{'];
    data.extend_from_slice(&[b's', 5, 0, 0, 0, b'a', b'b']);
    let mut parser = P4PyDictParser::new(data);
    assert_eq!(parser.get_next_kvp(), Err(P4PyDictParseError::UnexpectedEof));
    // The stream ends where a tag is required, inside a record.
    let mut parser = P4PyDictParser::new(vec![b'{']);
    assert_eq!(parser.get_next_kvp(), Err(P4PyDictParseError::UnexpectedEof));
}

#[test]
fn binary_non_utf8_is_fatal() {
    let data = record(&[(b"k", &[0xff, 0xfe])]);
    let mut parser = P4PyDictParser::new(data);
    assert_eq!(parser.get_next_kvp(), Err(P4PyDictParseError::InvalidUtf8));
}

#[test]
fn binary_multibyte_utf8_is_decoded() {
    let data = record(&[(b"k", "caf\u{e9}".as_bytes())]);
    let mut parser = P4PyDictParser::new(data);
    assert_eq!(parser.get_next_kvp().unwrap(), Some(kvp(0, "k", "caf\u{e9}")));
}
