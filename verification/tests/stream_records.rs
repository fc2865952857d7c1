use proxmox_yew_comp::stream::{record_text, RecordError, RecordReader, RecordStep};

fn next(r: &mut RecordReader) -> Option<Vec<u8>> {
    match r.next_record() {
        RecordStep::Record(v) => Some(v),
        RecordStep::NeedMore => None,
        RecordStep::End => Some(b"<end>".to_vec()),
    }
}

#[test]
fn records_are_split_at_separators() {
    let mut r = RecordReader::new();
    r.push_chunk(b"{\"a\":1}\x1e\x1e{\"b\"");
    assert_eq!(next(&mut r), Some(b"{\"a\":1}".to_vec()));
    assert_eq!(next(&mut r), None);
    r.push_chunk(b":2}\x1e");
    assert_eq!(next(&mut r), Some(b"{\"b\":2}".to_vec()));
    assert_eq!(next(&mut r), None);
    r.finish();
    assert_eq!(next(&mut r), Some(b"<end>".to_vec()));
}

#[test]
fn last_record_without_separator_loses_its_last_byte() {
    let mut r = RecordReader::new();
    r.push_chunk(b"abc");
    r.finish();
    assert_eq!(next(&mut r), Some(b"ab".to_vec()));
    assert_eq!(next(&mut r), Some(b"<end>".to_vec()));
    let mut r = RecordReader::new();
    r.push_chunk(b"x");
    r.finish();
    assert_eq!(next(&mut r), Some(b"<end>".to_vec()));
}

#[test]
fn record_texts() {
    assert_eq!(record_text(b"  {\"x\":1}\n"), Ok(Some("{\"x\":1}".to_string())));
    assert_eq!(record_text(b" \n\t"), Ok(None));
    assert_eq!(record_text(&[0xff, 0xfe]), Err(RecordError::NotUtf8));
    assert_eq!(record_text("äöü".as_bytes()), Ok(Some("äöü".to_string())));
}
