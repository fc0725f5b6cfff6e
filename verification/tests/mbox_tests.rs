use crabmail::mbox::MboxReader;

#[test]
fn test_simple() {
    let data = "From something\r\nmyemail\r\nmessage-id: 123\r\n\r\nFrom Another\r\n>From escape\r\n\r\n";
    let mut reader = MboxReader::from_reader(data.as_bytes().to_vec());
    assert_eq!(reader.next(), Some(b"myemail\r\nmessage-id: 123\r\n".to_vec()));
    assert_eq!(reader.next(), Some(b"From escape\r\n".to_vec()));
    assert_eq!(reader.next(), None);
}

#[test]
fn empty_mbox_yields_one_empty_record() {
    // the end of the data closes the record being read, empty or not
    let mut reader = MboxReader::from_reader(Vec::new());
    assert_eq!(reader.next(), Some(Vec::new()));
    assert_eq!(reader.next(), None);
    assert_eq!(reader.next(), None);
}

#[test]
fn unix_line_endings() {
    let data = "From a\nline one\n>>From two\n\nFrom b\nsecond\n";
    let mut reader = MboxReader::from_reader(data.as_bytes().to_vec());
    // only a line starting with ">From" loses its '>'; a bare blank line stays
    assert_eq!(reader.next(), Some(b"line one\n>>From two\n\n".to_vec()));
    assert_eq!(reader.next(), Some(b"second\n".to_vec()));
    assert_eq!(reader.next(), None);
}

#[test]
fn stored_messages_read_back() {
    let m1 = "Subject: one\r\n\r\nFrom the start\r\nbody\r\n";
    let m2 = "Subject: two\r\n\r\nsecond\r\n";
    // each line beginning with "From " is stored with a '>' in front
    let data = format!(
        "From a@x Thu Jan  1 00:00:00 1970\n{}\r\nFrom b@x Thu Jan  1 00:00:00 1970\n{}\r\nFrom c@x Thu Jan  1 00:00:00 1970\n",
        m1.replace("\r\nFrom ", "\r\n>From "),
        m2
    );
    let mut reader = MboxReader::from_reader(data.into_bytes());
    assert_eq!(reader.next(), Some(m1.as_bytes().to_vec()));
    assert_eq!(reader.next(), Some(m2.as_bytes().to_vec()));
    assert_eq!(reader.next(), Some(Vec::new()));
    assert_eq!(reader.next(), None);
}
