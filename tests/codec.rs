use rotor_capnp::{
    read_segment_count, read_segment_table, read_segments, write_message, DecodeError,
    MessageWriter, ReaderOptions,
};

fn options(limit: Option<usize>) -> ReaderOptions {
    ReaderOptions { traversal_limit_in_words: limit, nesting_limit: 64 }
}

fn word(fill: u8) -> Vec<u8> {
    vec![fill; 8]
}

#[test]
fn segment_count_adds_one() {
    let mut buf = vec![5u8, 0, 0, 0, 9, 9];
    assert_eq!(read_segment_count(&mut buf), Ok(6));
    assert_eq!(buf, vec![9u8, 9]);
}

#[test]
fn segment_count_reads_little_endian() {
    let mut buf = vec![0xfeu8, 0x01, 0, 0];
    assert_eq!(read_segment_count(&mut buf), Ok(511));
    assert!(buf.is_empty());
}

#[test]
fn segment_count_zero_is_rejected() {
    let mut buf = vec![0xffu8, 0xff, 0xff, 0xff, 1];
    assert_eq!(read_segment_count(&mut buf), Err(DecodeError::TooFewSegments));
    assert_eq!(buf, vec![1u8]);
}

#[test]
fn segment_count_of_512_is_rejected() {
    let mut buf = vec![0xffu8, 0x01, 0, 0];
    assert_eq!(read_segment_count(&mut buf), Err(DecodeError::TooManySegments(512)));
    assert!(buf.is_empty());
}

#[test]
fn segment_count_of_600_is_rejected() {
    let mut buf = vec![0x57u8, 0x02, 0, 0, 7, 7, 7, 7];
    assert_eq!(read_segment_count(&mut buf), Err(DecodeError::TooManySegments(600)));
    assert_eq!(buf, vec![7u8, 7, 7, 7]);
}

#[test]
fn segment_table_with_padding() {
    let mut buf = vec![3u8, 0, 0, 0, 5, 0, 0, 0, 0, 0, 0, 0, 42];
    let (total, slices) = read_segment_table(&mut buf, 2, options(None)).unwrap();
    assert_eq!(total, 8);
    assert_eq!(slices, vec![(0usize, 3usize), (3, 8)]);
    assert_eq!(buf, vec![42u8]);
}

#[test]
fn segment_table_without_padding() {
    let mut buf = vec![2u8, 1, 0, 0, 42];
    let (total, slices) = read_segment_table(&mut buf, 1, options(Some(258))).unwrap();
    assert_eq!(total, 258);
    assert_eq!(slices, vec![(0usize, 258usize)]);
    assert_eq!(buf, vec![42u8]);
}

#[test]
fn segment_table_over_limit_is_rejected() {
    let mut buf = vec![3u8, 0, 0, 0, 5, 0, 0, 0, 0, 0, 0, 0, 42];
    assert_eq!(
        read_segment_table(&mut buf, 2, options(Some(7))),
        Err(DecodeError::TooLarge(8))
    );
    assert_eq!(buf, vec![42u8]);
}

#[test]
fn segment_table_at_limit_is_accepted() {
    let mut buf = vec![3u8, 0, 0, 0, 5, 0, 0, 0, 0, 0, 0, 0];
    assert!(read_segment_table(&mut buf, 2, options(Some(8))).is_ok());
}

#[test]
fn segments_are_looked_up_by_index() {
    let mut buf: Vec<u8> = Vec::new();
    buf.extend(word(1));
    buf.extend(word(2));
    buf.extend(word(3));
    buf.push(99);
    let message = read_segments(&mut buf, 3, vec![(0, 1), (1, 3)]);
    assert_eq!(buf, vec![99u8]);
    assert_eq!(message.segment_count(), 2);
    assert_eq!(message.get_segment(0).unwrap(), &word(1)[..]);
    let mut second = word(2);
    second.extend(word(3));
    assert_eq!(message.get_segment(1).unwrap(), &second[..]);
    assert!(message.get_segment(2).is_none());
}

#[test]
fn empty_segment_is_kept() {
    let mut buf = word(4);
    let message = read_segments(&mut buf, 1, vec![(0, 0), (0, 1)]);
    assert_eq!(message.get_segment(0).unwrap().len(), 0);
    assert_eq!(message.get_segment(1).unwrap(), &word(4)[..]);
}

#[test]
fn write_one_segment() {
    let mut out = vec![0xaau8];
    write_message(&mut out, &vec![word(7)]);
    let mut expected = vec![0xaau8, 0, 0, 0, 0, 1, 0, 0, 0];
    expected.extend(word(7));
    assert_eq!(out, expected);
}

#[test]
fn write_two_segments_pads_the_table() {
    let mut out: Vec<u8> = Vec::new();
    let mut first = word(1);
    first.extend(word(2));
    write_message(&mut out, &vec![first.clone(), word(3)]);
    let mut expected = vec![1u8, 0, 0, 0, 2, 0, 0, 0, 1, 0, 0, 0, 0, 0, 0, 0];
    expected.extend(first);
    expected.extend(word(3));
    assert_eq!(out, expected);
}

#[test]
fn write_large_word_count() {
    let mut out: Vec<u8> = Vec::new();
    let big = vec![0u8; 8 * 0x0102];
    write_message(&mut out, &vec![big]);
    assert_eq!(&out[..8], &[0u8, 0, 0, 0, 0x02, 0x01, 0, 0][..]);
    assert_eq!(out.len(), 8 + 8 * 0x0102);
}

#[test]
fn message_writer_appends() {
    let mut out: Vec<u8> = Vec::new();
    {
        let mut writer = MessageWriter(&mut out);
        writer.write(&vec![word(5)]);
        writer.write(&vec![word(6)]);
    }
    assert_eq!(out.len(), 32);
    assert_eq!(&out[8..16], &word(5)[..]);
    assert_eq!(&out[24..32], &word(6)[..]);
}

fn round_trip(segments: Vec<Vec<u8>>) {
    let mut buf: Vec<u8> = Vec::new();
    write_message(&mut buf, &segments);
    let count = read_segment_count(&mut buf).unwrap();
    assert_eq!(count, segments.len());
    let (total, slices) = read_segment_table(&mut buf, count, options(Some(1 << 20))).unwrap();
    assert_eq!(total * 8, segments.iter().map(|s| s.len()).sum::<usize>());
    assert_eq!(buf.len(), total * 8);
    let message = read_segments(&mut buf, total, slices);
    assert!(buf.is_empty());
    for (i, s) in segments.iter().enumerate() {
        assert_eq!(message.get_segment(i as u32).unwrap(), &s[..]);
    }
    assert!(message.get_segment(segments.len() as u32).is_none());
}

#[test]
fn round_trip_odd_and_even_counts() {
    round_trip(vec![word(1)]);
    round_trip(vec![word(1), vec![]]);
    let mut long = word(2);
    long.extend(word(3));
    round_trip(vec![word(1), long, word(4)]);
    round_trip((0..511u32).map(|i| word(i as u8)).collect());
}
