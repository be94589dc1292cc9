use museum_solver::{frame, unframe, HEADER_SIZE};

#[test]
fn frame_writes_header_content_and_padding() {
    let content = vec![b'a', b'b', b'c'];
    let framed = frame(&content, 12);
    assert_eq!(framed, vec![0, 0, 0, 3, b'a', b'b', b'c', 0, 0, 0, 0, 0]);
    assert_eq!(HEADER_SIZE, 4);
}

#[test]
fn header_is_big_endian() {
    let content: Vec<u8> = (0..=255u8).cycle().take(0x0102).collect();
    let framed = frame(&content, 0x0102 + 4);
    assert_eq!(&framed[..4], &[0, 0, 1, 2]);
    assert_eq!(unframe(&framed), content);
}

#[test]
fn unframe_reads_back_the_payload() {
    let content = vec![9, 8, 7, 6, 5];
    assert_eq!(unframe(&frame(&content, 16)), content);
    assert_eq!(unframe(&frame(&vec![], 4)), Vec::<u8>::new());
}

#[test]
fn unframe_stops_at_the_end_of_the_data() {
    assert_eq!(unframe(&vec![0, 0, 0, 9, 1, 2]), vec![1, 2]);
    assert_eq!(unframe(&vec![255, 255, 255, 255]), Vec::<u8>::new());
}
