use sourisdb::cursor::Cursor;

#[test]
fn cursor_reads_in_order() {
    let data = vec![1u8, 2, 3, 4];
    let mut c = Cursor::new(&data).unwrap();
    assert_eq!(c.read(2), Some(&[1u8, 2][..]));
    assert_eq!(c.next(), Some(3));
    assert_eq!(c.peek(), Some(4));
    assert_eq!(c.read(2), None);
    assert_eq!(c.remaining(), 1);
    assert!(c.seek(1));
    assert!(!c.seek(1));
    assert_eq!(c.next(), None);
}
