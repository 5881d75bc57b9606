use nago_rustls::inbox::Inbox;

#[test]
fn an_inbox_is_a_queue_of_bytes() {
    let mut inbox = Inbox::new();
    assert!(inbox.is_empty());
    inbox.push(vec![1u8, 2, 3]);
    inbox.push(Vec::new());
    inbox.push(vec![4u8]);
    let mut buffer = [9u8; 2];
    assert_eq!(inbox.take(&mut buffer), 2);
    assert_eq!(buffer, [1u8, 2]);
    inbox.push(vec![5u8]);
    assert!(!inbox.is_empty());
    let mut buffer = [9u8; 4];
    assert_eq!(inbox.take(&mut buffer), 3);
    assert_eq!(buffer, [3u8, 4, 5, 9]);
    assert!(inbox.is_empty());
    assert_eq!(inbox.take(&mut buffer), 0);
    assert_eq!(buffer, [3u8, 4, 5, 9]);
}
