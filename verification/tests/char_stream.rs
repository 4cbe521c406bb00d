use sudo_rs::sudoers::char_stream::{advance, CharStream};

#[test]
fn test_iter() {
    let mut stream = CharStream::new("12\n3\n");
    assert_eq!(stream.peek(), Some('1'));
    assert!(stream.eat_char('1'));
    assert_eq!(stream.peek(), Some('2'));
    assert!(stream.eat_char('2'));
    assert!(stream.eat_char('\n'));
    assert_eq!(stream.peek(), Some('3'));
    assert!(stream.eat_char('3'));
    assert_eq!(stream.get_pos(), (2, 2));
}

#[test]
fn char_stream_next_if_and_skip() {
    let mut stream = CharStream::new_with_pos("ab c\nd", (3, 5));
    assert_eq!(stream.next_if(|c| c == 'a'), Some('a'));
    assert_eq!(stream.next_if(|c| c == 'x'), None);
    assert_eq!(stream.get_pos(), (3, 6));
    stream.skip_to_newline();
    assert_eq!(stream.peek(), Some('\n'));
    assert_eq!(stream.get_pos(), (3, 9));
    assert!(!stream.eat_char('d'));
    assert!(stream.eat_char('\n'));
    assert_eq!(stream.get_pos(), (4, 1));
    assert_eq!(advance((4, 1), 3), (4, 4));
}
