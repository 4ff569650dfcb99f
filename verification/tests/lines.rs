use corpy::source::Vertical;
use corpy::split::split_into_lines;

#[test]
fn it_works() {
    assert_eq!(2 + 2, 4);
}

#[test]
fn split_strips_terminating_newlines() {
    let lines = split_into_lines("hello\nworld\n");
    assert_eq!(lines, vec!["hello".to_string(), "world".to_string()]);
}

#[test]
fn split_empty_text_has_no_lines() {
    let lines = split_into_lines("");
    assert!(lines.is_empty());
}

#[test]
fn split_lone_newline_is_one_empty_line() {
    let lines = split_into_lines("\n");
    assert_eq!(lines, vec!["".to_string()]);
}

#[test]
fn split_keeps_unterminated_last_line() {
    let lines = split_into_lines("a\nb");
    assert_eq!(lines, vec!["a".to_string(), "b".to_string()]);
}

#[test]
fn split_consecutive_newlines_give_empty_line() {
    let lines = split_into_lines("a\n\nbb\n");
    assert_eq!(lines, vec!["a".to_string(), "".to_string(), "bb".to_string()]);
}

#[test]
fn source_yields_lines_then_nothing() {
    let mut v = Vertical::new("hello\nworld\n");
    assert_eq!(v.next_line(), Some(Ok("hello".to_string())));
    assert_eq!(v.next_line(), Some(Ok("world".to_string())));
    assert_eq!(v.next_line(), None);
    assert_eq!(v.next_line(), None);
    assert_eq!(v.next_line(), None);
}

#[test]
fn source_yields_zero_length_line() {
    let mut v = Vertical::new("a\n\nbb\n");
    assert_eq!(v.next_line(), Some(Ok("a".to_string())));
    let empty = v.next_line();
    assert_eq!(empty, Some(Ok("".to_string())));
    assert_eq!(empty.unwrap().unwrap().len(), 0);
    assert_eq!(v.next_line(), Some(Ok("bb".to_string())));
    assert_eq!(v.next_line(), None);
}

#[test]
fn source_failure_exhausts_permanently() {
    let mut v = Vertical::from_events(vec![
        Ok("a".to_string()),
        Err("stream did not decode".to_string()),
        Ok("never reached".to_string()),
    ]);
    assert_eq!(v.next_line(), Some(Ok("a".to_string())));
    assert_eq!(v.next_line(), Some(Err("stream did not decode".to_string())));
    assert_eq!(v.next_line(), None);
    assert_eq!(v.next_line(), None);
}

#[test]
fn source_round_trip() {
    let lines = ["a", "", "bb"];
    let mut content = String::new();
    for line in lines {
        content.push_str(line);
        content.push('\n');
    }
    let mut v = Vertical::new(&content);
    let mut back: Vec<String> = Vec::new();
    while let Some(item) = v.next_line() {
        back.push(item.unwrap());
    }
    assert_eq!(back, vec!["a".to_string(), "".to_string(), "bb".to_string()]);
    assert_eq!(v.next_line(), None);
}
