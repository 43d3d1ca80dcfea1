use lafmt::string_buf::StringBuf;

#[test]
pub fn test_normal_buff_iter() {
    let query = "select * from kek;\n";

    let buff = StringBuf::new(&query);

    let result = buff.iter().next();
    assert_eq!(Some('s'), result);

    let result = buff.iter().fetch_to_delim(" ");
    assert_eq!(Some("select"), result);

    let result = buff.iter().curr();
    assert_eq!(Some('s'), result);

    let buff_iter = buff.iter();

    let _ = buff_iter.curr();
    let result = buff_iter.curr();
    assert_eq!(Some('s'), result);

    let mut buff_iter = buff.iter();
    let _ = buff_iter.next();
    let result = buff_iter.next();
    assert_eq!(Some('e'), result);

    let mut buff_iter = buff.iter_from(3);
    let result = buff_iter.next();
    assert_eq!(Some('e'), result);

    let mut buff_iter = buff.iter_from(3);
    let result = buff_iter.prev();
    assert_eq!(Some('l'), result);

    let mut buff_iter = buff.iter_from(3);
    let _ = buff_iter.prev();
    let result = buff_iter.curr();
    assert_eq!(Some('l'), result);

    let mut buff_iter = buff.iter_from(9);
    let result = buff_iter.fetch_to_delim(" ");
    assert_eq!(Some("from"), result);

    let mut buff_iter = buff.iter_from(0);
    let result = buff_iter.fetch_to_delim("\n");
    assert_eq!(Some("select * from kek;"), result);

    let mut buff_iter = buff.iter_from(0);
    while buff_iter.next().is_some() {}
    let result = buff_iter.curr();
    assert_eq!(None, result);
}

#[test]
pub fn test_empty_buff_iter() {
    let query = "";

    let buff = StringBuf::new(&query);

    let result = buff.iter().next();
    assert_eq!(None, result);

    let result = buff.iter().fetch_to_delim(" ");
    assert_eq!(None, result);

    let result = buff.iter().curr();
    assert_eq!(None, result);
}

#[test]
pub fn test_buf_hands_the_text_back() {
    let query = "select 1;";
    let buff = StringBuf::new(&query);
    assert_eq!(query, buff.buf());
}

#[test]
pub fn test_fetch_while_stops_at_first_failing_char() {
    let query = "abc_12.rest";
    let buff = StringBuf::new(&query);
    let mut it = buff.iter();
    let word = it.fetch_while(|ch| matches!(ch, 'A'..='Z' | 'a'..='z' | '0'..='9' | '_'));
    assert_eq!("abc_12", word);
    assert_eq!(Some('.'), it.curr());
}

#[test]
pub fn test_fetch_to_delim_missing_delimiter_consumes_all() {
    let query = "nothing here";
    let buff = StringBuf::new(&query);
    let mut it = buff.iter();
    let result = it.fetch_to_delim(";");
    assert_eq!(None, result);
    assert_eq!(None, it.curr());
}

#[test]
pub fn test_multibyte_characters_step_one_at_a_time() {
    let query = "héllo";
    let buff = StringBuf::new(&query);
    let mut it = buff.iter();
    assert_eq!(Some('h'), it.next());
    assert_eq!(Some('é'), it.next());
    assert_eq!(Some('l'), it.next());
    let mut back = buff.iter_from(2);
    assert_eq!(Some('é'), back.prev());
}
