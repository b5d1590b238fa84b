use soft_ascii_string::SoftAsciiStr;

const UTF8_STR: &str = "\u{2764} == <3";

#[test]
fn from_str() {
    assert_eq!(
        SoftAsciiStr::from_str("hy ho\x00\x01\x02\x03").unwrap().as_str(),
        "hy ho\x00\x01\x02\x03"
    );
    assert!(SoftAsciiStr::from_str("\u{2193}").is_err());
}

#[test]
fn from_str_unchecked() {
    assert_eq!(SoftAsciiStr::from_str_unchecked(UTF8_STR).as_str(), UTF8_STR);
}

#[test]
fn soft_str_revalidate_soft_constraint() {
    let res = SoftAsciiStr::from_str_unchecked(UTF8_STR).revalidate_soft_constraint();
    let err = match res {
        Ok(badres) => panic!("expected Err(..) got Ok({:?})", badres),
        Err(err) => err,
    };
    assert_eq!(UTF8_STR, err.into_source());

    let res = SoftAsciiStr::from_str_unchecked("hy").revalidate_soft_constraint();
    let res: SoftAsciiStr = match res {
        Ok(res) => res,
        Err(err) => panic!("expected Ok(..) got Err({:?})", err),
    };
    assert_eq!(res.as_str(), "hy");
}

#[test]
fn rejection_carries_borrowed_source() {
    let input = "caf\u{e9}";
    let err = SoftAsciiStr::from_str(input).unwrap_err();
    assert_eq!(*err.source(), input);
    assert_eq!(err.into_source(), input);
}

#[test]
fn length_queries() {
    let s = SoftAsciiStr::from_str("hy ho").unwrap();
    assert_eq!(s.len(), 5);
    assert!(!s.is_empty());
    assert!(SoftAsciiStr::from_str("").unwrap().is_empty());
    let mixed = SoftAsciiStr::from_str_unchecked("a\u{2193}");
    assert_eq!(mixed.len(), 4);
    assert_eq!(mixed.as_bytes(), "a\u{2193}".as_bytes());
}

#[test]
fn split_at_preserves_content() {
    let s = SoftAsciiStr::from_str("hello world").unwrap();
    let (left, right) = s.split_at(5);
    assert_eq!(left.as_str(), "hello");
    assert_eq!(right.as_str(), " world");
}

#[test]
fn slicing_preserves_content() {
    let s = SoftAsciiStr::from_str("hello world").unwrap();
    assert_eq!(s.index_range(2, 7).as_str(), &"hello world"[2..7]);
    assert_eq!(s.index_from(6).as_str(), &"hello world"[6..]);
    assert_eq!(s.index_to(5).as_str(), &"hello world"[..5]);
    assert_eq!(s.index_full().as_str(), "hello world");
    assert_eq!(s.index_range(3, 3).as_str(), "");
}

#[test]
fn slicing_inherits_mistag() {
    let s = SoftAsciiStr::from_str_unchecked("a\u{2764}b");
    let sliced = s.index_range(1, 4);
    assert_eq!(sliced.as_str(), "\u{2764}");
    assert!(!sliced.is_ascii());
}

#[test]
fn case_mapping() {
    let s = SoftAsciiStr::from_str("AbC dEf").unwrap();
    let lower = s.to_lowercase();
    let upper = s.to_uppercase();
    assert_eq!(lower.as_str(), "abc def");
    assert_eq!(upper.as_str(), "ABC DEF");
    assert!(lower.is_ascii());
    assert!(upper.is_ascii());
}

#[test]
fn repeat_collects() {
    let s = SoftAsciiStr::from_str("ab").unwrap();
    let repeated = s.repeat(3);
    assert_eq!(repeated.as_str(), "ababab");
    assert!(repeated.is_ascii());
    assert_eq!(s.repeat(0).as_str(), "");
}

#[test]
fn trimming() {
    let s = SoftAsciiStr::from_str("  hy ho\t ").unwrap();
    assert_eq!(s.trim().as_str(), "hy ho");
    assert_eq!(s.trim_left().as_str(), "hy ho\t ");
    assert_eq!(s.trim_right().as_str(), "  hy ho");
    let ws = SoftAsciiStr::from_str(" \t ").unwrap();
    assert_eq!(ws.trim().as_str(), "");
}

#[test]
fn chars_wrap_each_character() {
    let s = SoftAsciiStr::from_str("hy").unwrap();
    let chars = s.chars();
    assert_eq!(chars.len(), 2);
    assert_eq!(chars[0], 'h');
    assert_eq!(chars[1], 'y');
}

#[test]
fn char_indices_give_byte_offsets() {
    let s = SoftAsciiStr::from_str_unchecked("a\u{2193}b");
    let pairs = s.char_indices();
    assert_eq!(pairs.len(), 3);
    assert_eq!(pairs[0].0, 0);
    assert_eq!(pairs[0].1, 'a');
    assert_eq!(pairs[1].0, 1);
    assert_eq!(pairs[1].1, '\u{2193}');
    assert_eq!(pairs[2].0, 4);
    assert_eq!(pairs[2].1, 'b');
}

#[test]
fn default_is_empty_and_ascii() {
    let d: SoftAsciiStr = Default::default();
    assert_eq!(d.as_str(), "");
    assert!(d.is_ascii());
    assert!(d.is_empty());
}

#[test]
fn boundary_query_matches_str() {
    let s = SoftAsciiStr::from_str_unchecked("a\u{2193}");
    assert!(s.is_char_boundary(0));
    assert!(s.is_char_boundary(1));
    assert!(!s.is_char_boundary(2));
    assert!(!s.is_char_boundary(3));
    assert!(s.is_char_boundary(4));
}

#[test]
fn lines_split_like_str() {
    let s = SoftAsciiStr::from_str("one\ntwo\r\nthree\n").unwrap();
    let lines = s.lines();
    assert_eq!(lines.len(), 3);
    assert_eq!(lines[0].as_str(), "one");
    assert_eq!(lines[1].as_str(), "two");
    assert_eq!(lines[2].as_str(), "three");
    assert_eq!(SoftAsciiStr::from_str("").unwrap().lines().len(), 0);
    let no_terminator = SoftAsciiStr::from_str("tail\rkeep").unwrap();
    let lines = no_terminator.lines();
    assert_eq!(lines.len(), 1);
    assert_eq!(lines[0].as_str(), "tail\rkeep");
}

#[test]
fn split_whitespace_like_str() {
    let s = SoftAsciiStr::from_str("  hy \t ho  there ").unwrap();
    let words = s.split_whitespace();
    assert_eq!(words.len(), 3);
    assert_eq!(words[0].as_str(), "hy");
    assert_eq!(words[1].as_str(), "ho");
    assert_eq!(words[2].as_str(), "there");
    assert_eq!(SoftAsciiStr::from_str(" \t ").unwrap().split_whitespace().len(), 0);
    assert_eq!(SoftAsciiStr::from_str("").unwrap().split_whitespace().len(), 0);
}

#[test]
fn content_equality_helpers() {
    let s = SoftAsciiStr::from_str("hy ho").unwrap();
    assert!(s.eq_str("hy ho"));
    assert!(!s.eq_str("hy h"));
    assert!(!s.eq_str("hy hx"));
    let owned = s.to_soft_ascii_string();
    assert!(s.eq_soft_ascii_string(&owned));
    assert!(owned.eq_soft_ascii_str(&s));
    assert!(owned.eq_str("hy ho"));
    assert!(!owned.eq_str(""));
}

#[test]
fn owned_conversions() {
    let s = SoftAsciiStr::from_str("hy").unwrap();
    assert_eq!(s.to_soft_ascii_string().as_str(), "hy");
    assert_eq!(s.into_soft_ascii_string().as_str(), "hy");
}
