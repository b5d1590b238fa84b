use soft_ascii_string::FromSourceError;
use soft_ascii_string::SoftAsciiChar;

#[test]
fn from_char() {
    let res: SoftAsciiChar = match SoftAsciiChar::from_char('a') {
        Ok(res) => res,
        Err(err) => panic!("expected Ok(..) got Err({:?})", err),
    };
    assert_eq!(res, 'a');
    let res = match SoftAsciiChar::from_char('\u{2193}') {
        Ok(badres) => panic!("expected Err(..) got Ok({:?})", badres),
        Err(err) => err,
    };
    assert_eq!(res, FromSourceError::new('\u{2193}'));
}

#[test]
fn from_char_unchecked() {
    let a: SoftAsciiChar = SoftAsciiChar::from_char_unchecked('a');
    assert_eq!(a, 'a');
    let a: SoftAsciiChar = SoftAsciiChar::from_char_unchecked('\u{2193}');
    assert_eq!(a, '\u{2193}');
}

#[test]
fn soft_char_revalidate_soft_constraint() {
    let a: SoftAsciiChar = SoftAsciiChar::from_char_unchecked('a');
    let val = match a.revalidate_soft_constraint() {
        Ok(res) => res,
        Err(err) => panic!("expected Ok(..) got Err({:?})", err),
    };
    assert_eq!(val, 'a');
    let a: SoftAsciiChar = SoftAsciiChar::from_char_unchecked('\u{2193}');
    let val = match a.revalidate_soft_constraint() {
        Ok(badres) => panic!("expected Err(..) got Ok({:?})", badres),
        Err(err) => err,
    };
    assert_eq!(val, '\u{2193}');
}

#[test]
fn rejected_char_is_recoverable() {
    let err = SoftAsciiChar::from_char('\u{2764}').unwrap_err();
    assert_eq!(*err.source(), '\u{2764}');
    assert_eq!(err.into_source(), '\u{2764}');
}

#[test]
fn is_ascii_queries() {
    assert!(SoftAsciiChar::from_char_unchecked('a').is_ascii());
    assert!(SoftAsciiChar::from_char_unchecked('\0').is_ascii());
    assert!(SoftAsciiChar::from_char_unchecked('\x7f').is_ascii());
    assert!(!SoftAsciiChar::from_char_unchecked('\u{80}').is_ascii());
    assert!(!SoftAsciiChar::from_char_unchecked('\u{2193}').is_ascii());
}

#[test]
fn default_char_is_nul() {
    let d: SoftAsciiChar = Default::default();
    assert_eq!(d, '\0');
    assert!(d.is_ascii());
}

#[test]
fn char_equality_is_symmetric() {
    let a = SoftAsciiChar::from_char_unchecked('x');
    assert!(a == 'x');
    assert!('x' == a);
    assert!(a != 'y');
    assert!('y' != a);
}

#[test]
fn to_char_round_trip() {
    assert_eq!(SoftAsciiChar::from_char_unchecked('q').to_char(), 'q');
    assert_eq!(SoftAsciiChar::from_char_unchecked('\u{2764}').to_char(), '\u{2764}');
}

#[test]
fn digits() {
    let seven = SoftAsciiChar::from_char_unchecked('7');
    assert_eq!(seven.to_digit(10), Some(7));
    assert!(seven.is_digit(10));
    assert_eq!(seven.to_digit(2), None);
    let b = SoftAsciiChar::from_char_unchecked('b');
    assert_eq!(b.to_digit(16), Some(11));
    let b_up = SoftAsciiChar::from_char_unchecked('B');
    assert_eq!(b_up.to_digit(16), Some(11));
    assert_eq!(b.to_digit(10), None);
    let z = SoftAsciiChar::from_char_unchecked('z');
    assert_eq!(z.to_digit(36), Some(35));
    let star = SoftAsciiChar::from_char_unchecked('*');
    assert_eq!(star.to_digit(36), None);
}

#[test]
fn encoding_lengths() {
    assert_eq!(SoftAsciiChar::from_char_unchecked('a').len_utf8(), 1);
    assert_eq!(SoftAsciiChar::from_char_unchecked('\u{df}').len_utf8(), 2);
    assert_eq!(SoftAsciiChar::from_char_unchecked('\u{2193}').len_utf8(), 3);
    assert_eq!(SoftAsciiChar::from_char_unchecked('\u{1f600}').len_utf8(), 4);
    assert_eq!(SoftAsciiChar::from_char_unchecked('a').len_utf16(), 1);
    assert_eq!(SoftAsciiChar::from_char_unchecked('\u{1f600}').len_utf16(), 2);
}

#[test]
fn classification_forwards() {
    assert!(SoftAsciiChar::from_char_unchecked(' ').is_whitespace());
    assert!(SoftAsciiChar::from_char_unchecked('\t').is_whitespace());
    assert!(!SoftAsciiChar::from_char_unchecked('a').is_whitespace());
    assert!(SoftAsciiChar::from_char_unchecked('a').is_alphabetic());
    assert!(!SoftAsciiChar::from_char_unchecked('1').is_alphabetic());
    assert!(SoftAsciiChar::from_char_unchecked('1').is_numeric());
    assert!(!SoftAsciiChar::from_char_unchecked('a').is_numeric());
    assert!(SoftAsciiChar::from_char_unchecked('a').is_alphanumeric());
    assert!(SoftAsciiChar::from_char_unchecked('1').is_alphanumeric());
    assert!(!SoftAsciiChar::from_char_unchecked('*').is_alphanumeric());
    assert!(SoftAsciiChar::from_char_unchecked('a').is_lowercase());
    assert!(!SoftAsciiChar::from_char_unchecked('A').is_lowercase());
    assert!(SoftAsciiChar::from_char_unchecked('A').is_uppercase());
    assert!(!SoftAsciiChar::from_char_unchecked('a').is_uppercase());
    assert!(SoftAsciiChar::from_char_unchecked('\x01').is_control());
    assert!(SoftAsciiChar::from_char_unchecked('\x7f').is_control());
    assert!(!SoftAsciiChar::from_char_unchecked('a').is_control());
}
