use soft_ascii_string::SoftAsciiChar;
use soft_ascii_string::SoftAsciiStr;
use soft_ascii_string::SoftAsciiString;

const SOME_NOT_ASCII: &str = "malformed\u{2190}";
const SOME_ASCII: &str = "hy there";

#[test]
fn from_string_unchecked() {
    let sas = SoftAsciiString::from_string_unchecked(String::from(SOME_ASCII));
    assert_eq!(sas.as_str(), SOME_ASCII);
    let sas = SoftAsciiString::from_string_unchecked(String::from(SOME_NOT_ASCII));
    assert_eq!(sas.as_str(), SOME_NOT_ASCII);
}

#[test]
fn from_string() {
    let sas: SoftAsciiString = match SoftAsciiString::from_string(String::from(SOME_ASCII)) {
        Ok(res) => res,
        Err(err) => panic!("expected Ok(..) got Err({:?})", err),
    };
    assert_eq!(sas.as_str(), SOME_ASCII);
    let sas: SoftAsciiString = match SoftAsciiString::from_string(SOME_ASCII.to_owned()) {
        Ok(res) => res,
        Err(err) => panic!("expected Ok(..) got Err({:?})", err),
    };
    assert_eq!(sas.as_str(), SOME_ASCII);
    let failed: String = match SoftAsciiString::from_string(SOME_NOT_ASCII.to_owned()) {
        Ok(badres) => panic!("expected Err(..) got Ok({:?})", badres),
        Err(err) => err,
    };
    assert_eq!(&*failed, SOME_NOT_ASCII);
}

#[test]
fn borrow_str() {
    let sas = SoftAsciiString::from_string(String::from(SOME_ASCII));
    let sas = match sas {
        Ok(res) => res,
        Err(err) => panic!("expected Ok(..) got Err({:?})", err),
    };
    let borrowed: &String = sas.inner_string();
    assert_eq!(borrowed, &String::from(SOME_ASCII));
}

#[test]
fn as_ref_str() {
    let sas = SoftAsciiString::from_string(String::from(SOME_ASCII));
    let sas = match sas {
        Ok(res) => res,
        Err(err) => panic!("expected Ok(..) got Err({:?})", err),
    };
    let as_text: &str = sas.as_str();
    assert_eq!(as_text, SOME_ASCII);
}

#[test]
fn buffer() {
    let mut sas = match SoftAsciiString::from_string(String::from(SOME_ASCII)) {
        Ok(res) => res,
        Err(err) => panic!("expected Ok(..) got Err({:?})", err),
    };
    {
        let b: &String = sas.inner_string();
        assert_eq!(b, &String::from(SOME_ASCII));
    }
    {
        let b: &mut String = sas.inner_string_mut();
        assert_eq!(b, &mut String::from(SOME_ASCII));
    }
}

#[test]
fn soft_string_revalidate_soft_constraint() {
    let sas: SoftAsciiString = SoftAsciiString::from_string_unchecked(String::from(SOME_ASCII));
    assert!(sas.revalidate_soft_constraint().is_ok());

    let bad: SoftAsciiString = SoftAsciiString::from_string_unchecked(String::from(
        SOME_NOT_ASCII,
    ));
    let payload = bad.revalidate_soft_constraint().unwrap_err();
    assert_eq!(payload, String::from(SOME_NOT_ASCII));
}

#[test]
fn escape_hatch_never_validates() {
    let mut sas = SoftAsciiString::from_string(String::from("fine")).unwrap();
    assert!(sas.is_ascii());
    sas.inner_string_mut().push('\u{2190}');
    assert_eq!(sas.as_str(), "fine\u{2190}");
    assert!(!sas.is_ascii());
    assert!(sas.revalidate_soft_constraint().is_err());
}

#[test]
fn push_str_unchecked_carries_mistag() {
    let mut sas = SoftAsciiString::new();
    sas.push_str_unchecked("ok");
    assert!(sas.is_ascii());
    sas.push_str_unchecked("\u{2764}");
    assert_eq!(sas.as_str(), "ok\u{2764}");
    assert!(!sas.is_ascii());
}

#[test]
fn collect_chars() {
    let chars = vec![
        SoftAsciiChar::from_char('h').unwrap(),
        SoftAsciiChar::from_char('y').unwrap(),
    ];
    let sas = SoftAsciiString::from_chars(&chars);
    assert_eq!(sas.as_str(), "hy");
}

#[test]
fn extend_with_chars() {
    let mut sas = SoftAsciiString::from_string(String::from("ab")).unwrap();
    let more = vec![
        SoftAsciiChar::from_char('c').unwrap(),
        SoftAsciiChar::from_char('d').unwrap(),
    ];
    sas.extend_chars(&more);
    assert_eq!(sas.as_str(), "abcd");
}

#[test]
fn collect_slices() {
    let parts = vec![
        SoftAsciiStr::from_str("hy").unwrap(),
        SoftAsciiStr::from_str(" ").unwrap(),
        SoftAsciiStr::from_str("ho").unwrap(),
    ];
    let sas = SoftAsciiString::from_soft_ascii_strs(&parts);
    assert_eq!(sas.as_str(), "hy ho");
    let none: Vec<SoftAsciiStr> = vec![];
    assert_eq!(SoftAsciiString::from_soft_ascii_strs(&none).as_str(), "");
}

#[test]
fn push_and_pop() {
    let mut sas = SoftAsciiString::new();
    sas.push(SoftAsciiChar::from_char('a').unwrap());
    sas.push(SoftAsciiChar::from_char('b').unwrap());
    assert_eq!(sas.as_str(), "ab");
    assert_eq!(sas.pop().unwrap(), 'b');
    assert_eq!(sas.pop().unwrap(), 'a');
    assert!(sas.pop().is_none());
}

#[test]
fn insert_and_remove() {
    let mut sas = SoftAsciiString::from_string(String::from("ac")).unwrap();
    sas.insert(1, SoftAsciiChar::from_char('b').unwrap());
    assert_eq!(sas.as_str(), "abc");
    let removed = sas.remove(0);
    assert_eq!(removed, 'a');
    assert_eq!(sas.as_str(), "bc");
    let insert_me = SoftAsciiStr::from_str("xy").unwrap();
    sas.insert_soft_ascii_str(1, &insert_me);
    assert_eq!(sas.as_str(), "bxyc");
}

#[test]
fn push_slice_appends() {
    let mut sas = SoftAsciiString::from_string(String::from("hy")).unwrap();
    sas.push_soft_ascii_str(&SoftAsciiStr::from_str(" ho").unwrap());
    assert_eq!(sas.as_str(), "hy ho");
}

#[test]
fn split_off_cuts_in_two() {
    let mut sas = SoftAsciiString::from_string(String::from("hy ho")).unwrap();
    let tail = sas.split_off(2);
    assert_eq!(sas.as_str(), "hy");
    assert_eq!(tail.as_str(), " ho");
}

#[test]
fn truncate_clear_and_storage() {
    let mut sas = SoftAsciiString::from_string(String::from("hy ho")).unwrap();
    sas.truncate(2);
    assert_eq!(sas.as_str(), "hy");
    sas.truncate(10);
    assert_eq!(sas.as_str(), "hy");
    sas.reserve(100);
    assert_eq!(sas.as_str(), "hy");
    assert!(sas.capacity() >= sas.len());
    sas.reserve_exact(10);
    sas.shrink_to_fit();
    assert_eq!(sas.as_str(), "hy");
    sas.clear();
    assert_eq!(sas.as_str(), "");
    assert!(sas.is_empty());
}

#[test]
fn with_capacity_is_empty() {
    let sas = SoftAsciiString::with_capacity(32);
    assert!(sas.is_empty());
    assert!(sas.capacity() >= 32 || sas.capacity() >= sas.len());
}

#[test]
fn into_boxed_str_keeps_content() {
    let sas = SoftAsciiString::from_string(String::from("hy ho")).unwrap();
    let boxed: Box<str> = sas.into_boxed_str();
    assert_eq!(&*boxed, "hy ho");
}

#[test]
fn into_bytes_exposes_encoding() {
    let sas = SoftAsciiString::from_string(String::from("hy")).unwrap();
    assert_eq!(sas.into_bytes(), vec![b'h', b'y']);
    let bad = SoftAsciiString::from_string_unchecked(String::from("\u{2193}"));
    assert_eq!(bad.into_bytes(), "\u{2193}".as_bytes().to_vec());
}

#[test]
fn default_string_is_empty_and_ascii() {
    let sas: SoftAsciiString = Default::default();
    assert_eq!(sas.as_str(), "");
    assert!(sas.is_ascii());
    let sas = SoftAsciiString::new();
    assert_eq!(sas.as_str(), "");
    assert!(sas.is_ascii());
}

#[test]
fn string_slicing_preserves_content() {
    let sas = SoftAsciiString::from_string(String::from("hello world")).unwrap();
    assert_eq!(sas.index_range(2, 7).as_str(), &"hello world"[2..7]);
    assert_eq!(sas.index_from(6).as_str(), &"hello world"[6..]);
    assert_eq!(sas.index_to(5).as_str(), &"hello world"[..5]);
}

#[test]
fn borrowed_view_is_own_buffer() {
    let sas = SoftAsciiString::from_string(String::from("hy ho")).unwrap();
    let view: SoftAsciiStr = sas.as_soft_ascii_str();
    assert_eq!(view.as_str(), "hy ho");
    assert_eq!(sas.as_bytes(), "hy ho".as_bytes());
    assert_eq!(sas.len(), 5);
}
