//! A borrowed text view with an "is US-ASCII" soft constraint.

use vstd::prelude::*;
use vstd::utf8::decode_utf8;
use vstd::utf8::decode_utf8_split;
use vstd::utf8::encode_utf8;
use vstd::utf8::encode_utf8_decode_utf8;
use vstd::utf8::encode_utf8_valid_utf8;
use vstd::utf8::is_ascii_chars;
use vstd::utf8::is_ascii_chars_concat;
use vstd::utf8::is_ascii_chars_encode_utf8;
use vstd::utf8::is_char_boundary_iff_not_is_continuation_byte;
use vstd::utf8::is_char_boundary_start_end_of_seq;
use vstd::utf8::valid_utf8_split;

use vstd::string::StrSliceExecFns;
use vstd::string::StringExecFns;

use crate::error::FromSourceError;
use crate::soft_char::whitespace_char;
use crate::soft_char::SoftAsciiChar;
use crate::soft_string::SoftAsciiString;

verus! {

/// The ASCII lowercase form of one character: `A`..=`Z` map down by one
/// case, every other character is unchanged.
pub open spec fn to_ascii_lower_char(c: char) -> char {
    if 'A' <= c <= 'Z' {
        ((c as u32) + 0x20) as char
    } else {
        c
    }
}

/// The ASCII uppercase form of one character: `a`..=`z` map up by one
/// case, every other character is unchanged.
pub open spec fn to_ascii_upper_char(c: char) -> char {
    if 'a' <= c <= 'z' {
        ((c as u32) - 0x20) as char
    } else {
        c
    }
}

/// The ASCII lowercase form of a character sequence.
pub open spec fn ascii_lowercase_seq(s: Seq<char>) -> Seq<char> {
    s.map_values(|c: char| to_ascii_lower_char(c))
}

/// The ASCII uppercase form of a character sequence.
pub open spec fn ascii_uppercase_seq(s: Seq<char>) -> Seq<char> {
    s.map_values(|c: char| to_ascii_upper_char(c))
}

/// The given sequence repeated `n` times.
pub open spec fn repeat_seq(s: Seq<char>, n: nat) -> Seq<char>
    decreases n,
{
    if n == 0 {
        Seq::empty()
    } else {
        repeat_seq(s, (n - 1) as nat) + s
    }
}

/// What `str::to_lowercase` returns.
pub uninterp spec fn lower_of(s: Seq<char>) -> Seq<char>;

/// What `str::to_uppercase` returns.
pub uninterp spec fn upper_of(s: Seq<char>) -> Seq<char>;

/// Relies on `str::to_lowercase`: the Unicode lowercase of a string
/// depends on its characters alone, and on ASCII input it is exactly the
/// ASCII lowercase mapping, since Unicode lowercases `A`..=`Z` to
/// `a`..=`z` and leaves the rest of the ASCII range unchanged.
#[verifier::external_body]
fn str_to_lowercase(s: &str) -> (r: String)
    ensures
        r@ == lower_of(s@),
        is_ascii_chars(s@) ==> r@ == ascii_lowercase_seq(s@),
{
    s.to_lowercase()
}

/// Relies on `str::to_uppercase`: the Unicode uppercase of a string
/// depends on its characters alone, and on ASCII input it is exactly the
/// ASCII uppercase mapping, since Unicode uppercases `a`..=`z` to
/// `A`..=`Z` and leaves the rest of the ASCII range unchanged.
#[verifier::external_body]
fn str_to_uppercase(s: &str) -> (r: String)
    ensures
        r@ == upper_of(s@),
        is_ascii_chars(s@) ==> r@ == ascii_uppercase_seq(s@),
{
    s.to_uppercase()
}

/// True when `r` is `s` without its leading whitespace: some suffix of
/// `s` that starts at the first non-whitespace character.
pub open spec fn is_left_trimmed_view(s: Seq<char>, r: Seq<char>) -> bool {
    exists|i: int|
        0 <= i <= s.len() && r =~= s.subrange(i, s.len() as int) && (forall|k: int|
            0 <= k < i ==> whitespace_char(#[trigger] s[k])) && (i < s.len()
            ==> !whitespace_char(s[i]))
}

/// True when `r` is `s` without its trailing whitespace: some prefix of
/// `s` that ends after the last non-whitespace character.
pub open spec fn is_right_trimmed_view(s: Seq<char>, r: Seq<char>) -> bool {
    exists|j: int|
        0 <= j <= s.len() && r =~= s.subrange(0, j) && (forall|k: int|
            j <= k < s.len() ==> whitespace_char(#[trigger] s[k])) && (j > 0
            ==> !whitespace_char(s[j - 1]))
}

/// True when `r` is `s` without its leading and trailing whitespace.
pub open spec fn is_trimmed_view(s: Seq<char>, r: Seq<char>) -> bool {
    exists|i: int, j: int|
        0 <= i <= j <= s.len() && r =~= s.subrange(i, j) && (forall|k: int|
            0 <= k < i ==> whitespace_char(#[trigger] s[k])) && (forall|k: int|
            j <= k < s.len() ==> whitespace_char(#[trigger] s[k])) && (i < j
            ==> !whitespace_char(s[i]) && !whitespace_char(s[j - 1]))
}

/// The index of the first newline in `s`, or the length of `s` when
/// there is none.
pub open spec fn find_newline(s: Seq<char>) -> int
    decreases s.len(),
{
    if s.len() == 0 {
        0
    } else if s[0] == '\n' {
        0
    } else {
        1 + find_newline(s.drop_first())
    }
}

/// `find_newline` returns exactly the first newline position.
pub proof fn lemma_find_newline_is(s: Seq<char>, i: int)
    requires
        0 <= i <= s.len(),
        forall|k: int| 0 <= k < i ==> #[trigger] s[k] != '\n',
        i < s.len() ==> s[i] == '\n',
    ensures
        find_newline(s) == i,
    decreases s.len(),
{
    if s.len() == 0 {
    } else if s[0] == '\n' {
        assert(i == 0);
    } else {
        assert(i >= 1);
        assert forall|k: int| 0 <= k < i - 1 implies #[trigger] s.drop_first()[k] != '\n' by {
            assert(s.drop_first()[k] == s[k + 1]);
        }
        if i - 1 < s.len() - 1 {
            assert(s.drop_first()[i - 1] == s[i]);
        }
        lemma_find_newline_is(s.drop_first(), i - 1);
    }
}

/// The index of the first non-whitespace character in `s`, or the length
/// of `s` when there is none.
pub open spec fn find_non_whitespace(s: Seq<char>) -> int
    decreases s.len(),
{
    if s.len() == 0 {
        0
    } else if !whitespace_char(s[0]) {
        0
    } else {
        1 + find_non_whitespace(s.drop_first())
    }
}

/// `find_non_whitespace` returns exactly the first non-whitespace
/// position.
pub proof fn lemma_find_non_whitespace_is(s: Seq<char>, i: int)
    requires
        0 <= i <= s.len(),
        forall|k: int| 0 <= k < i ==> whitespace_char(#[trigger] s[k]),
        i < s.len() ==> !whitespace_char(s[i]),
    ensures
        find_non_whitespace(s) == i,
    decreases s.len(),
{
    if s.len() == 0 {
    } else if !whitespace_char(s[0]) {
        assert(i == 0);
    } else {
        assert(i >= 1);
        assert forall|k: int| 0 <= k < i - 1 implies whitespace_char(
            #[trigger] s.drop_first()[k],
        ) by {
            assert(s.drop_first()[k] == s[k + 1]);
        }
        if i - 1 < s.len() - 1 {
            assert(s.drop_first()[i - 1] == s[i]);
        }
        lemma_find_non_whitespace_is(s.drop_first(), i - 1);
    }
}

/// The index of the first whitespace character in `s`, or the length of
/// `s` when there is none.
pub open spec fn find_whitespace(s: Seq<char>) -> int
    decreases s.len(),
{
    if s.len() == 0 {
        0
    } else if whitespace_char(s[0]) {
        0
    } else {
        1 + find_whitespace(s.drop_first())
    }
}

/// `find_whitespace` returns exactly the first whitespace position.
pub proof fn lemma_find_whitespace_is(s: Seq<char>, i: int)
    requires
        0 <= i <= s.len(),
        forall|k: int| 0 <= k < i ==> !whitespace_char(#[trigger] s[k]),
        i < s.len() ==> whitespace_char(s[i]),
    ensures
        find_whitespace(s) == i,
    decreases s.len(),
{
    if s.len() == 0 {
    } else if whitespace_char(s[0]) {
        assert(i == 0);
    } else {
        assert(i >= 1);
        assert forall|k: int| 0 <= k < i - 1 implies !whitespace_char(
            #[trigger] s.drop_first()[k],
        ) by {
            assert(s.drop_first()[k] == s[k + 1]);
        }
        if i - 1 < s.len() - 1 {
            assert(s.drop_first()[i - 1] == s[i]);
        }
        lemma_find_whitespace_is(s.drop_first(), i - 1);
    }
}

/// One line with its terminator already cut: a single trailing carriage
/// return is removed, as it belonged to a carriage-return line ending.
pub open spec fn strip_carriage_return(l: Seq<char>) -> Seq<char> {
    if l.len() > 0 && l.last() == '\r' {
        l.drop_last()
    } else {
        l
    }
}

/// The lines of a character sequence: pieces split at each newline, a
/// carriage return directly before a newline removed, and no final empty
/// piece for a trailing newline.
pub open spec fn lines_of(s: Seq<char>) -> Seq<Seq<char>>
    decreases s.len(),
{
    if s.len() == 0 {
        Seq::empty()
    } else {
        let i = find_newline(s);
        if 0 <= i < s.len() {
            seq![strip_carriage_return(s.subrange(0, i))] + lines_of(
                s.subrange(i + 1, s.len() as int),
            )
        } else {
            seq![s]
        }
    }
}

/// The whitespace-separated words of a character sequence, in order,
/// with no empty words.
pub open spec fn split_whitespace_of(s: Seq<char>) -> Seq<Seq<char>>
    decreases s.len(),
{
    let i = find_non_whitespace(s);
    if !(0 <= i < s.len()) {
        Seq::empty()
    } else {
        let t = s.subrange(i, s.len() as int);
        let j = find_whitespace(t);
        if 0 < j < t.len() {
            seq![t.subrange(0, j)] + split_whitespace_of(t.subrange(j, t.len() as int))
        } else {
            seq![t]
        }
    }
}

/// Compares two text slices by content: equal bytes mean equal views,
/// since UTF-8 encoding is injective.
fn str_content_eq(a: &str, b: &str) -> (r: bool)
    ensures
        r == (a@ == b@),
{
    proof {
        broadcast use vstd::slice::axiom_spec_len, encode_utf8_decode_utf8;

        assert(a@ =~= decode_utf8(encode_utf8(a@)));
        assert(b@ =~= decode_utf8(encode_utf8(b@)));
    }
    let ab = a.as_bytes();
    let bb = b.as_bytes();
    if ab.len() != bb.len() {
        return false;
    }
    let n = ab.len();
    let mut i: usize = 0;
    while i < n
        invariant
            n == ab@.len(),
            n == bb@.len(),
            i <= n,
            ab@ == encode_utf8(a@),
            bb@ == encode_utf8(b@),
            a@ == decode_utf8(encode_utf8(a@)),
            b@ == decode_utf8(encode_utf8(b@)),
            forall|k: int| 0 <= k < i ==> ab@[k] == bb@[k],
        decreases n - i,
    {
        if ab[i] != bb[i] {
            return false;
        }
        i += 1;
    }
    proof {
        assert(ab@ =~= bb@);
    }
    true
}

/// The UTF-8 encoding of a concatenation is the concatenation of the
/// encodings.
pub proof fn lemma_encode_utf8_concat(a: Seq<char>, b: Seq<char>)
    ensures
        encode_utf8(a + b) =~= encode_utf8(a) + encode_utf8(b),
    decreases a.len(),
{
    if a.len() == 0 {
        assert(a + b =~= b);
    } else {
        assert((a + b).drop_first() =~= a.drop_first() + b);
        lemma_encode_utf8_concat(a.drop_first(), b);
        assert((a + b)[0] == a[0]);
    }
}

/// Splitting the encoding of a character sequence at a character boundary
/// splits the sequence itself: whenever two sequences encode the two byte
/// halves, they concatenate to the original.
pub proof fn lemma_encoding_split(v: Seq<char>, l: Seq<char>, r: Seq<char>, mid: int)
    requires
        vstd::utf8::is_char_boundary(encode_utf8(v), mid),
        encode_utf8(l) =~= encode_utf8(v).subrange(0, mid),
        encode_utf8(r) =~= encode_utf8(v).subrange(mid, encode_utf8(v).len() as int),
    ensures
        v =~= l + r,
{
    broadcast use encode_utf8_valid_utf8, encode_utf8_decode_utf8, decode_utf8_split;

    let b = encode_utf8(v);
    assert(decode_utf8(b) =~= decode_utf8(b.subrange(0, mid)) + decode_utf8(
        b.subrange(mid, b.len() as int),
    ));
    assert(l =~= decode_utf8(encode_utf8(l)));
    assert(r =~= decode_utf8(encode_utf8(r)));
}

/// A borrowed, validly-encoded text view tagged with the soft constraint
/// that every scalar in it should be ASCII. It owns no storage: its
/// lifetime is tied to the buffer it borrows from. The tag is a carried
/// assumption, never enforced; only explicit revalidation re-scans.
#[derive(Debug, Clone, Copy, PartialEq, Eq, PartialOrd, Ord, Hash)]
pub struct SoftAsciiStr<'a> {
    inner: &'a str,
}

impl<'a> View for SoftAsciiStr<'a> {
    type V = Seq<char>;

    closed spec fn view(&self) -> Seq<char> {
        self.inner@
    }
}

impl<'a> SoftAsciiStr<'a> {
    /// The UTF-8 bytes that back the view.
    pub open spec fn spec_byte_view(&self) -> Seq<u8> {
        encode_utf8(self@)
    }

    /// Reinterprets a borrowed text buffer as a soft-tagged view with no
    /// scan and no copy; the caller asserts the soft constraint holds.
    pub fn from_str_unchecked(s: &'a str) -> (r: Self)
        ensures
            r@ == s@,
    {
        SoftAsciiStr { inner: s }
    }

    /// Scans `source`; on all-ASCII success reinterprets it without
    /// copying, on failure returns the error carrying the borrowed buffer.
    pub fn from_str(source: &'a str) -> (r: Result<Self, FromSourceError<&'a str>>)
        ensures
            is_ascii_chars(source@) ==> (r matches Ok(v) && v@ == source@),
            !is_ascii_chars(source@) ==> (r matches Err(e) && e.spec_source() == source),
    {
        if source.is_ascii() {
            Ok(SoftAsciiStr { inner: source })
        } else {
            Err(FromSourceError::new(source))
        }
    }

    /// Re-runs the scan that checks whether the soft constraint still
    /// holds of the current view.
    pub fn revalidate_soft_constraint(&self) -> (r: Result<Self, FromSourceError<&'a str>>)
        ensures
            is_ascii_chars(self@) ==> (r matches Ok(v) && v == *self),
            !is_ascii_chars(self@) ==> (r matches Err(e) && e.spec_source()@ == self@),
    {
        if self.inner.is_ascii() {
            Ok(*self)
        } else {
            Err(FromSourceError::new(self.inner))
        }
    }

    /// Exposes the underlying borrowed buffer read-only.
    pub fn as_str(&self) -> (r: &'a str)
        ensures
            r@ == self@,
    {
        self.inner
    }

    /// The length of the view in bytes.
    pub fn len(&self) -> (r: usize)
        ensures
            r == self.spec_byte_view().len() as usize,
    {
        self.inner.len()
    }

    /// True when the view holds no characters.
    pub fn is_empty(&self) -> (r: bool)
        ensures
            r == (self@.len() == 0),
    {
        self.inner.is_empty()
    }

    /// Re-checks every character of the view against the ASCII range.
    pub fn is_ascii(&self) -> (r: bool)
        ensures
            r == is_ascii_chars(self@),
    {
        self.inner.is_ascii()
    }

    /// The UTF-8 bytes that back the view.
    pub fn as_bytes(&self) -> (r: &'a [u8])
        ensures
            r@ == self.spec_byte_view(),
    {
        self.inner.as_bytes()
    }

    /// True when `index` is the first byte of a character or the end of
    /// the view.
    pub fn is_char_boundary(&self, index: usize) -> (r: bool)
        ensures
            r == vstd::utf8::is_char_boundary(self.spec_byte_view(), index as int),
    {
        self.inner.is_char_boundary(index)
    }

    /// Splits the view in two at the byte offset `mid`, both halves
    /// keeping the soft tag without re-validation.
    pub fn split_at(&self, mid: usize) -> (r: (SoftAsciiStr<'a>, SoftAsciiStr<'a>))
        requires
            vstd::utf8::is_char_boundary(self.spec_byte_view(), mid as int),
        ensures
            self@ =~= r.0@ + r.1@,
            r.0.spec_byte_view() =~= self.spec_byte_view().subrange(0, mid as int),
            r.1.spec_byte_view() =~= self.spec_byte_view().subrange(
                mid as int,
                self.spec_byte_view().len() as int,
            ),
    {
        let (left, right) = self.inner.split_at(mid);
        proof {
            lemma_encoding_split(self@, left@, right@, mid as int);
        }
        (SoftAsciiStr { inner: left }, SoftAsciiStr { inner: right })
    }

    /// The sub-view over the byte range `[from, to)`, tag preserved
    /// without re-validation: a sub-range of an ASCII view is still ASCII
    /// whenever the original tag was true, and inherits the mistag when it
    /// was not.
    pub fn index_range(&self, from: usize, to: usize) -> (r: SoftAsciiStr<'a>)
        requires
            from <= to,
            vstd::utf8::is_char_boundary(self.spec_byte_view(), from as int),
            vstd::utf8::is_char_boundary(self.spec_byte_view(), to as int),
        ensures
            r.spec_byte_view() =~= self.spec_byte_view().subrange(from as int, to as int),
            is_ascii_chars(self@) ==> r@ =~= self@.subrange(from as int, to as int),
    {
        let ghost b = self.spec_byte_view();
        proof {
            encode_utf8_valid_utf8(self@);
            assert(to <= b.len());
        }
        let (head, rest) = self.split_at(from);
        proof {
            let rb = rest.spec_byte_view();
            assert(rb =~= b.subrange(from as int, b.len() as int));
            valid_utf8_split(b, from as int);
            assert(vstd::utf8::valid_utf8(rb));
            if to - from == 0 {
                is_char_boundary_start_end_of_seq(rb);
            } else if to < b.len() {
                is_char_boundary_iff_not_is_continuation_byte(b, to as int);
                is_char_boundary_iff_not_is_continuation_byte(rb, to - from);
                assert(rb[to - from] == b[to as int]);
            } else {
                is_char_boundary_start_end_of_seq(rb);
                assert(to - from == rb.len());
            }
            assert(vstd::utf8::is_char_boundary(rb, to - from));
        }
        let (mid, tail) = rest.split_at(to - from);
        proof {
            assert(mid.spec_byte_view() =~= self.spec_byte_view().subrange(
                from as int,
                to as int,
            ));
            if is_ascii_chars(self@) {
                assert(self@ =~= head@ + rest@);
                is_ascii_chars_concat(self@, head@, rest@);
                assert(rest@ =~= mid@ + tail@);
                is_ascii_chars_concat(rest@, mid@, tail@);
                is_ascii_chars_encode_utf8(head@);
                is_ascii_chars_encode_utf8(mid@);
                assert(head@.len() == from);
                assert(mid@.len() == to - from);
                assert(mid@ =~= self@.subrange(from as int, to as int));
            }
        }
        mid
    }

    /// The sub-view from byte offset `from` to the end of the view.
    pub fn index_from(&self, from: usize) -> (r: SoftAsciiStr<'a>)
        requires
            vstd::utf8::is_char_boundary(self.spec_byte_view(), from as int),
        ensures
            r.spec_byte_view() =~= self.spec_byte_view().subrange(
                from as int,
                self.spec_byte_view().len() as int,
            ),
            is_ascii_chars(self@) ==> r@ =~= self@.subrange(from as int, self@.len() as int),
    {
        let (head, rest) = self.split_at(from);
        proof {
            if is_ascii_chars(self@) {
                encode_utf8_valid_utf8(self@);
                assert(from <= self.spec_byte_view().len());
                assert(self@ =~= head@ + rest@);
                is_ascii_chars_concat(self@, head@, rest@);
                is_ascii_chars_encode_utf8(head@);
                assert(head@.len() == from);
                assert(rest@ =~= self@.subrange(from as int, self@.len() as int));
            }
        }
        rest
    }

    /// The sub-view over the first `to` bytes of the view.
    pub fn index_to(&self, to: usize) -> (r: SoftAsciiStr<'a>)
        requires
            vstd::utf8::is_char_boundary(self.spec_byte_view(), to as int),
        ensures
            r.spec_byte_view() =~= self.spec_byte_view().subrange(0, to as int),
            is_ascii_chars(self@) ==> r@ =~= self@.subrange(0, to as int),
    {
        let (head, rest) = self.split_at(to);
        proof {
            if is_ascii_chars(self@) {
                encode_utf8_valid_utf8(self@);
                assert(to <= self.spec_byte_view().len());
                assert(self@ =~= head@ + rest@);
                is_ascii_chars_concat(self@, head@, rest@);
                is_ascii_chars_encode_utf8(head@);
                assert(head@.len() == to);
                assert(head@ =~= self@.subrange(0, to as int));
            }
        }
        head
    }

    /// The view itself, as slicing by the full range returns it unchanged.
    pub fn index_full(&self) -> (r: SoftAsciiStr<'a>)
        ensures
            r@ == self@,
    {
        *self
    }

    /// Copies the view into an owned soft-tagged string.
    pub fn to_soft_ascii_string(&self) -> (r: SoftAsciiString)
        ensures
            r@ == self@,
    {
        SoftAsciiString::from_string_unchecked(String::from_str(self.inner))
    }

    /// Converts the view into an owned soft-tagged string.
    pub fn into_soft_ascii_string(self) -> (r: SoftAsciiString)
        ensures
            r@ == self@,
    {
        self.to_soft_ascii_string()
    }

    /// The lowercase form of the view, wrapped unchecked: case-mapping
    /// ASCII input cannot introduce non-ASCII characters, so the tag is
    /// carried over without a re-scan.
    pub fn to_lowercase(&self) -> (r: SoftAsciiString)
        ensures
            r@ == lower_of(self@),
            is_ascii_chars(self@) ==> r@ == ascii_lowercase_seq(self@),
    {
        SoftAsciiString::from_string_unchecked(str_to_lowercase(self.inner))
    }

    /// The uppercase form of the view, wrapped unchecked: case-mapping
    /// ASCII input cannot introduce non-ASCII characters, so the tag is
    /// carried over without a re-scan.
    pub fn to_uppercase(&self) -> (r: SoftAsciiString)
        ensures
            r@ == upper_of(self@),
            is_ascii_chars(self@) ==> r@ == ascii_uppercase_seq(self@),
    {
        SoftAsciiString::from_string_unchecked(str_to_uppercase(self.inner))
    }

    /// The view repeated `n` times, collected into an owned soft-tagged
    /// string.
    pub fn repeat(&self, n: usize) -> (r: SoftAsciiString)
        ensures
            r@ == repeat_seq(self@, n as nat),
    {
        let mut out = SoftAsciiString::new();
        let mut i: usize = 0;
        while i < n
            invariant
                i <= n,
                out@ =~= repeat_seq(self@, i as nat),
            decreases n - i,
        {
            out.push_soft_ascii_str(self);
            i += 1;
        }
        out
    }

    /// The view without leading whitespace, tag preserved without
    /// re-validation.
    pub fn trim_left(&self) -> (r: SoftAsciiStr<'a>)
        ensures
            is_left_trimmed_view(self@, r@),
    {
        let n = self.inner.unicode_len();
        let mut i: usize = 0;
        let mut found = false;
        while !found && i < n
            invariant
                n == self@.len(),
                i <= n,
                forall|k: int| 0 <= k < i ==> whitespace_char(#[trigger] self@[k]),
                found ==> i < n && !whitespace_char(self@[i as int]),
            decreases n - i + (if found {
                0int
            } else {
                1int
            }),
        {
            if !crate::soft_char::char_is_whitespace(self.inner.get_char(i)) {
                found = true;
            } else {
                i += 1;
            }
        }
        let rest = self.inner.substring_char(i, n);
        proof {
            assert(rest@ =~= self@.subrange(i as int, self@.len() as int));
        }
        SoftAsciiStr { inner: rest }
    }

    /// The view without trailing whitespace, tag preserved without
    /// re-validation.
    pub fn trim_right(&self) -> (r: SoftAsciiStr<'a>)
        ensures
            is_right_trimmed_view(self@, r@),
    {
        let n = self.inner.unicode_len();
        let mut j: usize = n;
        let mut found = false;
        while !found && j > 0
            invariant
                n == self@.len(),
                j <= n,
                forall|k: int| j <= k < n ==> whitespace_char(#[trigger] self@[k]),
                found ==> j > 0 && !whitespace_char(self@[j - 1]),
            decreases j + (if found {
                0int
            } else {
                1int
            }),
        {
            if !crate::soft_char::char_is_whitespace(self.inner.get_char(j - 1)) {
                found = true;
            } else {
                j -= 1;
            }
        }
        let head = self.inner.substring_char(0, j);
        proof {
            assert(head@ =~= self@.subrange(0, j as int));
        }
        SoftAsciiStr { inner: head }
    }

    /// The view without leading and trailing whitespace, tag preserved
    /// without re-validation.
    pub fn trim(&self) -> (r: SoftAsciiStr<'a>)
        ensures
            is_trimmed_view(self@, r@),
    {
        let left = self.trim_left();
        let out = left.trim_right();
        proof {
            let i = choose|i: int|
                0 <= i <= self@.len() && left@ =~= self@.subrange(i, self@.len() as int) && (
                forall|k: int| 0 <= k < i ==> whitespace_char(#[trigger] self@[k])) && (i
                    < self@.len() ==> !whitespace_char(self@[i]));
            let j = choose|j: int|
                0 <= j <= left@.len() && out@ =~= left@.subrange(0, j) && (forall|k: int|
                    j <= k < left@.len() ==> whitespace_char(#[trigger] left@[k])) && (j > 0
                    ==> !whitespace_char(left@[j - 1]));
            assert(out@ =~= self@.subrange(i, i + j));
            assert forall|k: int| i + j <= k < self@.len() implies whitespace_char(
                #[trigger] self@[k],
            ) by {
                assert(self@[k] == left@[k - i]);
            }
            if i < i + j {
                assert(!whitespace_char(left@[0]));
                assert(left@[0] == self@[i]);
                assert(left@[j - 1] == self@[i + j - 1]);
            }
        }
        out
    }

    /// The lines of the view: split at each newline, a carriage return
    /// directly before a newline removed, each line re-wrapped as a
    /// soft-tagged view without re-validation.
    pub fn lines(&self) -> (r: Vec<SoftAsciiStr<'a>>)
        ensures
            r@.map_values(|x: SoftAsciiStr<'a>| x@) =~= lines_of(self@),
    {
        let n = self.inner.unicode_len();
        let mut v: Vec<SoftAsciiStr<'a>> = Vec::new();
        let mut start: usize = 0;
        proof {
            assert(self@.subrange(0, n as int) =~= self@);
            assert(v@.map_values(|x: SoftAsciiStr<'a>| x@) =~= Seq::<Seq<char>>::empty());
        }
        while start < n
            invariant
                n == self@.len(),
                start <= n,
                lines_of(self@) =~= v@.map_values(|x: SoftAsciiStr<'a>| x@) + lines_of(
                    self@.subrange(start as int, n as int),
                ),
            decreases n - start,
        {
            let ghost t = self@.subrange(start as int, n as int);
            let mut j: usize = start;
            let mut found = false;
            while !found && j < n
                invariant
                    n == self@.len(),
                    start <= j <= n,
                    forall|k: int| start <= k < j ==> #[trigger] self@[k] != '\n',
                    found ==> j < n && self@[j as int] == '\n',
                decreases n - j + (if found {
                    0int
                } else {
                    1int
                }),
            {
                if self.inner.get_char(j) == '\n' {
                    found = true;
                } else {
                    j += 1;
                }
            }
            proof {
                assert forall|k: int| 0 <= k < j - start implies #[trigger] t[k] != '\n' by {
                    assert(t[k] == self@[start + k]);
                }
                if j < n {
                    assert(t[j - start] == self@[j as int]);
                }
                lemma_find_newline_is(t, j - start);
            }
            if found {
                let line_end = if j > start && self.inner.get_char(j - 1) == '\r' {
                    j - 1
                } else {
                    j
                };
                let line = self.inner.substring_char(start, line_end);
                let ghost prev = v@;
                v.push(SoftAsciiStr { inner: line });
                proof {
                    let head = t.subrange(0, j - start);
                    assert(head =~= self@.subrange(start as int, j as int));
                    if j > start && self@[j - 1] == '\r' {
                        assert(head.last() == self@[j - 1]);
                        assert(strip_carriage_return(head) =~= self@.subrange(
                            start as int,
                            j - 1,
                        ));
                    } else {
                        assert(strip_carriage_return(head) =~= head);
                    }
                    assert(line@ =~= strip_carriage_return(head));
                    assert(t.subrange(j - start + 1, t.len() as int) =~= self@.subrange(
                        j + 1,
                        n as int,
                    ));
                    assert(lines_of(t) =~= seq![line@] + lines_of(
                        self@.subrange(j + 1, n as int),
                    ));
                    assert(v@.map_values(|x: SoftAsciiStr<'a>| x@) =~= prev.map_values(
                        |x: SoftAsciiStr<'a>| x@,
                    ).push(line@));
                }
                start = j + 1;
            } else {
                let line = self.inner.substring_char(start, n);
                let ghost prev = v@;
                v.push(SoftAsciiStr { inner: line });
                proof {
                    assert(line@ =~= t);
                    assert(lines_of(t) =~= seq![t]);
                    assert(v@.map_values(|x: SoftAsciiStr<'a>| x@) =~= prev.map_values(
                        |x: SoftAsciiStr<'a>| x@,
                    ).push(line@));
                    assert(self@.subrange(n as int, n as int) =~= Seq::<char>::empty());
                }
                start = n;
            }
        }
        proof {
            assert(self@.subrange(start as int, n as int) =~= Seq::<char>::empty());
        }
        v
    }

    /// The whitespace-separated words of the view, in order, each
    /// re-wrapped as a soft-tagged view without re-validation.
    pub fn split_whitespace(&self) -> (r: Vec<SoftAsciiStr<'a>>)
        ensures
            r@.map_values(|x: SoftAsciiStr<'a>| x@) =~= split_whitespace_of(self@),
    {
        let n = self.inner.unicode_len();
        let mut v: Vec<SoftAsciiStr<'a>> = Vec::new();
        let mut pos: usize = 0;
        proof {
            assert(self@.subrange(0, n as int) =~= self@);
            assert(v@.map_values(|x: SoftAsciiStr<'a>| x@) =~= Seq::<Seq<char>>::empty());
        }
        while pos < n
            invariant
                n == self@.len(),
                pos <= n,
                split_whitespace_of(self@) =~= v@.map_values(|x: SoftAsciiStr<'a>| x@)
                    + split_whitespace_of(self@.subrange(pos as int, n as int)),
            decreases n - pos,
        {
            let ghost t = self@.subrange(pos as int, n as int);
            let mut i: usize = pos;
            let mut found = false;
            while !found && i < n
                invariant
                    n == self@.len(),
                    pos <= i <= n,
                    forall|k: int| pos <= k < i ==> whitespace_char(#[trigger] self@[k]),
                    found ==> i < n && !whitespace_char(self@[i as int]),
                decreases n - i + (if found {
                    0int
                } else {
                    1int
                }),
            {
                if !crate::soft_char::char_is_whitespace(self.inner.get_char(i)) {
                    found = true;
                } else {
                    i += 1;
                }
            }
            proof {
                assert forall|k: int| 0 <= k < i - pos implies whitespace_char(
                    #[trigger] t[k],
                ) by {
                    assert(t[k] == self@[pos + k]);
                }
                if i < n {
                    assert(t[i - pos] == self@[i as int]);
                }
                lemma_find_non_whitespace_is(t, i - pos);
            }
            if !found {
                proof {
                    assert(split_whitespace_of(t) =~= Seq::<Seq<char>>::empty());
                    assert(self@.subrange(n as int, n as int) =~= Seq::<char>::empty());
                }
                pos = n;
            } else {
                let ghost t2 = self@.subrange(i as int, n as int);
                let mut j: usize = i;
                let mut wend = false;
                while !wend && j < n
                    invariant
                        n == self@.len(),
                        i <= j <= n,
                        i < n && !whitespace_char(self@[i as int]),
                        forall|k: int| i <= k < j ==> !whitespace_char(#[trigger] self@[k]),
                        wend ==> j < n && whitespace_char(self@[j as int]),
                    decreases n - j + (if wend {
                        0int
                    } else {
                        1int
                    }),
                {
                    if crate::soft_char::char_is_whitespace(self.inner.get_char(j)) {
                        wend = true;
                    } else {
                        j += 1;
                    }
                }
                let word = self.inner.substring_char(i, j);
                let ghost prev = v@;
                v.push(SoftAsciiStr { inner: word });
                proof {
                    assert forall|k: int| 0 <= k < j - i implies !whitespace_char(
                        #[trigger] t2[k],
                    ) by {
                        assert(t2[k] == self@[i + k]);
                    }
                    if j < n {
                        assert(t2[j - i] == self@[j as int]);
                    }
                    lemma_find_whitespace_is(t2, j - i);
                    assert(j > i);
                    assert(t.subrange(i - pos, t.len() as int) =~= t2);
                    assert(word@ =~= t2.subrange(0, j - i));
                    if j < n {
                        assert(t2.subrange(j - i, t2.len() as int) =~= self@.subrange(
                            j as int,
                            n as int,
                        ));
                        assert(split_whitespace_of(t) =~= seq![word@] + split_whitespace_of(
                            self@.subrange(j as int, n as int),
                        ));
                    } else {
                        assert(word@ =~= t2);
                        assert(split_whitespace_of(t) =~= seq![t2]);
                        assert(self@.subrange(n as int, n as int) =~= Seq::<char>::empty());
                    }
                    assert(v@.map_values(|x: SoftAsciiStr<'a>| x@) =~= prev.map_values(
                        |x: SoftAsciiStr<'a>| x@,
                    ).push(word@));
                }
                pos = j;
            }
        }
        proof {
            assert(self@.subrange(pos as int, n as int) =~= Seq::<char>::empty());
        }
        v
    }

    /// Content equality against a raw text slice.
    pub fn eq_str(&self, other: &str) -> (r: bool)
        ensures
            r == (self@ == other@),
    {
        str_content_eq(self.inner, other)
    }

    /// Content equality against an owned soft-tagged string.
    pub fn eq_soft_ascii_string(&self, other: &SoftAsciiString) -> (r: bool)
        ensures
            r == (self@ == other@),
    {
        str_content_eq(self.inner, other.as_str())
    }

    /// Every character of the view in order, each wrapped as a
    /// soft-tagged character without re-validation.
    pub fn chars(&self) -> (r: Vec<SoftAsciiChar>)
        ensures
            r@.len() == self@.len(),
            forall|i: int| 0 <= i < self@.len() ==> r@[i]@ == self@[i],
    {
        let n = self.inner.unicode_len();
        let mut v: Vec<SoftAsciiChar> = Vec::new();
        let mut i: usize = 0;
        while i < n
            invariant
                n == self@.len(),
                i <= n,
                v@.len() == i,
                forall|k: int| 0 <= k < i ==> v@[k]@ == self@[k],
            decreases n - i,
        {
            let c = self.inner.get_char(i);
            v.push(SoftAsciiChar::from_char_unchecked(c));
            i += 1;
        }
        v
    }

    /// Every character of the view in order, each paired with its byte
    /// offset and wrapped as a soft-tagged character without
    /// re-validation.
    pub fn char_indices(&self) -> (r: Vec<(usize, SoftAsciiChar)>)
        ensures
            r@.len() == self@.len(),
            forall|i: int|
                0 <= i < self@.len() ==> (#[trigger] r@[i]).1@ == self@[i] && r@[i].0
                    == encode_utf8(self@.subrange(0, i)).len(),
    {
        let bs = self.inner.as_bytes();
        let total = bs.len();
        proof {
            broadcast use vstd::slice::axiom_spec_len;

            assert(self.spec_byte_view().len() <= usize::MAX);
        }
        let n = self.inner.unicode_len();
        let mut v: Vec<(usize, SoftAsciiChar)> = Vec::new();
        let mut i: usize = 0;
        let mut pos: usize = 0;
        while i < n
            invariant
                n == self@.len(),
                i <= n,
                v@.len() == i,
                self.spec_byte_view().len() <= usize::MAX,
                pos == encode_utf8(self@.subrange(0, i as int)).len(),
                forall|k: int|
                    0 <= k < i ==> (#[trigger] v@[k]).1@ == self@[k] && v@[k].0 == encode_utf8(
                        self@.subrange(0, k),
                    ).len(),
            decreases n - i,
        {
            let c = self.inner.get_char(i);
            let sc = SoftAsciiChar::from_char_unchecked(c);
            v.push((pos, sc));
            let cl = sc.len_utf8();
            proof {
                let pre = self@.subrange(0, i as int);
                let one = self@.subrange(i as int, i + 1);
                let post = self@.subrange(i + 1, n as int);
                assert(one.len() == 1);
                assert(one[0] == self@[i as int]);
                assert(one.drop_first() =~= Seq::<char>::empty());
                assert(encode_utf8(one.drop_first()) =~= Seq::<u8>::empty());
                assert(encode_utf8(one) =~= vstd::utf8::encode_scalar(self@[i as int] as u32));
                lemma_encode_utf8_concat(pre, one);
                assert(pre + one =~= self@.subrange(0, i + 1));
                lemma_encode_utf8_concat(self@.subrange(0, i + 1), post);
                assert(self@.subrange(0, i + 1) + post =~= self@);
                assert(pos + cl <= self.spec_byte_view().len());
            }
            pos = pos + cl;
            i += 1;
        }
        v
    }
}

impl<'a> Default for SoftAsciiStr<'a> {
    /// The default value is the empty soft-tagged view, which vacuously
    /// satisfies the soft constraint.
    fn default() -> (r: Self)
        ensures
            r@.len() == 0,
    {
        proof {
            reveal_strlit("");
        }
        SoftAsciiStr { inner: "" }
    }
}

} // verus!
