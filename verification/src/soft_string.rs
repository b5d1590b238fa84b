//! An owned, growable text buffer with an "is US-ASCII" soft constraint.

use vstd::prelude::*;
use vstd::string::StringExecFns;
use vstd::string::StringExecFnsIsAscii;
use vstd::utf8::encode_utf8;
use vstd::utf8::is_ascii_chars;

use crate::soft_char::SoftAsciiChar;
use crate::soft_str::SoftAsciiStr;

verus! {

/// Relies on `String::with_capacity`: the new string is empty.
#[verifier::external_body]
fn string_with_capacity(cap: usize) -> (r: String)
    ensures
        r@ == Seq::<char>::empty(),
{
    String::with_capacity(cap)
}

/// Relies on `String::push`: the character is appended at the end.
#[verifier::external_body]
fn string_push(s: &mut String, ch: char)
    ensures
        final(s)@ == old(s)@.push(ch),
{
    s.push(ch)
}

/// Relies on `String::pop`: the last character is removed and returned,
/// or `None` on an empty string.
#[verifier::external_body]
fn string_pop(s: &mut String) -> (r: Option<char>)
    ensures
        old(s)@.len() == 0 ==> r is None && final(s)@ == old(s)@,
        old(s)@.len() > 0 ==> r == Some(old(s)@.last()) && final(s)@ == old(s)@.drop_last(),
{
    s.pop()
}

/// Relies on `String::remove`: the character that starts at byte offset
/// `idx` is removed and returned.
#[verifier::external_body]
fn string_remove(s: &mut String, idx: usize) -> (r: char)
    requires
        vstd::utf8::is_char_boundary(encode_utf8(old(s)@), idx as int),
        idx < encode_utf8(old(s)@).len(),
    ensures
        exists|p: int|
            0 <= p < old(s)@.len() && #[trigger] encode_utf8(old(s)@.subrange(0, p)).len() == idx
                && r == old(s)@[p] && final(s)@ == old(s)@.remove(p),
{
    s.remove(idx)
}

/// Relies on `String::insert`: the character is inserted at byte offset
/// `idx`.
#[verifier::external_body]
fn string_insert(s: &mut String, idx: usize, ch: char)
    requires
        vstd::utf8::is_char_boundary(encode_utf8(old(s)@), idx as int),
    ensures
        exists|p: int|
            0 <= p <= old(s)@.len() && #[trigger] encode_utf8(old(s)@.subrange(0, p)).len() == idx
                && final(s)@ == old(s)@.insert(p, ch),
{
    s.insert(idx, ch)
}

/// Relies on `String::insert_str`: the slice is inserted at byte offset
/// `idx`.
#[verifier::external_body]
fn string_insert_str(s: &mut String, idx: usize, other: &str)
    requires
        vstd::utf8::is_char_boundary(encode_utf8(old(s)@), idx as int),
    ensures
        exists|p: int|
            0 <= p <= old(s)@.len() && #[trigger] encode_utf8(old(s)@.subrange(0, p)).len() == idx
                && final(s)@ == old(s)@.subrange(0, p) + other@ + old(s)@.subrange(
                p,
                old(s)@.len() as int,
            ),
{
    s.insert_str(idx, other)
}

/// Relies on `String::split_off`: the buffer is cut at byte offset `at`,
/// the tail is returned and the head stays.
#[verifier::external_body]
fn string_split_off(s: &mut String, at: usize) -> (r: String)
    requires
        vstd::utf8::is_char_boundary(encode_utf8(old(s)@), at as int),
    ensures
        exists|p: int|
            0 <= p <= old(s)@.len() && #[trigger] encode_utf8(old(s)@.subrange(0, p)).len() == at
                && final(s)@ == old(s)@.subrange(0, p) && r@ == old(s)@.subrange(
                p,
                old(s)@.len() as int,
            ),
{
    s.split_off(at)
}

/// Relies on `String::truncate`: the buffer is shortened to `new_len`
/// bytes, or left unchanged when `new_len` is not below the length.
#[verifier::external_body]
fn string_truncate(s: &mut String, new_len: usize)
    requires
        new_len >= encode_utf8(old(s)@).len() || vstd::utf8::is_char_boundary(
            encode_utf8(old(s)@),
            new_len as int,
        ),
    ensures
        new_len >= encode_utf8(old(s)@).len() ==> final(s)@ == old(s)@,
        new_len < encode_utf8(old(s)@).len() ==> exists|p: int|
            0 <= p <= old(s)@.len() && #[trigger] encode_utf8(old(s)@.subrange(0, p)).len()
                == new_len && final(s)@ == old(s)@.subrange(0, p),
{
    s.truncate(new_len)
}

/// Relies on `String::clear`: the buffer is emptied.
#[verifier::external_body]
fn string_clear(s: &mut String)
    ensures
        final(s)@ == Seq::<char>::empty(),
{
    s.clear()
}

/// Relies on `String::reserve`: the contents are unchanged.
#[verifier::external_body]
fn string_reserve(s: &mut String, additional: usize)
    ensures
        final(s)@ == old(s)@,
{
    s.reserve(additional)
}

/// Relies on `String::reserve_exact`: the contents are unchanged.
#[verifier::external_body]
fn string_reserve_exact(s: &mut String, additional: usize)
    ensures
        final(s)@ == old(s)@,
{
    s.reserve_exact(additional)
}

/// Relies on `String::shrink_to_fit`: the contents are unchanged.
#[verifier::external_body]
fn string_shrink_to_fit(s: &mut String)
    ensures
        final(s)@ == old(s)@,
{
    s.shrink_to_fit()
}

/// Relies on `String::capacity`: the capacity, in bytes, is never below
/// the length.
#[verifier::external_body]
fn string_capacity(s: &String) -> (r: usize)
    ensures
        r >= encode_utf8(s@).len(),
{
    s.capacity()
}

/// Relies on `String::into_boxed_str`: the buffer is returned with its
/// contents unchanged.
#[verifier::external_body]
fn string_into_boxed_str(s: String) -> (r: Box<str>)
    ensures
        r@ == s@,
{
    s.into_boxed_str()
}

/// Relies on `String::into_bytes`: the buffer is returned as its UTF-8
/// bytes.
#[verifier::external_body]
fn string_into_bytes(s: String) -> (r: Vec<u8>)
    ensures
        r@ == encode_utf8(s@),
{
    s.into_bytes()
}

/// An owned, growable text buffer tagged with the soft constraint that
/// every scalar in it should be ASCII. Mutators never re-validate the
/// tag; only explicit revalidation re-scans the buffer.
#[derive(Debug, Clone, PartialEq, Eq, PartialOrd, Ord, Hash)]
pub struct SoftAsciiString {
    inner: String,
}

impl View for SoftAsciiString {
    type V = Seq<char>;

    closed spec fn view(&self) -> Seq<char> {
        self.inner@
    }
}

impl SoftAsciiString {
    /// The UTF-8 bytes that back the buffer.
    pub open spec fn spec_byte_view(&self) -> Seq<u8> {
        encode_utf8(self@)
    }

    /// Wraps an owned buffer with no validation; the caller asserts the
    /// soft constraint holds.
    pub fn from_string_unchecked(s: String) -> (r: Self)
        ensures
            r@ == s@,
    {
        SoftAsciiString { inner: s }
    }

    /// Wraps an owned buffer after validating it; on failure the original
    /// buffer is returned unchanged as the error.
    pub fn from_string(s: String) -> (r: Result<Self, String>)
        ensures
            is_ascii_chars(s@) ==> (r matches Ok(v) && v@ == s@),
            !is_ascii_chars(s@) ==> (r matches Err(e) && e == s),
    {
        if s.is_ascii() {
            Ok(SoftAsciiString { inner: s })
        } else {
            Err(s)
        }
    }

    /// Constructs an empty soft-tagged string.
    pub fn new() -> (r: Self)
        ensures
            r@ == Seq::<char>::empty(),
    {
        SoftAsciiString { inner: String::new() }
    }

    /// Constructs an empty soft-tagged string with at least `cap` bytes
    /// of storage reserved.
    pub fn with_capacity(cap: usize) -> (r: Self)
        ensures
            r@ == Seq::<char>::empty(),
    {
        SoftAsciiString { inner: string_with_capacity(cap) }
    }

    /// Returns the string unchanged if the soft constraint still holds,
    /// else the raw owned buffer unchanged as the error payload.
    pub fn revalidate_soft_constraint(self) -> (r: Result<SoftAsciiString, String>)
        ensures
            is_ascii_chars(self@) ==> (r matches Ok(v) && v == self),
            !is_ascii_chars(self@) ==> (r matches Err(e) && e@ == self@),
    {
        if self.inner.is_ascii() {
            Ok(self)
        } else {
            Err(self.inner)
        }
    }

    /// Borrows the underlying owned buffer read-only.
    pub fn inner_string(&self) -> (r: &String)
        ensures
            r@ == self@,
    {
        &self.inner
    }

    /// Borrows the underlying owned buffer mutably. This escape hatch
    /// never re-validates the soft tag: mutation through it can silently
    /// violate the constraint, by design.
    pub fn inner_string_mut(&mut self) -> (r: &mut String)
        ensures
            r@ == old(self)@,
            final(self)@ == final(r)@,
    {
        &mut self.inner
    }

    /// Appends a soft-tagged slice's raw text to the buffer.
    pub fn push_soft_ascii_str(&mut self, other: &SoftAsciiStr<'_>)
        ensures
            final(self)@ == old(self)@ + other@,
    {
        self.inner.append(other.as_str())
    }

    /// Consumes the string and returns its text as a boxed slice.
    pub fn into_boxed_str(self) -> (r: Box<str>)
        ensures
            r@ == self@,
    {
        string_into_boxed_str(self.inner)
    }

    /// Consumes the string and returns its UTF-8 bytes.
    pub fn into_bytes(self) -> (r: Vec<u8>)
        ensures
            r@ == self.spec_byte_view(),
    {
        string_into_bytes(self.inner)
    }

    /// Appends one soft-tagged character.
    pub fn push(&mut self, ch: SoftAsciiChar)
        ensures
            final(self)@ == old(self)@.push(ch@),
    {
        string_push(&mut self.inner, ch.to_char())
    }

    /// Removes and returns the last character, tag preserved.
    pub fn pop(&mut self) -> (r: Option<SoftAsciiChar>)
        ensures
            old(self)@.len() == 0 ==> r is None && final(self)@ == old(self)@,
            old(self)@.len() > 0 ==> (r matches Some(c) && c@ == old(self)@.last()
                && final(self)@ == old(self)@.drop_last()),
    {
        match string_pop(&mut self.inner) {
            Some(ch) => Some(SoftAsciiChar::from_char_unchecked(ch)),
            None => None,
        }
    }

    /// Removes and returns the character that starts at byte offset
    /// `idx`, tag preserved.
    pub fn remove(&mut self, idx: usize) -> (r: SoftAsciiChar)
        requires
            vstd::utf8::is_char_boundary(old(self).spec_byte_view(), idx as int),
            idx < old(self).spec_byte_view().len(),
        ensures
            exists|p: int|
                0 <= p < old(self)@.len() && #[trigger] encode_utf8(
                    old(self)@.subrange(0, p),
                ).len() == idx && r@ == old(self)@[p] && final(self)@ == old(self)@.remove(p),
    {
        SoftAsciiChar::from_char_unchecked(string_remove(&mut self.inner, idx))
    }

    /// Inserts a soft-tagged character at byte offset `idx`.
    pub fn insert(&mut self, idx: usize, ch: SoftAsciiChar)
        requires
            vstd::utf8::is_char_boundary(old(self).spec_byte_view(), idx as int),
        ensures
            exists|p: int|
                0 <= p <= old(self)@.len() && #[trigger] encode_utf8(
                    old(self)@.subrange(0, p),
                ).len() == idx && final(self)@ == old(self)@.insert(p, ch@),
    {
        string_insert(&mut self.inner, idx, ch.to_char())
    }

    /// Inserts a soft-tagged slice's raw text at byte offset `idx`.
    pub fn insert_soft_ascii_str(&mut self, idx: usize, string: &SoftAsciiStr<'_>)
        requires
            vstd::utf8::is_char_boundary(old(self).spec_byte_view(), idx as int),
        ensures
            exists|p: int|
                0 <= p <= old(self)@.len() && #[trigger] encode_utf8(
                    old(self)@.subrange(0, p),
                ).len() == idx && final(self)@ == old(self)@.subrange(0, p) + string@
                    + old(self)@.subrange(p, old(self)@.len() as int),
    {
        string_insert_str(&mut self.inner, idx, string.as_str())
    }

    /// Borrows the buffer as a soft-tagged slice over exactly its own
    /// storage.
    pub fn as_soft_ascii_str(&self) -> (r: SoftAsciiStr<'_>)
        ensures
            r@ == self@,
    {
        SoftAsciiStr::from_str_unchecked(self.inner.as_str())
    }

    /// Splits the buffer in two owned pieces at byte offset `at`, both
    /// tagged.
    pub fn split_off(&mut self, at: usize) -> (r: SoftAsciiString)
        requires
            vstd::utf8::is_char_boundary(old(self).spec_byte_view(), at as int),
        ensures
            exists|p: int|
                0 <= p <= old(self)@.len() && #[trigger] encode_utf8(
                    old(self)@.subrange(0, p),
                ).len() == at && final(self)@ == old(self)@.subrange(0, p)
                    && r@ == old(self)@.subrange(p, old(self)@.len() as int),
    {
        SoftAsciiString { inner: string_split_off(&mut self.inner, at) }
    }

    /// Re-checks every character of the buffer against the ASCII range.
    pub fn is_ascii(&self) -> (r: bool)
        ensures
            r == is_ascii_chars(self@),
    {
        self.inner.is_ascii()
    }

    /// Shortens the buffer to `new_len` bytes; a `new_len` at or beyond
    /// the length leaves it unchanged.
    pub fn truncate(&mut self, new_len: usize)
        requires
            new_len >= old(self).spec_byte_view().len() || vstd::utf8::is_char_boundary(
                old(self).spec_byte_view(),
                new_len as int,
            ),
        ensures
            new_len >= old(self).spec_byte_view().len() ==> final(self)@ == old(self)@,
            new_len < old(self).spec_byte_view().len() ==> exists|p: int|
                0 <= p <= old(self)@.len() && #[trigger] encode_utf8(
                    old(self)@.subrange(0, p),
                ).len() == new_len && final(self)@ == old(self)@.subrange(0, p),
    {
        string_truncate(&mut self.inner, new_len)
    }

    /// Empties the buffer.
    pub fn clear(&mut self)
        ensures
            final(self)@ == Seq::<char>::empty(),
    {
        string_clear(&mut self.inner)
    }

    /// Reserves storage for at least `additional` more bytes; the
    /// contents are unchanged.
    pub fn reserve(&mut self, additional: usize)
        ensures
            final(self)@ == old(self)@,
    {
        string_reserve(&mut self.inner, additional)
    }

    /// Reserves storage for exactly `additional` more bytes; the
    /// contents are unchanged.
    pub fn reserve_exact(&mut self, additional: usize)
        ensures
            final(self)@ == old(self)@,
    {
        string_reserve_exact(&mut self.inner, additional)
    }

    /// Drops excess storage; the contents are unchanged.
    pub fn shrink_to_fit(&mut self)
        ensures
            final(self)@ == old(self)@,
    {
        string_shrink_to_fit(&mut self.inner)
    }

    /// The buffer's capacity in bytes, never below its length.
    pub fn capacity(&self) -> (r: usize)
        ensures
            r >= self.spec_byte_view().len(),
    {
        string_capacity(&self.inner)
    }

    /// The length of the buffer in bytes.
    pub fn len(&self) -> (r: usize)
        ensures
            r == self.spec_byte_view().len() as usize,
    {
        self.inner.as_str().len()
    }

    /// Borrows the buffer's text read-only.
    pub fn as_str(&self) -> (r: &str)
        ensures
            r@ == self@,
    {
        self.inner.as_str()
    }

    /// The UTF-8 bytes that back the buffer.
    pub fn as_bytes(&self) -> (r: &[u8])
        ensures
            r@ == self.spec_byte_view(),
    {
        self.inner.as_str().as_bytes()
    }

    /// True when the buffer holds no characters.
    pub fn is_empty(&self) -> (r: bool)
        ensures
            r == (self@.len() == 0),
    {
        self.inner.as_str().is_empty()
    }

    /// The sub-view over the byte range `[from, to)` of the buffer, tag
    /// preserved without re-validation.
    pub fn index_range(&self, from: usize, to: usize) -> (r: SoftAsciiStr<'_>)
        requires
            from <= to,
            vstd::utf8::is_char_boundary(self.spec_byte_view(), from as int),
            vstd::utf8::is_char_boundary(self.spec_byte_view(), to as int),
        ensures
            encode_utf8(r@) =~= self.spec_byte_view().subrange(from as int, to as int),
            is_ascii_chars(self@) ==> r@ =~= self@.subrange(from as int, to as int),
    {
        self.as_soft_ascii_str().index_range(from, to)
    }

    /// The sub-view from byte offset `from` to the end of the buffer.
    pub fn index_from(&self, from: usize) -> (r: SoftAsciiStr<'_>)
        requires
            vstd::utf8::is_char_boundary(self.spec_byte_view(), from as int),
        ensures
            encode_utf8(r@) =~= self.spec_byte_view().subrange(
                from as int,
                self.spec_byte_view().len() as int,
            ),
            is_ascii_chars(self@) ==> r@ =~= self@.subrange(from as int, self@.len() as int),
    {
        self.as_soft_ascii_str().index_from(from)
    }

    /// The sub-view over the first `to` bytes of the buffer.
    pub fn index_to(&self, to: usize) -> (r: SoftAsciiStr<'_>)
        requires
            vstd::utf8::is_char_boundary(self.spec_byte_view(), to as int),
        ensures
            encode_utf8(r@) =~= self.spec_byte_view().subrange(0, to as int),
            is_ascii_chars(self@) ==> r@ =~= self@.subrange(0, to as int),
    {
        self.as_soft_ascii_str().index_to(to)
    }

    /// Content equality against a raw text slice.
    pub fn eq_str(&self, other: &str) -> (r: bool)
        ensures
            r == (self@ == other@),
    {
        self.as_soft_ascii_str().eq_str(other)
    }

    /// Content equality against a borrowed soft-tagged view.
    pub fn eq_soft_ascii_str(&self, other: &SoftAsciiStr<'_>) -> (r: bool)
        ensures
            r == (self@ == other@),
    {
        self.as_soft_ascii_str().eq_str(other.as_str())
    }

    /// Appends a raw text slice without any validation. This is the
    /// deliberate escape hatch: it can silently violate the soft
    /// constraint, which only a later revalidation will notice.
    pub fn push_str_unchecked(&mut self, other: &str)
        ensures
            final(self)@ == old(self)@ + other@,
    {
        self.inner.append(other)
    }

    /// Collects a sequence of soft-tagged characters into an owned
    /// soft-tagged string, appending each without re-validation.
    pub fn from_chars(chars: &Vec<SoftAsciiChar>) -> (r: Self)
        ensures
            r@.len() == chars@.len(),
            forall|i: int| 0 <= i < chars@.len() ==> r@[i] == chars@[i]@,
    {
        let mut out = SoftAsciiString::new();
        out.extend_chars(chars);
        out
    }

    /// Appends every character of the sequence in order, without
    /// re-validation.
    pub fn extend_chars(&mut self, chars: &Vec<SoftAsciiChar>)
        ensures
            final(self)@.len() == old(self)@.len() + chars@.len(),
            forall|i: int| 0 <= i < old(self)@.len() ==> final(self)@[i] == old(self)@[i],
            forall|i: int|
                0 <= i < chars@.len() ==> final(self)@[old(self)@.len() + i] == chars@[i]@,
    {
        let n = chars.len();
        let mut i: usize = 0;
        while i < n
            invariant
                n == chars@.len(),
                i <= n,
                self@.len() == old(self)@.len() + i,
                forall|k: int| 0 <= k < old(self)@.len() ==> self@[k] == old(self)@[k],
                forall|k: int| 0 <= k < i ==> self@[old(self)@.len() + k] == chars@[k]@,
            decreases n - i,
        {
            self.push(chars[i]);
            i += 1;
        }
    }

    /// Concatenates a sequence of soft-tagged slices into an owned
    /// soft-tagged string, appending each fragment's raw text without
    /// re-validating it: the result's tag is only as trustworthy as its
    /// least-trustworthy input.
    pub fn from_soft_ascii_strs(parts: &Vec<SoftAsciiStr<'_>>) -> (r: Self)
        ensures
            r@ == concat_views(parts@.map_values(|p: SoftAsciiStr<'_>| p@)),
    {
        let mut out = SoftAsciiString::new();
        let n = parts.len();
        let mut i: usize = 0;
        while i < n
            invariant
                n == parts@.len(),
                i <= n,
                out@ =~= concat_views(parts@.map_values(|p: SoftAsciiStr<'_>| p@).take(i as int)),
            decreases n - i,
        {
            proof {
                let views = parts@.map_values(|p: SoftAsciiStr<'_>| p@);
                lemma_concat_views_push(views.take(i as int), views[i as int]);
                assert(views.take(i as int).push(views[i as int]) =~= views.take(i + 1));
            }
            out.push_soft_ascii_str(&parts[i]);
            i += 1;
        }
        proof {
            let views = parts@.map_values(|p: SoftAsciiStr<'_>| p@);
            assert(views.take(n as int) =~= views);
        }
        out
    }
}

/// The concatenation of a sequence of views in order.
pub open spec fn concat_views(parts: Seq<Seq<char>>) -> Seq<char>
    decreases parts.len(),
{
    if parts.len() == 0 {
        Seq::empty()
    } else {
        concat_views(parts.drop_last()) + parts.last()
    }
}

/// Appending one more view to a sequence of views appends its characters
/// to the concatenation.
pub proof fn lemma_concat_views_push(parts: Seq<Seq<char>>, last: Seq<char>)
    ensures
        concat_views(parts.push(last)) =~= concat_views(parts) + last,
{
    assert(parts.push(last).drop_last() =~= parts);
    assert(parts.push(last).last() =~= last);
}

impl Default for SoftAsciiString {
    /// The default value is the empty soft-tagged string.
    fn default() -> (r: Self)
        ensures
            r@ == Seq::<char>::empty(),
    {
        SoftAsciiString::new()
    }
}

} // verus!
