//! The soft-constraint algebra: what the library's operations do to a
//! *true* ASCII tag.
//!
//! No operation of the library re-validates on its own, so these laws say
//! when carrying the tag forward is justified: an operation that cannot
//! introduce non-ASCII characters keeps an accurate tag accurate, while a
//! mistagged input hands the same mistag on.

use vstd::prelude::*;
use vstd::utf8::is_ascii_chars;

use crate::soft_char::is_ascii_char;
use crate::soft_char::whitespace_char;
use crate::soft_str::ascii_lowercase_seq;
use crate::soft_str::ascii_uppercase_seq;
use crate::soft_str::is_left_trimmed_view;
use crate::soft_str::is_right_trimmed_view;
use crate::soft_str::is_trimmed_view;
use crate::soft_str::repeat_seq;
use crate::soft_string::concat_views;

verus! {

/// The sequence-level ASCII constraint is the character-level one at
/// every position.
pub proof fn lemma_ascii_chars_pointwise(s: Seq<char>)
    ensures
        is_ascii_chars(s) <==> (forall|i: int| 0 <= i < s.len() ==> is_ascii_char(#[trigger] s[i])),
{
}

/// A sub-range of an ASCII sequence is ASCII: slicing cannot introduce
/// new characters, so an accurate tag stays accurate across slicing.
pub proof fn lemma_ascii_subrange(s: Seq<char>, i: int, j: int)
    requires
        is_ascii_chars(s),
        0 <= i <= j <= s.len(),
    ensures
        is_ascii_chars(s.subrange(i, j)),
{
    assert forall|k: int| 0 <= k < j - i implies '\0' <= #[trigger] s.subrange(i, j)[k]
        <= '\u{7f}' by {
        assert(s.subrange(i, j)[k] == s[i + k]);
    }
}

/// Appending one character keeps the constraint exactly when the
/// character itself is ASCII.
pub proof fn lemma_ascii_push(s: Seq<char>, c: char)
    ensures
        is_ascii_chars(s.push(c)) <==> (is_ascii_chars(s) && is_ascii_char(c)),
{
    if is_ascii_chars(s) && is_ascii_char(c) {
        assert forall|k: int| 0 <= k < s.push(c).len() implies '\0' <= #[trigger] s.push(c)[k]
            <= '\u{7f}' by {
            if k < s.len() {
                assert(s.push(c)[k] == s[k]);
            } else {
                assert(s.push(c)[k] == c);
            }
        }
    }
    if is_ascii_chars(s.push(c)) {
        assert forall|k: int| 0 <= k < s.len() implies '\0' <= #[trigger] s[k] <= '\u{7f}' by {
            assert(s.push(c)[k] == s[k]);
        }
        assert(s.push(c)[s.len() as int] == c);
    }
}

/// ASCII case-mapping keeps the length and keeps the constraint: an
/// accurately tagged input yields an accurately taggable result, which
/// is why case-mapped results are wrapped unchecked.
pub proof fn lemma_ascii_lowercase(s: Seq<char>)
    requires
        is_ascii_chars(s),
    ensures
        ascii_lowercase_seq(s).len() == s.len(),
        is_ascii_chars(ascii_lowercase_seq(s)),
{
    assert forall|k: int| 0 <= k < s.len() implies '\0' <= #[trigger] ascii_lowercase_seq(s)[k]
        <= '\u{7f}' by {
        assert('\0' <= s[k] <= '\u{7f}');
    }
}

/// ASCII case-mapping keeps the length and keeps the constraint, in the
/// uppercase direction.
pub proof fn lemma_ascii_uppercase(s: Seq<char>)
    requires
        is_ascii_chars(s),
    ensures
        ascii_uppercase_seq(s).len() == s.len(),
        is_ascii_chars(ascii_uppercase_seq(s)),
{
    assert forall|k: int| 0 <= k < s.len() implies '\0' <= #[trigger] ascii_uppercase_seq(s)[k]
        <= '\u{7f}' by {
        assert('\0' <= s[k] <= '\u{7f}');
    }
}

/// Repetition of an ASCII sequence is ASCII, whatever the count.
pub proof fn lemma_ascii_repeat(s: Seq<char>, n: nat)
    requires
        is_ascii_chars(s),
    ensures
        is_ascii_chars(repeat_seq(s, n)),
    decreases n,
{
    if n == 0 {
    } else {
        lemma_ascii_repeat(s, (n - 1) as nat);
        vstd::utf8::is_ascii_chars_concat(
            repeat_seq(s, n),
            repeat_seq(s, (n - 1) as nat),
            s,
        );
    }
}

/// Trimming an ASCII view leaves an ASCII view: an accurate tag stays
/// accurate across trimming.
pub proof fn lemma_ascii_trimmed(s: Seq<char>, r: Seq<char>)
    requires
        is_ascii_chars(s),
        is_trimmed_view(s, r),
    ensures
        is_ascii_chars(r),
{
    let (i, j) = choose|i: int, j: int|
        0 <= i <= j <= s.len() && r =~= s.subrange(i, j) && (forall|k: int|
            0 <= k < i ==> whitespace_char(#[trigger] s[k])) && (forall|k: int|
            j <= k < s.len() ==> whitespace_char(#[trigger] s[k])) && (i < j ==> !whitespace_char(
            s[i],
        ) && !whitespace_char(s[j - 1]));
    lemma_ascii_subrange(s, i, j);
}

/// Trimming leading whitespace from an ASCII view leaves an ASCII view.
pub proof fn lemma_ascii_left_trimmed(s: Seq<char>, r: Seq<char>)
    requires
        is_ascii_chars(s),
        is_left_trimmed_view(s, r),
    ensures
        is_ascii_chars(r),
{
    let i = choose|i: int|
        0 <= i <= s.len() && r =~= s.subrange(i, s.len() as int) && (forall|k: int|
            0 <= k < i ==> whitespace_char(#[trigger] s[k])) && (i < s.len() ==> !whitespace_char(
            s[i],
        ));
    lemma_ascii_subrange(s, i, s.len() as int);
}

/// Trimming trailing whitespace from an ASCII view leaves an ASCII view.
pub proof fn lemma_ascii_right_trimmed(s: Seq<char>, r: Seq<char>)
    requires
        is_ascii_chars(s),
        is_right_trimmed_view(s, r),
    ensures
        is_ascii_chars(r),
{
    let j = choose|j: int|
        0 <= j <= s.len() && r =~= s.subrange(0, j) && (forall|k: int|
            j <= k < s.len() ==> whitespace_char(#[trigger] s[k])) && (j > 0 ==> !whitespace_char(
            s[j - 1],
        ));
    lemma_ascii_subrange(s, 0, j);
}

/// A concatenation of views is ASCII exactly when every view is: a
/// collected result's tag is only as trustworthy as its
/// least-trustworthy input.
pub proof fn lemma_ascii_concat_views(parts: Seq<Seq<char>>)
    ensures
        is_ascii_chars(concat_views(parts)) <==> (forall|i: int|
            0 <= i < parts.len() ==> is_ascii_chars(#[trigger] parts[i])),
    decreases parts.len(),
{
    if parts.len() == 0 {
    } else {
        lemma_ascii_concat_views(parts.drop_last());
        vstd::utf8::is_ascii_chars_concat(
            concat_views(parts),
            concat_views(parts.drop_last()),
            parts.last(),
        );
        if is_ascii_chars(concat_views(parts)) {
            assert forall|i: int| 0 <= i < parts.len() implies is_ascii_chars(
                #[trigger] parts[i],
            ) by {
                if i < parts.len() - 1 {
                    assert(parts.drop_last()[i] == parts[i]);
                }
            }
        }
        if forall|i: int| 0 <= i < parts.len() ==> is_ascii_chars(#[trigger] parts[i]) {
            assert forall|i: int| 0 <= i < parts.drop_last().len() implies is_ascii_chars(
                #[trigger] parts.drop_last()[i],
            ) by {
                assert(parts.drop_last()[i] == parts[i]);
            }
        }
    }
}

} // verus!
