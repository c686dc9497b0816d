//! From a serving path `<width>/<relative path>` to the width asked for and
//! the file to serve, which never lies outside the album root.

use vstd::prelude::*;
use vstd::string::StrSliceExecFns;
use vstd::string::StringExecFns;
use crate::error::BadRequest;
use crate::error::Error;
use crate::path::all_fit;
use crate::path::classify;
use crate::path::is_plain;
use crate::path::join;
use crate::path::joined;
use crate::path::kind_of;
use crate::path::lemma_split_has_no_separator;
use crate::path::split;
use crate::path::split_spans;
use crate::path::texts;
use crate::path::to_chars;
use crate::path::Segment;
use crate::path::Span;

verus! {

/// A decimal digit.
pub open spec fn is_digit(c: char) -> bool {
    '0' <= c <= '9'
}

/// The number a row of digits stands for, read in base ten.
pub open spec fn decimal(digits: Seq<char>) -> nat
    decreases digits.len(),
{
    if digits.len() == 0 {
        0
    } else {
        decimal(digits.drop_last()) * 10 + (digits.last() as u32 - '0' as u32) as nat
    }
}

/// The digits of a width: the text itself, without a leading `+`.
pub open spec fn digits_of(text: Seq<char>) -> Seq<char> {
    if text.len() > 0 && text[0] == '+' {
        text.skip(1)
    } else {
        text
    }
}

/// The width that a text states: one or more decimal digits, optionally
/// after a `+`, that stand for a number of 32 bits.
pub open spec fn parsed_width(text: Seq<char>) -> Option<u32> {
    let digits = digits_of(text);
    if digits.len() > 0 && (forall|i: int| 0 <= i < digits.len() ==> is_digit(#[trigger] digits[i]))
        && decimal(digits) <= u32::MAX {
        Some(decimal(digits) as u32)
    } else {
        None
    }
}

/// The segments that are left of a relative path once `.` and empty
/// segments are dropped and each `..` has taken back the segment before it.
/// There is no such form where a `..` has nothing to take back: the path
/// would leave its root.
pub open spec fn normalized(segments: Seq<Seq<char>>) -> Option<Seq<Seq<char>>>
    decreases segments.len(),
{
    if segments.len() == 0 {
        Some(Seq::empty())
    } else {
        match normalized(segments.drop_last()) {
            None => None,
            Some(kept) => match kind_of(segments.last()) {
                Segment::Blank => Some(kept),
                Segment::Parent => if kept.len() == 0 {
                    None
                } else {
                    Some(kept.drop_last())
                },
                Segment::Name => Some(kept.push(segments.last())),
            },
        }
    }
}

/// Segments written one after the other with a separator between them.
pub open spec fn chain(segments: Seq<Seq<char>>) -> Seq<char>
    decreases segments.len(),
{
    if segments.len() == 0 {
        Seq::empty()
    } else if segments.len() == 1 {
        segments[0]
    } else {
        chain(segments.drop_last()).push('/') + segments.last()
    }
}

/// What a serving path asks for.
#[derive(Debug, PartialEq, Eq)]
pub struct ResolvedMedia {
    /// The width of the image to serve.
    pub width: u32,
    /// The file to read, below the album root.
    pub source_path: String,
}

/// A `ResolvedMedia` as plain values.
#[verifier::ext_equal]
pub struct Resolution {
    pub width: u32,
    pub source_path: Seq<char>,
}

impl View for ResolvedMedia {
    type V = Resolution;

    open spec fn view(&self) -> Resolution {
        Resolution { width: self.width, source_path: self.source_path@ }
    }
}

/// What a serving path resolves to below an album root.
///
/// The empty path is too short. Otherwise its first segment has to state
/// the width, and the segments after it, normalized, are the path of the
/// media below the root. A path that would leave the root is refused, and so
/// is one that names nothing below it.
pub open spec fn resolution(album_root: Seq<char>, request_path: Seq<char>) -> Result<
    Resolution,
    Error,
> {
    if request_path.len() == 0 {
        Err(Error::BadRequest(BadRequest::TooShort))
    } else {
        let segments = split(request_path);
        match parsed_width(segments[0]) {
            None => Err(Error::BadRequest(BadRequest::BadSize)),
            Some(width) => match normalized(segments.skip(1)) {
                None => Err(Error::BadRequest(BadRequest::OutsideRoot)),
                Some(kept) => if kept.len() == 0 {
                    Err(Error::BadRequest(BadRequest::TooShort))
                } else {
                    Ok(Resolution { width, source_path: joined(album_root, chain(kept)) })
                },
            },
        }
    }
}

/// Longer rows of digits stand for numbers at least as large.
proof fn lemma_decimal_grows(digits: Seq<char>, k: int)
    requires
        0 <= k <= digits.len(),
    ensures
        decimal(digits.take(k)) <= decimal(digits),
    decreases digits.len() - k,
{
    if k == digits.len() {
        assert(digits.take(k) == digits);
    } else {
        lemma_decimal_grows(digits, k + 1);
        assert(digits.take(k + 1).drop_last() == digits.take(k));
    }
}

/// Once a path has left its root, no further segment brings it back.
proof fn lemma_normalized_stays_none(segments: Seq<Seq<char>>, k: int)
    requires
        0 <= k <= segments.len(),
        normalized(segments.take(k)) is None,
    ensures
        normalized(segments) is None,
    decreases segments.len() - k,
{
    if k == segments.len() {
        assert(segments.take(k) == segments);
    } else {
        assert(segments.take(k + 1).drop_last() == segments.take(k));
        lemma_normalized_stays_none(segments, k + 1);
    }
}

/// Reads the width that the characters of a stretch state.
pub fn parse_digits(chars: &Vec<char>, span: Span) -> (width: Option<u32>)
    requires
        span.fits(chars@),
    ensures
        width == parsed_width(span.text(chars@)),
{
    let ghost text = span.text(chars@);
    let mut i: usize = span.start;
    if i < span.end && chars[i] == '+' {
        i += 1;
    }
    let first: usize = i;
    let ghost digits = digits_of(text);
    assert(digits == chars@.subrange(first as int, span.end as int));
    if first == span.end {
        return None;
    }
    let mut value: u64 = 0;
    while i < span.end
        invariant
            first <= i <= span.end <= chars.len(),
            digits == chars@.subrange(first as int, span.end as int),
            digits == digits_of(span.text(chars@)),
            forall|j: int| 0 <= j < i - first ==> is_digit(#[trigger] digits[j]),
            value == decimal(digits.take(i - first)),
            value <= u32::MAX,
        decreases span.end - i,
    {
        let c = chars[i];
        assert(c == digits[i - first]);
        if !('0' <= c && c <= '9') {
            assert(!is_digit(digits[i - first]));
            return None;
        }
        let digit: u64 = (c as u32 - '0' as u32) as u64;
        assert(digits.take(i - first + 1).drop_last() == digits.take(i - first));
        value = value * 10 + digit;
        assert(value == decimal(digits.take(i - first + 1)));
        if value > u32::MAX as u64 {
            proof {
                lemma_decimal_grows(digits, i - first + 1);
            }
            return None;
        }
        i += 1;
    }
    assert(digits.take(i - first) == digits);
    Some(value as u32)
}

/// Reads a width: one or more decimal digits, optionally after a `+`.
pub fn parse_width(text: &str) -> (width: Option<u32>)
    ensures
        width == parsed_width(text@),
{
    let chars = to_chars(text);
    let whole = Span { start: 0, end: chars.len() };
    assert(whole.text(chars@) == text@);
    parse_digits(&chars, whole)
}

/// Normalizes the segments after the first one of a path.
pub fn normalize(chars: &Vec<char>, spans: &Vec<Span>) -> (kept: Option<Vec<Span>>)
    requires
        all_fit(chars@, spans@),
        spans.len() >= 1,
    ensures
        match kept {
            Some(left) => all_fit(chars@, left@) && normalized(texts(chars@, spans@).skip(1))
                == Some(texts(chars@, left@)),
            None => normalized(texts(chars@, spans@).skip(1)) is None,
        },
{
    let ghost segments = texts(chars@, spans@).skip(1);
    let mut left: Vec<Span> = Vec::new();
    let mut k: usize = 1;
    assert(segments.take(0) == Seq::<Seq<char>>::empty());
    assert(texts(chars@, left@) == Seq::<Seq<char>>::empty());
    while k < spans.len()
        invariant
            1 <= k <= spans.len(),
            all_fit(chars@, spans@),
            all_fit(chars@, left@),
            segments == texts(chars@, spans@).skip(1),
            normalized(segments.take(k - 1)) == Some(texts(chars@, left@)),
        decreases spans.len() - k,
    {
        let span = spans[k];
        let ghost before = texts(chars@, left@);
        assert(segments.take(k as int).drop_last() == segments.take(k - 1));
        assert(segments.take(k as int).last() == span.text(chars@));
        match classify(chars, span) {
            Segment::Blank => {},
            Segment::Parent => {
                if left.len() == 0 {
                    proof {
                        lemma_normalized_stays_none(segments, k as int);
                    }
                    return None;
                }
                left.pop();
                assert(texts(chars@, left@) == before.drop_last());
            },
            Segment::Name => {
                left.push(span);
                assert(texts(chars@, left@) == before.push(span.text(chars@)));
            },
        }
        k += 1;
    }
    assert(segments.take(k - 1) == segments);
    Some(left)
}

/// Resolves a serving path below an album root. Only the texts are looked
/// at: no file is touched.
pub fn resolve(album_root: &str, request_path: &str) -> (found: Result<ResolvedMedia, Error>)
    ensures
        match found {
            Ok(media) => resolution(album_root@, request_path@) == Ok::<Resolution, Error>(media@),
            Err(error) => resolution(album_root@, request_path@) == Err::<Resolution, Error>(
                error,
            ),
        },
{
    let chars = to_chars(request_path);
    if chars.len() == 0 {
        return Err(Error::BadRequest(BadRequest::TooShort));
    }
    let spans = split_spans(&chars);
    assert(texts(chars@, spans@)[0] == spans[0].text(chars@));
    let width = match parse_digits(&chars, spans[0]) {
        Some(width) => width,
        None => {
            return Err(Error::BadRequest(BadRequest::BadSize));
        },
    };
    let left = match normalize(&chars, &spans) {
        Some(left) => left,
        None => {
            return Err(Error::BadRequest(BadRequest::OutsideRoot));
        },
    };
    if left.len() == 0 {
        return Err(Error::BadRequest(BadRequest::TooShort));
    }
    let ghost kept = texts(chars@, left@);
    let head = left[0];
    let mut source_path = join(album_root, request_path.substring_char(head.start, head.end));
    assert(kept.take(1) == seq![kept[0]]);
    let mut k: usize = 1;
    while k < left.len()
        invariant
            1 <= k <= left.len(),
            chars@ == request_path@,
            all_fit(chars@, left@),
            kept == texts(chars@, left@),
            source_path@ == joined(album_root@, chain(kept.take(k as int))),
        decreases left.len() - k,
    {
        let span = left[k];
        proof {
            reveal_strlit("/");
            assert(kept.take(k + 1).drop_last() == kept.take(k as int));
            assert(kept.take(k + 1).last() == span.text(chars@));
        }
        let ghost before = chain(kept.take(k as int));
        source_path.append("/");
        source_path.append(request_path.substring_char(span.start, span.end));
        assert(source_path@ == joined(album_root@, before.push('/') + span.text(chars@)));
        k += 1;
    }
    assert(kept.take(k as int) == kept);
    Ok(ResolvedMedia { width, source_path })
}

/// Normalizing keeps nothing but names, each taken from the segments given.
pub proof fn lemma_normalized_keeps_names(segments: Seq<Seq<char>>)
    requires
        normalized(segments) is Some,
    ensures
        forall|k: int|
            #![auto]
            0 <= k < normalized(segments)->0.len() ==> kind_of(normalized(segments)->0[k])
                == Segment::Name && segments.contains(normalized(segments)->0[k]),
    decreases segments.len(),
{
    if segments.len() > 0 {
        let shorter = segments.drop_last();
        lemma_normalized_keeps_names(shorter);
        let kept = normalized(segments)->0;
        assert forall|k: int| #![auto] 0 <= k < kept.len() implies kind_of(kept[k])
            == Segment::Name && segments.contains(kept[k]) by {
            if k < normalized(shorter)->0.len() {
                let at = choose|at: int|
                    0 <= at < shorter.len() && shorter[at] == normalized(shorter)->0[k];
                assert(segments[at] == kept[k]);
            } else {
                assert(segments[segments.len() - 1] == kept[k]);
            }
        }
    }
}

/// A path that resolves stays below the album root: it is the root followed
/// by one or more segments, each of which names an entry of a directory, so
/// that none is empty, `.` or `..`, and none holds a separator.
pub proof fn lemma_resolved_below_root(album_root: Seq<char>, request_path: Seq<char>)
    ensures
        resolution(album_root, request_path) matches Ok(found) ==> exists|parts: Seq<Seq<char>>|
            {
                &&& parts.len() >= 1
                &&& forall|k: int| 0 <= k < parts.len() ==> is_plain(#[trigger] parts[k])
                &&& found.source_path == joined(album_root, chain(parts))
            },
{
    if let Ok(found) = resolution(album_root, request_path) {
        let segments = split(request_path);
        let parts = normalized(segments.skip(1))->0;
        lemma_split_has_no_separator(request_path);
        lemma_normalized_keeps_names(segments.skip(1));
        assert forall|k: int| 0 <= k < parts.len() implies is_plain(#[trigger] parts[k]) by {
            assert(kind_of(parts[k]) == Segment::Name);
            let at = choose|at: int|
                0 <= at < segments.skip(1).len() && segments.skip(1)[at] == parts[k];
            assert(segments[at + 1] == parts[k]);
        }
        assert(found.source_path == joined(album_root, chain(parts)));
    }
}

} // verus!
