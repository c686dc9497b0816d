//! Paths as text: segments separated by `/`.
//!
//! Nothing here looks at a file system. A path is the sequence of its
//! characters, and every function is defined on that sequence.

use vstd::prelude::*;
use vstd::string::StrSliceExecFns;
use vstd::string::StringExecFns;

verus! {

/// The segments of a path: the pieces between its separators, empty ones
/// included. A path without separator is its own single segment.
pub open spec fn split(path: Seq<char>) -> Seq<Seq<char>>
    decreases path.len(),
{
    if path.len() == 0 {
        seq![Seq::<char>::empty()]
    } else {
        let before = split(path.drop_last());
        if path.last() == '/' {
            before.push(Seq::<char>::empty())
        } else {
            before.update(before.len() - 1, before.last().push(path.last()))
        }
    }
}

/// A segment that names nothing: the empty one and `.`.
pub open spec fn is_blank(segment: Seq<char>) -> bool {
    segment.len() == 0 || (segment.len() == 1 && segment[0] == '.')
}

/// The segment `..`.
pub open spec fn is_parent(segment: Seq<char>) -> bool {
    segment.len() == 2 && segment[0] == '.' && segment[1] == '.'
}

/// A segment that names an entry of a directory.
pub open spec fn is_plain(segment: Seq<char>) -> bool {
    &&& !is_blank(segment)
    &&& !is_parent(segment)
    &&& forall|i: int| 0 <= i < segment.len() ==> segment[i] != '/'
}

/// The last segment that names something, unless it is `..`.
pub open spec fn last_name(segments: Seq<Seq<char>>) -> Option<Seq<char>>
    decreases segments.len(),
{
    if segments.len() == 0 {
        None
    } else if is_blank(segments.last()) {
        last_name(segments.drop_last())
    } else if is_parent(segments.last()) {
        None
    } else {
        Some(segments.last())
    }
}

/// The name of what a path leads to: its final component. Trailing
/// separators and `.` segments are passed over; a path that ends in `..`,
/// or that has no component at all, has no name.
pub open spec fn base_name(path: Seq<char>) -> Option<Seq<char>> {
    last_name(split(path))
}

/// `rest` appended to `base` as a further part of the path: a separator is
/// put between them unless `base` is empty or already ends in one.
pub open spec fn joined(base: Seq<char>, rest: Seq<char>) -> Seq<char> {
    if base.len() == 0 {
        rest
    } else if base.last() == '/' {
        base + rest
    } else {
        base.push('/') + rest
    }
}

/// A stretch of a path's characters, from `start` up to `end`.
#[derive(Clone, Copy, Debug)]
pub struct Span {
    pub start: usize,
    pub end: usize,
}

impl Span {
    /// The stretch lies inside `chars`.
    pub open spec fn fits(self, chars: Seq<char>) -> bool {
        self.start <= self.end <= chars.len()
    }

    /// The characters of the stretch.
    pub open spec fn text(self, chars: Seq<char>) -> Seq<char> {
        chars.subrange(self.start as int, self.end as int)
    }
}

/// The texts of a row of stretches.
pub open spec fn texts(chars: Seq<char>, spans: Seq<Span>) -> Seq<Seq<char>> {
    Seq::new(spans.len(), |k: int| spans[k].text(chars))
}

/// Every stretch of the row lies inside `chars`.
pub open spec fn all_fit(chars: Seq<char>, spans: Seq<Span>) -> bool {
    forall|k: int| 0 <= k < spans.len() ==> (#[trigger] spans[k]).fits(chars)
}

/// Copies the characters of a string into a vector.
pub fn to_chars(s: &str) -> (chars: Vec<char>)
    ensures
        chars@ == s@,
{
    let mut chars: Vec<char> = Vec::new();
    for c in it: s.chars()
        invariant
            it.seq() == s@,
            chars@ == s@.take(it.index()),
    {
        chars.push(c);
    }
    chars
}

/// Finds the segments of a path, each as a stretch of its characters.
pub fn split_spans(chars: &Vec<char>) -> (spans: Vec<Span>)
    ensures
        all_fit(chars@, spans@),
        texts(chars@, spans@) == split(chars@),
        spans.len() >= 1,
{
    let mut spans: Vec<Span> = Vec::new();
    let mut start: usize = 0;
    let mut i: usize = 0;
    assert(chars@.take(0).len() == 0);
    assert(chars@.subrange(0, 0) == Seq::<char>::empty());
    assert(texts(chars@, spans@).push(Seq::<char>::empty()) == seq![Seq::<char>::empty()]);
    while i < chars.len()
        invariant
            start <= i <= chars.len(),
            all_fit(chars@, spans@),
            texts(chars@, spans@).push(chars@.subrange(start as int, i as int)) == split(
                chars@.take(i as int),
            ),
        decreases chars.len() - i,
    {
        let ghost before = texts(chars@, spans@).push(chars@.subrange(start as int, i as int));
        let ghost upto = chars@.take(i + 1);
        assert(upto.drop_last() == chars@.take(i as int));
        assert(upto.last() == chars@[i as int]);
        if chars[i] == '/' {
            spans.push(Span { start, end: i });
            start = i + 1;
            assert(texts(chars@, spans@) == before);
            assert(chars@.subrange(start as int, i + 1) == Seq::<char>::empty());
        } else {
            assert(chars@.subrange(start as int, i + 1) == chars@.subrange(
                start as int,
                i as int,
            ).push(chars@[i as int]));
            assert(texts(chars@, spans@).push(chars@.subrange(start as int, i + 1))
                == before.update(before.len() - 1, before.last().push(chars@[i as int])));
        }
        i += 1;
    }
    assert(chars@.take(i as int) == chars@);
    let ghost before = texts(chars@, spans@).push(chars@.subrange(start as int, i as int));
    spans.push(Span { start, end: i });
    assert(texts(chars@, spans@) == before);
    spans
}

/// What kind of segment a stretch holds.
#[derive(Clone, Copy, Debug, PartialEq, Eq, Structural)]
pub enum Segment {
    /// Empty or `.`.
    Blank,
    /// `..`.
    Parent,
    /// Anything else.
    Name,
}

/// The kind of a segment.
pub open spec fn kind_of(segment: Seq<char>) -> Segment {
    if is_blank(segment) {
        Segment::Blank
    } else if is_parent(segment) {
        Segment::Parent
    } else {
        Segment::Name
    }
}

/// Tells the kind of the segment in a stretch.
pub fn classify(chars: &Vec<char>, span: Span) -> (kind: Segment)
    requires
        span.fits(chars@),
    ensures
        kind == kind_of(span.text(chars@)),
{
    let len = span.end - span.start;
    if len == 0 {
        Segment::Blank
    } else if len == 1 && chars[span.start] == '.' {
        Segment::Blank
    } else if len == 2 && chars[span.start] == '.' && chars[span.start + 1] == '.' {
        Segment::Parent
    } else {
        Segment::Name
    }
}

/// The final component of a path, if it has one.
pub fn file_name(path: &str) -> (name: Option<String>)
    ensures
        match name {
            Some(text) => base_name(path@) == Some(text@),
            None => base_name(path@) is None,
        },
{
    let chars = to_chars(path);
    let spans = split_spans(&chars);
    let mut k: usize = spans.len();
    assert(split(chars@).take(k as int) == split(chars@));
    while k > 0
        invariant
            k <= spans.len(),
            chars@ == path@,
            all_fit(chars@, spans@),
            texts(chars@, spans@) == split(chars@),
            base_name(path@) == last_name(split(chars@).take(k as int)),
        decreases k,
    {
        let ghost upto = split(chars@).take(k as int);
        k -= 1;
        let span = spans[k];
        assert(upto.last() == span.text(chars@));
        assert(upto.drop_last() == split(chars@).take(k as int));
        match classify(&chars, span) {
            Segment::Blank => {},
            Segment::Parent => {
                return None;
            },
            Segment::Name => {
                return Some(path.substring_char(span.start, span.end).to_owned());
            },
        }
    }
    None
}

/// Appends `rest` to `base` as a further part of the path.
pub fn join(base: &str, rest: &str) -> (path: String)
    ensures
        path@ == joined(base@, rest@),
{
    let len = base.unicode_len();
    if len == 0 {
        rest.to_owned()
    } else {
        let mut path = base.to_owned();
        if base.get_char(len - 1) != '/' {
            proof {
                reveal_strlit("/");
            }
            path.append("/");
            assert(path@ == base@.push('/'));
        }
        path.append(rest);
        path
    }
}

/// No segment of a path holds a separator.
pub proof fn lemma_split_has_no_separator(path: Seq<char>)
    ensures
        split(path).len() >= 1,
        forall|k: int, i: int|
            0 <= k < split(path).len() && 0 <= i < split(path)[k].len() ==> split(path)[k][i]
                != '/',
    decreases path.len(),
{
    if path.len() > 0 {
        lemma_split_has_no_separator(path.drop_last());
    }
}

/// Characters without separator that follow a path lengthen its last
/// segment and leave the others as they are.
pub proof fn lemma_split_extended(path: Seq<char>, more: Seq<char>)
    requires
        forall|i: int| 0 <= i < more.len() ==> more[i] != '/',
    ensures
        split(path).len() >= 1,
        split(path + more) == split(path).drop_last().push(split(path).last() + more),
    decreases more.len(),
{
    lemma_split_nonempty(path);
    let parts = split(path);
    if more.len() == 0 {
        assert(path + more == path);
        assert(parts.last() + more == parts.last());
        assert(parts.drop_last().push(parts.last()) == parts);
    } else {
        let shorter = more.drop_last();
        lemma_split_extended(path, shorter);
        assert((path + more).drop_last() == path + shorter);
        assert((path + more).last() == more.last());
        let before = split(path + shorter);
        assert(before.last().push(more.last()) == parts.last() + more);
        assert(before.update(before.len() - 1, parts.last() + more) == parts.drop_last().push(
            parts.last() + more,
        ));
    }
}

/// A path has at least one segment.
pub proof fn lemma_split_nonempty(path: Seq<char>)
    ensures
        split(path).len() >= 1,
    decreases path.len(),
{
    if path.len() > 0 {
        lemma_split_nonempty(path.drop_last());
    }
}

/// An entry of a directory is named as the listing names it: the path of
/// the entry, made of the path of the directory and a name that names an
/// entry, has that name as its final component.
pub proof fn lemma_child_is_named(dir: Seq<char>, name: Seq<char>)
    requires
        is_plain(name),
    ensures
        base_name(joined(dir, name)) == Some(name),
{
    let front = if dir.len() == 0 {
        Seq::<char>::empty()
    } else if dir.last() == '/' {
        dir
    } else {
        dir.push('/')
    };
    assert(joined(dir, name) == front + name);
    lemma_split_extended(front, name);
    lemma_split_nonempty(front);
    if front.len() > 0 {
        lemma_split_nonempty(front.drop_last());
        assert(front.last() == '/');
    }
    assert(split(front).last() == Seq::<char>::empty());
    assert(Seq::<char>::empty() + name == name);
    assert(split(front + name).last() == name);
}

} // verus!
