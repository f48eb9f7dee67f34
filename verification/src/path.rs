//! Patch paths: dotted field paths whose last segment may address an array.

use vstd::prelude::*;
use crate::error::EngineError;
use crate::text::{chars_of, index_value, parse_index, split, split_chars, string_of};

verus! {

/// One step of a patch path.
#[derive(Debug, PartialEq, Eq)]
pub enum Segment {
    /// A field of an object, by name.
    Field(String),
    /// An element of an array, by position.
    ArrayPositional(usize),
    /// A field of the matched element of an array, by name.
    ArrayElementKey(String),
}

/// The mathematical content of a [`Segment`].
pub enum SegmentView {
    Field(Seq<char>),
    ArrayPositional(nat),
    ArrayElementKey(Seq<char>),
}

impl View for Segment {
    type V = SegmentView;

    open spec fn view(&self) -> SegmentView {
        match self {
            Segment::Field(name) => SegmentView::Field(name@),
            Segment::ArrayPositional(index) => SegmentView::ArrayPositional(*index as nat),
            Segment::ArrayElementKey(key) => SegmentView::ArrayElementKey(key@),
        }
    }
}

impl Clone for Segment {
    fn clone(&self) -> (r: Segment)
        ensures
            r@ == self@,
    {
        match self {
            Segment::Field(name) => Segment::Field(name.clone()),
            Segment::ArrayPositional(index) => Segment::ArrayPositional(*index),
            Segment::ArrayElementKey(key) => Segment::ArrayElementKey(key.clone()),
        }
    }
}

/// The views of `segments`, one by one.
pub open spec fn segment_views(segments: Seq<Segment>) -> Seq<SegmentView> {
    Seq::new(segments.len(), |i: int| segments[i]@)
}

/// Whether `token` has the bracket form: an opening bracket, anything, a
/// closing bracket.
pub open spec fn is_bracketed(token: Seq<char>) -> bool {
    token.len() >= 2 && token[0] == '[' && token.last() == ']'
}

/// What stands between the brackets of a bracketed token.
pub open spec fn bracket_content(token: Seq<char>) -> Seq<char> {
    token.subrange(1, token.len() - 1)
}

/// How the last piece of a path is read: a bracketed index addresses an array
/// by position, any other bracketed text addresses it by element key, and
/// everything else is a plain field.
pub open spec fn classify(token: Seq<char>) -> SegmentView {
    if is_bracketed(token) {
        match index_value(bracket_content(token)) {
            Some(index) => SegmentView::ArrayPositional(index),
            None => SegmentView::ArrayElementKey(bracket_content(token)),
        }
    } else {
        SegmentView::Field(token)
    }
}

/// The segments that a non-empty path string stands for: its pieces between
/// dots, the last one classified, every earlier one taken as a field name
/// whatever it looks like.
pub open spec fn parsed_segments(path: Seq<char>) -> Seq<SegmentView> {
    let pieces = split(path, '.');
    Seq::new(
        pieces.len(),
        |i: int|
            if i == pieces.len() - 1 {
                classify(pieces[i])
            } else {
                SegmentView::Field(pieces[i])
            },
    )
}

/// What parsing `path` gives: nothing for the empty string, its segments
/// otherwise.
pub open spec fn parsed_path(path: Seq<char>) -> Option<Seq<SegmentView>> {
    if path.len() == 0 {
        None
    } else {
        Some(parsed_segments(path))
    }
}

/// A parsed path has at least one segment, and only its last segment can
/// address an array.
pub proof fn lemma_only_last_addresses_array(path: Seq<char>)
    ensures
        parsed_segments(path).len() >= 1,
        forall|i: int|
            0 <= i < parsed_segments(path).len() - 1 ==> (#[trigger] parsed_segments(path)[i]) is Field,
{
    crate::text::lemma_split_join(path, '.');
}

/// A parsed patch path, together with the string it was parsed from.
#[derive(Debug)]
pub struct PatchPath {
    source: String,
    segments: Vec<Segment>,
}

impl View for PatchPath {
    type V = Seq<SegmentView>;

    closed spec fn view(&self) -> Seq<SegmentView> {
        segment_views(self.segments@)
    }
}

impl PatchPath {
    #[verifier::type_invariant]
    spec fn well_formed(&self) -> bool {
        &&& self.source@.len() > 0
        &&& segment_views(self.segments@) == parsed_segments(self.source@)
    }

    /// The string the path was parsed from.
    pub closed spec fn source(&self) -> Seq<char> {
        self.source@
    }

    /// The string the path was parsed from.
    pub fn as_str(&self) -> (s: &str)
        ensures
            s@ == self.source(),
            s@.len() > 0,
            self@ == parsed_segments(self.source()),
    {
        proof {
            use_type_invariant(self);
        }
        self.source.as_str()
    }

    /// The segments of the path, first to last.
    pub fn segments(&self) -> (segments: &Vec<Segment>)
        ensures
            segment_views(segments@) == self@,
            self@ == parsed_segments(self.source()),
            segments.len() >= 1,
    {
        proof {
            use_type_invariant(self);
            lemma_only_last_addresses_array(self.source@);
        }
        &self.segments
    }
}

/// Reads one piece of a path as its last segment.
pub fn classify_token(token: &Vec<char>) -> (segment: Segment)
    ensures
        segment@ == classify(token@),
{
    let n = token.len();
    if n >= 2 && token[0] == '[' && token[n - 1] == ']' {
        match parse_index(token, 1, n - 1) {
            Some(index) => Segment::ArrayPositional(index),
            None => Segment::ArrayElementKey(string_of(token, 1, n - 1)),
        }
    } else {
        let name = string_of(token, 0, n);
        assert(token@.subrange(0, n as int) =~= token@);
        Segment::Field(name)
    }
}

/// Parses a path string such as `content.blocks.[2]` or `tags.[sports]`.
///
/// The string is cut at every dot.  Only the last piece is looked at for the
/// bracket form; brackets in an earlier piece are part of a field name.
/// The empty string is the one input that is refused.
pub fn parse_path(path: &str) -> (r: Result<PatchPath, EngineError>)
    ensures
        r is Err <==> path@.len() == 0,
        r matches Err(e) ==> e == EngineError::MalformedPath,
        r matches Ok(p) ==> p.source() == path@ && Some(p@) == parsed_path(path@),
{
    let chars = chars_of(path);
    if chars.len() == 0 {
        return Err(EngineError::MalformedPath);
    }
    let pieces = split_chars(&chars, '.');
    let last = pieces.len() - 1;
    let mut segments: Vec<Segment> = Vec::new();
    let mut i: usize = 0;
    while i < last
        invariant
            i <= last,
            last == pieces.len() - 1,
            segments.len() == i,
            chars@ == path@,
            pieces.len() == split(chars@, '.').len(),
            forall|k: int| 0 <= k < pieces.len() ==> (#[trigger] pieces[k])@ == split(chars@, '.')[k],
            forall|k: int| 0 <= k < i ==> (#[trigger] segments[k])@ == parsed_segments(path@)[k],
        decreases last - i,
    {
        let piece = &pieces[i];
        let name = string_of(piece, 0, piece.len());
        assert(piece@.subrange(0, piece.len() as int) =~= piece@);
        segments.push(Segment::Field(name));
        i += 1;
    }
    segments.push(classify_token(&pieces[last]));
    assert(segment_views(segments@) =~= parsed_segments(path@));
    Ok(PatchPath { source: path.to_owned(), segments })
}

} // verus!
