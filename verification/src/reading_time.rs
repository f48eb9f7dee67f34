//! The estimated time to read a document.

use vstd::prelude::*;
use crate::markup::{can_render, renders_safely};
use crate::text::chars_of;

verus! {

/// The column at which the text of a document is wrapped before its words
/// are counted.
pub const WRAP_WIDTH: usize = 80;

/// The number of words read in a minute.
pub const WORDS_PER_MINUTE: usize = 200;

/// The plain text that `html2text` renders `html` to, wrapped at `width`
/// columns.
pub uninterp spec fn rendered_text(html: Seq<char>, width: nat) -> Seq<char>;

/// `html2text::from_read`, given the bytes of `html`: parses the HTML and
/// renders it as plain text wrapped at `width` columns.  The text is a
/// function of the two arguments; what it is in detail is left to the
/// renderer.
///
/// The renderer is only given markup that `renders_safely` admits.  On
/// other markup it may not come back or may end the program: on quotes,
/// lists and headings nested until no column is left, on ordered lists that
/// count from a number of their own, on tables, and on words too long for a
/// line that hold characters which it measures differently alone and in a
/// row.
#[verifier::external_body]
fn render_html(html: &str, width: usize) -> (text: String)
    requires
        renders_safely(html@, width as nat),
    ensures
        text@ == rendered_text(html@, width as nat),
{
    html2text::from_read(html.as_bytes(), width)
}

/// Whether `c` is white space, by the Unicode property of that name.
pub open spec fn is_whitespace(c: char) -> bool {
    let n = c as u32;
    (0x09 <= n <= 0x0D) || n == 0x20 || n == 0x85 || n == 0xA0 || n == 0x1680 || (0x2000 <= n <= 0x200A)
        || n == 0x2028 || n == 0x2029 || n == 0x202F || n == 0x205F || n == 0x3000
}

/// Whether a word starts at position `i` of `text`: the character there is
/// no white space, and it is the first character or follows white space.
pub open spec fn word_starts_at(text: Seq<char>, i: int) -> bool {
    !is_whitespace(text[i]) && (i == 0 || is_whitespace(text[i - 1]))
}

/// The number of words in `text`: of maximal runs of characters that are not
/// white space.
pub open spec fn word_count(text: Seq<char>) -> nat
    decreases text.len(),
{
    if text.len() == 0 {
        0
    } else {
        word_count(text.drop_last()) + if word_starts_at(text, text.len() - 1) {
            1nat
        } else {
            0nat
        }
    }
}

/// The minutes it takes to read `words` words, rounded up.
pub open spec fn minutes_for(words: nat) -> nat {
    (words + 199) / 200
}

/// Whether `c` is white space.
pub fn char_is_whitespace(c: char) -> (r: bool)
    ensures
        r == is_whitespace(c),
{
    let n = c as u32;
    (0x09 <= n && n <= 0x0D) || n == 0x20 || n == 0x85 || n == 0xA0 || n == 0x1680 || (0x2000 <= n && n
        <= 0x200A) || n == 0x2028 || n == 0x2029 || n == 0x202F || n == 0x205F || n == 0x3000
}

/// Counts the words of `text`.
pub fn count_words(text: &str) -> (words: usize)
    ensures
        words == word_count(text@),
{
    let chars = chars_of(text);
    let mut words: usize = 0;
    let mut after_space = true;
    let mut i: usize = 0;
    assert(chars@.take(0) =~= Seq::<char>::empty());
    while i < chars.len()
        invariant
            i <= chars.len(),
            words == word_count(chars@.take(i as int)),
            words <= i,
            after_space == (i == 0 || is_whitespace(chars@[i - 1])),
        decreases chars.len() - i,
    {
        proof {
            assert(chars@.take(i + 1).drop_last() =~= chars@.take(i as int));
        }
        let space = char_is_whitespace(chars[i]);
        if !space && after_space {
            words += 1;
        }
        after_space = space;
        i += 1;
    }
    assert(chars@.take(i as int) =~= chars@);
    words
}

/// The minutes it takes to read `words` words, rounded up.
pub fn reading_minutes(words: usize) -> (minutes: usize)
    ensures
        minutes == minutes_for(words as nat),
{
    if words % WORDS_PER_MINUTE == 0 {
        words / WORDS_PER_MINUTE
    } else {
        words / WORDS_PER_MINUTE + 1
    }
}

/// The minutes it takes to read the plain text `text`.
pub fn reading_time_of_text(text: &str) -> (minutes: usize)
    ensures
        minutes == minutes_for(word_count(text@)),
{
    reading_minutes(count_words(text))
}

/// The minutes it takes to read the document whose body is `html`: its
/// markup is rendered to plain text, and the words of that are counted.
///
/// Nothing is returned for markup that the renderer is not given: see
/// [`renders_safely`].
pub fn calculate_reading_time(html: &str) -> (minutes: Option<usize>)
    ensures
        minutes is Some <==> renders_safely(html@, WRAP_WIDTH as nat),
        minutes matches Some(m) ==> m == minutes_for(word_count(rendered_text(html@, WRAP_WIDTH as nat))),
{
    if !can_render(html, WRAP_WIDTH) {
        return None;
    }
    let text = render_html(html, WRAP_WIDTH);
    Some(reading_time_of_text(text.as_str()))
}

} // verus!
