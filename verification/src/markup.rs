//! Which markup the text renderer is given.
//!
//! The renderer writes quotes, list items and headings into a column that
//! each level of nesting makes narrower, and it does not come back from
//! markup that leaves it no column to write in.  It lays out tables by
//! rules of their own, lets an ordered list count from a number of its own,
//! and measures some characters differently alone and in a row.  This module
//! says, on the characters of the markup alone, when none of that can
//! happen, so that only such markup is rendered.

use vstd::prelude::*;
use crate::text::{chars_of, decimal_text, digit_value};

verus! {

/// The columns that the renderer is left with at the least.
pub const SPARE_COLUMNS: usize = 2;

/// `c` with an ASCII capital letter made small.
pub open spec fn folded(c: char) -> char {
    if 'A' <= c <= 'Z' {
        ((c as u32) + 32) as char
    } else {
        c
    }
}

/// Whether `word` stands in `html` at position `at`, whatever the case of
/// the ASCII letters of `html`.
pub open spec fn follows_folded(html: Seq<char>, at: int, word: Seq<char>) -> bool {
    &&& 0 <= at
    &&& at + word.len() <= html.len()
    &&& forall|k: int| 0 <= k < word.len() ==> folded(html[at + k]) == #[trigger] word[k]
}

/// Whether a tag whose name begins with `name`, given in small letters, may
/// open at position `at`: an angle bracket stands there and the name right
/// behind it.
pub open spec fn opens(html: Seq<char>, at: int, name: Seq<char>) -> bool {
    0 <= at < html.len() && html[at] == '<' && follows_folded(html, at + 1, name)
}

/// Whether a tag whose name begins with one of `names` may open at `at`.
pub open spec fn opens_any(html: Seq<char>, at: int, names: Seq<Seq<char>>) -> bool {
    exists|k: int| 0 <= k < names.len() && opens(html, at, #[trigger] names[k])
}

/// Whether the renderer's width table sets the character with the code `n`
/// apart: characters that are measured with their neighbours (letters that
/// join, marks that change how the character before them is shown, the
/// characters shown as pictures) and the one character three columns wide.
pub open spec fn special_code(n: u32) -> bool {
    n == 0x5DC || (0x622 <= n <= 0x623) || n == 0x625 || n == 0x627 || (0x671 <= n <= 0x673) ||
        n == 0x675 || (0x773 <= n <= 0x774) || (0x870 <= n <= 0x882) || (0x1780 <= n <= 0x1782) ||
        (0x1784 <= n <= 0x1787) || (0x1789 <= n <= 0x178C) || (0x178E <= n <= 0x1793) ||
        (0x1795 <= n <= 0x1798) || (0x179B <= n <= 0x179D) || n == 0x17A0 || n == 0x17A2 || n == 0x17A7 ||
        (0x17AB <= n <= 0x17AC) || n == 0x17AF || n == 0x17D8 || n == 0x1A10 || (0x231A <= n <= 0x231B) ||
        (0x23E9 <= n <= 0x23EC) || n == 0x23F0 || n == 0x23F3 || (0x25FD <= n <= 0x25FE) ||
        (0x2614 <= n <= 0x2615) || (0x2648 <= n <= 0x2653) || n == 0x267F || n == 0x2693 || n == 0x26A1 ||
        (0x26AA <= n <= 0x26AB) || (0x26BD <= n <= 0x26BE) || (0x26C4 <= n <= 0x26C5) || n == 0x26CE ||
        n == 0x26D4 || n == 0x26EA || (0x26F2 <= n <= 0x26F3) || n == 0x26F5 || n == 0x26FA ||
        n == 0x26FD || n == 0x2705 || (0x270A <= n <= 0x270B) || n == 0x2728 || n == 0x274C ||
        n == 0x274E || (0x2753 <= n <= 0x2755) || n == 0x2757 || (0x2795 <= n <= 0x2797) || n == 0x27B0 ||
        n == 0x27BF || (0x2B1B <= n <= 0x2B1C) || n == 0x2B50 || n == 0x2B55 || (0x2D31 <= n <= 0x2D65) ||
        n == 0x2D6F || (0xA4FC <= n <= 0xA4FD) || (0xFE0E <= n <= 0xFE0F) || n == 0x10C03 ||
        n == 0x1F004 || n == 0x1F0CF || n == 0x1F18E || (0x1F191 <= n <= 0x1F19A) ||
        (0x1F1E6 <= n <= 0x1F1FF) || n == 0x1F201 || n == 0x1F21A || n == 0x1F22F ||
        (0x1F232 <= n <= 0x1F236) || (0x1F238 <= n <= 0x1F23A) || (0x1F250 <= n <= 0x1F251) ||
        (0x1F300 <= n <= 0x1F320) || (0x1F32D <= n <= 0x1F335) || (0x1F337 <= n <= 0x1F37C) ||
        (0x1F37E <= n <= 0x1F393) || (0x1F3A0 <= n <= 0x1F3CA) || (0x1F3CF <= n <= 0x1F3D3) ||
        (0x1F3E0 <= n <= 0x1F3F0) || n == 0x1F3F4 || (0x1F3F8 <= n <= 0x1F43E) || n == 0x1F440 ||
        (0x1F442 <= n <= 0x1F4FC) || (0x1F4FF <= n <= 0x1F53D) || (0x1F54B <= n <= 0x1F54E) ||
        (0x1F550 <= n <= 0x1F567) || n == 0x1F57A || (0x1F595 <= n <= 0x1F596) || n == 0x1F5A4 ||
        (0x1F5FB <= n <= 0x1F64F) || (0x1F680 <= n <= 0x1F6C5) || n == 0x1F6CC ||
        (0x1F6D0 <= n <= 0x1F6D2) || (0x1F6D5 <= n <= 0x1F6D7) || (0x1F6DC <= n <= 0x1F6DF) ||
        (0x1F6EB <= n <= 0x1F6EC) || (0x1F6F4 <= n <= 0x1F6FC) || (0x1F7E0 <= n <= 0x1F7EB) ||
        n == 0x1F7F0 || (0x1F90C <= n <= 0x1F93A) || (0x1F93C <= n <= 0x1F945) ||
        (0x1F947 <= n <= 0x1F9FF) || (0x1FA70 <= n <= 0x1FA7C) || (0x1FA80 <= n <= 0x1FA88) ||
        (0x1FA90 <= n <= 0x1FABD) || (0x1FABF <= n <= 0x1FAC5) || (0x1FACE <= n <= 0x1FADB) ||
        (0x1FAE0 <= n <= 0x1FAE8) || (0x1FAF0 <= n <= 0x1FAF8)
}

/// Whether a character with the code `n` is measured by itself, the same
/// alone and in a row, as at most two columns wide: a tab, a line end,
/// printable ASCII, or any character from U+00A0 on that the width table
/// does not set apart.
pub open spec fn plain_code(n: u32) -> bool {
    n == 0x09 || n == 0x0A || n == 0x0D || (0x20 <= n <= 0x7E) || (0xA0 <= n && !special_code(n))
}

/// Whether `c` is a character that is measured by itself.
pub open spec fn plain_char(c: char) -> bool {
    plain_code(c as u32)
}

/// Whether `c` is a digit of a numeric character reference: a decimal digit,
/// or with `hex` a hexadecimal one.
pub open spec fn reference_digit(c: char, hex: bool) -> bool {
    ('0' <= c <= '9') || (hex && (('a' <= c <= 'f') || ('A' <= c <= 'F')))
}

/// The number that a digit of a numeric character reference stands for.
pub open spec fn reference_digit_value(c: char) -> nat {
    if '0' <= c <= '9' {
        (c as u32 - 48) as nat
    } else if 'a' <= c <= 'f' {
        (c as u32 - 87) as nat
    } else {
        (c as u32 - 55) as nat
    }
}

/// The end of the digits that begin at `from`: the first position from there
/// on that holds no digit.
pub open spec fn digits_end(html: Seq<char>, from: int, hex: bool) -> int
    decreases html.len() - from,
{
    if 0 <= from < html.len() && reference_digit(html[from], hex) {
        digits_end(html, from + 1, hex)
    } else {
        from
    }
}

/// The number that the digits of `html[from..to]` write in base `base`.
pub open spec fn digits_value(html: Seq<char>, from: int, to: int, base: nat) -> nat
    decreases to - from,
{
    if to <= from {
        0
    } else {
        digits_value(html, from, to - 1, base) * base + reference_digit_value(html[to - 1])
    }
}

/// Whether the numeric character reference that begins with the ampersand at
/// `at` is one that is rendered: `&#`, one to seven decimal digits or `x`
/// and one to six hexadecimal digits, a semicolon, and the number is the
/// code of a character that is measured by itself.
pub open spec fn numeric_reference_plain(html: Seq<char>, at: int) -> bool {
    let hex = at + 2 < html.len() && (html[at + 2] == 'x' || html[at + 2] == 'X');
    let from = if hex {
        at + 3
    } else {
        at + 2
    };
    let end = digits_end(html, from, hex);
    let base: nat = if hex {
        16
    } else {
        10
    };
    &&& from < end
    &&& end - from <= (if hex {
        6int
    } else {
        7int
    })
    &&& end < html.len()
    &&& html[end] == ';'
    &&& digits_value(html, from, end, base) <= u32::MAX
    &&& plain_code(digits_value(html, from, end, base) as u32)
}

/// The names of the elements of a table that the renderer lays out.
pub open spec fn table_names() -> Seq<Seq<char>> {
    seq!["table"@, "thead"@, "tbody"@, "tr"@, "th"@, "td"@]
}

/// Whether `c` ends the name of a tag: white space, a slash or a closing
/// angle bracket.
pub open spec fn ends_name(c: char) -> bool {
    c == '\t' || c == '\n' || c == '\x0C' || c == '\r' || c == ' ' || c == '/' || c == '>'
}

/// Whether a tag with the name `name`, given in small letters, may open at
/// position `at`: an angle bracket stands there, the name right behind it,
/// and the name ends there.
pub open spec fn opens_named(html: Seq<char>, at: int, name: Seq<char>) -> bool {
    opens(html, at, name) && (at + 1 + name.len() < html.len() ==> ends_name(html[at + 1 + name.len()]))
}

/// Whether a tag with one of the names `names` may open at `at`.
pub open spec fn opens_named_any(html: Seq<char>, at: int, names: Seq<Seq<char>>) -> bool {
    exists|k: int| 0 <= k < names.len() && opens_named(html, at, #[trigger] names[k])
}

/// Where the reading of a tag stands behind the tag's name.
#[derive(Clone, Copy, PartialEq, Eq, Structural)]
pub enum TagState {
    /// Before the name of an attribute.
    BeforeName,
    /// In the name of an attribute.
    Name,
    /// Behind the name of an attribute.
    AfterName,
    /// Behind the equals sign, before the value.
    BeforeValue,
    /// In a value between double quotes.
    Double,
    /// In a value between single quotes.
    Single,
    /// In a value without quotes.
    Unquoted,
    /// Behind the closing quote of a value.
    AfterValue,
    /// Behind the slash of a tag that closes itself.
    SelfClosing,
}

/// Whether `c` is white space inside a tag.
pub open spec fn tag_space(c: char) -> bool {
    c == '\t' || c == '\n' || c == '\x0C' || c == '\r' || c == ' '
}

/// Where the reading of a tag stands after the character `c`, as the HTML
/// standard has it; nothing where `c` ends the tag.
pub open spec fn tag_step(state: TagState, c: char) -> Option<TagState> {
    match state {
        TagState::Double => if c == '"' {
            Some(TagState::AfterValue)
        } else {
            Some(TagState::Double)
        },
        TagState::Single => if c == '\'' {
            Some(TagState::AfterValue)
        } else {
            Some(TagState::Single)
        },
        TagState::Unquoted => if tag_space(c) {
            Some(TagState::BeforeName)
        } else if c == '>' {
            None
        } else {
            Some(TagState::Unquoted)
        },
        TagState::BeforeValue => if tag_space(c) {
            Some(TagState::BeforeValue)
        } else if c == '"' {
            Some(TagState::Double)
        } else if c == '\'' {
            Some(TagState::Single)
        } else if c == '>' {
            None
        } else {
            Some(TagState::Unquoted)
        },
        TagState::Name | TagState::AfterName => if tag_space(c) {
            Some(TagState::AfterName)
        } else if c == '/' {
            Some(TagState::SelfClosing)
        } else if c == '=' {
            Some(TagState::BeforeValue)
        } else if c == '>' {
            None
        } else {
            Some(TagState::Name)
        },
        TagState::BeforeName | TagState::AfterValue | TagState::SelfClosing => if tag_space(c) {
            Some(TagState::BeforeName)
        } else if c == '/' {
            Some(TagState::SelfClosing)
        } else if c == '>' {
            None
        } else {
            Some(TagState::Name)
        },
    }
}

/// The position of the character that ends the tag read from `from` on in
/// the state `state`, or the length of `html` where the tag does not end.
pub open spec fn tag_end(html: Seq<char>, from: int, state: TagState) -> int
    decreases html.len() - from,
{
    if 0 <= from < html.len() {
        match tag_step(state, html[from]) {
            Some(next) => tag_end(html, from + 1, next),
            None => from,
        }
    } else {
        html.len() as int
    }
}

/// Whether the word `start` begins somewhere in `html[from..to]`, whatever
/// the case of its letters.
pub open spec fn start_within(html: Seq<char>, from: int, to: int) -> bool {
    exists|j: int| from <= j < to && #[trigger] follows_folded(html, j, "start"@)
}

/// Whether the ordered list whose tag may open at `at` counts from one: the
/// tag, read to its end, holds the word `start` nowhere, so that it has no
/// attribute of that name.
pub open spec fn counts_from_one(html: Seq<char>, at: int) -> bool {
    !start_within(html, at + 3, tag_end(html, at + 3, TagState::BeforeName))
}

/// The names of the elements that are counted with two columns each:
/// quotes, unordered lists and the descriptions of a description list, whose
/// content is written two columns in, and description lists themselves,
/// which take no column but which the renderer follows, like the other
/// lists, by calling itself once for each level of nesting.
pub open spec fn indenting_names() -> Seq<Seq<char>> {
    seq!["blockquote"@, "ul"@, "dd"@, "dl"@]
}

/// The level of the heading that may open at `at`, one to four, or zero where
/// none may.
pub open spec fn heading_level(html: Seq<char>, at: int) -> nat {
    if opens(html, at, "h"@) && at + 2 < html.len() && '1' <= html[at + 2] <= '4' {
        digit_value(html[at + 2])
    } else {
        0
    }
}

/// Whether the character at `at` is one that the renderer is given:
///
/// - it is a character that is measured by itself;
/// - where it begins a numeric character reference, that reference stands
///   for such a character (every named reference does);
/// - no element of a table opens there;
/// - an ordered list that opens there counts from one.
pub open spec fn position_renders(html: Seq<char>, at: int) -> bool {
    &&& plain_char(html[at])
    &&& html[at] == '&' && at + 1 < html.len() && html[at + 1] == '#' ==> numeric_reference_plain(html, at)
    &&& !opens_named_any(html, at, table_names())
    &&& opens(html, at, "ol"@) ==> counts_from_one(html, at)
}

/// By how many columns the tag that may open at `at` can make the column
/// narrower for what is nested in it: two for a quote, an unordered list, a
/// description or a description list; the widest item number, a dot and a space for an ordered
/// list, `item_digits` being the digits of the widest item number there can
/// be; the marks and a space for a heading.
pub open spec fn narrowing_at(html: Seq<char>, at: int, item_digits: nat) -> nat {
    (if opens_any(html, at, indenting_names()) {
        2nat
    } else {
        0nat
    }) + (if opens(html, at, "ol"@) {
        item_digits + 2
    } else {
        0nat
    }) + (if heading_level(html, at) > 0 {
        heading_level(html, at) + 1
    } else {
        0nat
    })
}

/// The sum of `narrowing_at` over the first `n` positions.
pub open spec fn narrowing_upto(html: Seq<char>, n: int, item_digits: nat) -> nat
    decreases n,
{
    if n <= 0 {
        0
    } else {
        narrowing_upto(html, n - 1, item_digits) + narrowing_at(html, n - 1, item_digits)
    }
}

/// How many of the first `n` positions may open a tag whose name begins with
/// `name`.
pub open spec fn openers_upto(html: Seq<char>, n: int, name: Seq<char>) -> nat
    decreases n,
{
    if n <= 0 {
        0
    } else {
        openers_upto(html, n - 1, name) + if opens(html, n - 1, name) {
            1nat
        } else {
            0nat
        }
    }
}

/// The digits of the widest item number an ordered list of `html` can have:
/// those of the number of list items that may open anywhere in `html`.
pub open spec fn item_digits(html: Seq<char>) -> nat {
    decimal_text(openers_upto(html, html.len() as int, "li"@)).len()
}

/// An upper bound on the columns that nesting can take from the column in
/// which `html` is rendered: the narrowing of every tag that may open in
/// `html`, whether nested or not.
pub open spec fn narrowing(html: Seq<char>) -> nat {
    narrowing_upto(html, html.len() as int, item_digits(html))
}

/// Whether `html` is markup that the renderer is given at `width` columns:
/// every position renders, and whatever is nested is left with at least
/// `SPARE_COLUMNS` columns.
pub open spec fn renders_safely(html: Seq<char>, width: nat) -> bool {
    &&& forall|at: int| 0 <= at < html.len() ==> position_renders(html, at)
    &&& narrowing(html) + SPARE_COLUMNS <= width
}

/// The narrowing only grows along the markup.
pub proof fn lemma_narrowing_grows(html: Seq<char>, m: int, n: int, item_digits: nat)
    requires
        m <= n,
    ensures
        narrowing_upto(html, m, item_digits) <= narrowing_upto(html, n, item_digits),
    decreases n - m,
{
    if m < n {
        lemma_narrowing_grows(html, m, n - 1, item_digits);
    }
}

/// There are no more openers than positions.
pub proof fn lemma_openers_bound(html: Seq<char>, n: int, name: Seq<char>)
    requires
        0 <= n,
    ensures
        openers_upto(html, n, name) <= n,
    decreases n,
{
    if n > 0 {
        lemma_openers_bound(html, n - 1, name);
    }
}

/// `c` with an ASCII capital letter made small.
fn fold(c: char) -> (r: char)
    ensures
        r == folded(c),
{
    if c >= 'A' && c <= 'Z' {
        ((c as u32 + 32) as u8) as char
    } else {
        c
    }
}

/// Whether `word` stands in `html` at position `at`, whatever the case of
/// the ASCII letters of `html`.
fn stands_at(html: &Vec<char>, at: usize, word: &Vec<char>) -> (r: bool)
    ensures
        r == follows_folded(html@, at as int, word@),
{
    if at > html.len() || word.len() > html.len() - at {
        return false;
    }
    let mut k: usize = 0;
    while k < word.len()
        invariant
            k <= word.len(),
            at + word.len() <= html.len(),
            forall|j: int| 0 <= j < k ==> folded(html@[at + j]) == #[trigger] word@[j],
        decreases word.len() - k,
    {
        if fold(html[at + k]) != word[k] {
            assert(word@[k as int] == word@[k as int]);
            return false;
        }
        k += 1;
    }
    true
}

/// Whether a tag whose name begins with `name` may open at `at`.
fn may_open(html: &Vec<char>, at: usize, name: &Vec<char>) -> (r: bool)
    requires
        at < html.len(),
    ensures
        r == opens(html@, at as int, name@),
{
    html[at] == '<' && stands_at(html, at + 1, name)
}

/// Whether a tag with the name `name` may open at `at`.
fn may_open_named(html: &Vec<char>, at: usize, name: &Vec<char>) -> (r: bool)
    requires
        at < html.len(),
    ensures
        r == opens_named(html@, at as int, name@),
{
    if !may_open(html, at, name) {
        return false;
    }
    let behind = at + 1 + name.len();
    if behind >= html.len() {
        return true;
    }
    let c = html[behind];
    c == '\t' || c == '\n' || c == '\x0C' || c == '\r' || c == ' ' || c == '/' || c == '>'
}

/// The views of `words`, one by one.
pub open spec fn word_views(words: Seq<Vec<char>>) -> Seq<Seq<char>> {
    Seq::new(words.len(), |i: int| words[i]@)
}

/// Whether a tag whose name begins with one of `names` may open at `at`.
fn any_may_open(html: &Vec<char>, at: usize, names: &Vec<Vec<char>>) -> (r: bool)
    requires
        at < html.len(),
    ensures
        r == opens_any(html@, at as int, word_views(names@)),
{
    let mut k: usize = 0;
    while k < names.len()
        invariant
            k <= names.len(),
            at < html.len(),
            forall|j: int| 0 <= j < k ==> !opens(html@, at as int, #[trigger] word_views(names@)[j]),
        decreases names.len() - k,
    {
        if may_open(html, at, &names[k]) {
            assert(opens(html@, at as int, word_views(names@)[k as int]));
            return true;
        }
        k += 1;
    }
    false
}

/// Whether a tag with one of the names `names` may open at `at`.
fn any_may_open_named(html: &Vec<char>, at: usize, names: &Vec<Vec<char>>) -> (r: bool)
    requires
        at < html.len(),
    ensures
        r == opens_named_any(html@, at as int, word_views(names@)),
{
    let mut k: usize = 0;
    while k < names.len()
        invariant
            k <= names.len(),
            at < html.len(),
            forall|j: int| 0 <= j < k ==> !opens_named(html@, at as int, #[trigger] word_views(names@)[j]),
        decreases names.len() - k,
    {
        if may_open_named(html, at, &names[k]) {
            assert(opens_named(html@, at as int, word_views(names@)[k as int]));
            return true;
        }
        k += 1;
    }
    false
}

/// Whether the renderer's width table sets the character with the code `n`
/// apart.
fn is_special_code(n: u32) -> (r: bool)
    ensures
        r == special_code(n),
{
    n == 0x5DC || (0x622 <= n && n <= 0x623) || n == 0x625 || n == 0x627 || (0x671 <= n && n <= 0x673) ||
        n == 0x675 || (0x773 <= n && n <= 0x774) || (0x870 <= n && n <= 0x882) ||
        (0x1780 <= n && n <= 0x1782) || (0x1784 <= n && n <= 0x1787) || (0x1789 <= n && n <= 0x178C) ||
        (0x178E <= n && n <= 0x1793) || (0x1795 <= n && n <= 0x1798) || (0x179B <= n && n <= 0x179D) ||
        n == 0x17A0 || n == 0x17A2 || n == 0x17A7 || (0x17AB <= n && n <= 0x17AC) || n == 0x17AF ||
        n == 0x17D8 || n == 0x1A10 || (0x231A <= n && n <= 0x231B) || (0x23E9 <= n && n <= 0x23EC) ||
        n == 0x23F0 || n == 0x23F3 || (0x25FD <= n && n <= 0x25FE) || (0x2614 <= n && n <= 0x2615) ||
        (0x2648 <= n && n <= 0x2653) || n == 0x267F || n == 0x2693 || n == 0x26A1 ||
        (0x26AA <= n && n <= 0x26AB) || (0x26BD <= n && n <= 0x26BE) || (0x26C4 <= n && n <= 0x26C5) ||
        n == 0x26CE || n == 0x26D4 || n == 0x26EA || (0x26F2 <= n && n <= 0x26F3) || n == 0x26F5 ||
        n == 0x26FA || n == 0x26FD || n == 0x2705 || (0x270A <= n && n <= 0x270B) || n == 0x2728 ||
        n == 0x274C || n == 0x274E || (0x2753 <= n && n <= 0x2755) || n == 0x2757 ||
        (0x2795 <= n && n <= 0x2797) || n == 0x27B0 || n == 0x27BF || (0x2B1B <= n && n <= 0x2B1C) ||
        n == 0x2B50 || n == 0x2B55 || (0x2D31 <= n && n <= 0x2D65) || n == 0x2D6F ||
        (0xA4FC <= n && n <= 0xA4FD) || (0xFE0E <= n && n <= 0xFE0F) || n == 0x10C03 || n == 0x1F004 ||
        n == 0x1F0CF || n == 0x1F18E || (0x1F191 <= n && n <= 0x1F19A) || (0x1F1E6 <= n && n <= 0x1F1FF) ||
        n == 0x1F201 || n == 0x1F21A || n == 0x1F22F || (0x1F232 <= n && n <= 0x1F236) ||
        (0x1F238 <= n && n <= 0x1F23A) || (0x1F250 <= n && n <= 0x1F251) ||
        (0x1F300 <= n && n <= 0x1F320) || (0x1F32D <= n && n <= 0x1F335) ||
        (0x1F337 <= n && n <= 0x1F37C) || (0x1F37E <= n && n <= 0x1F393) ||
        (0x1F3A0 <= n && n <= 0x1F3CA) || (0x1F3CF <= n && n <= 0x1F3D3) ||
        (0x1F3E0 <= n && n <= 0x1F3F0) || n == 0x1F3F4 || (0x1F3F8 <= n && n <= 0x1F43E) || n == 0x1F440 ||
        (0x1F442 <= n && n <= 0x1F4FC) || (0x1F4FF <= n && n <= 0x1F53D) ||
        (0x1F54B <= n && n <= 0x1F54E) || (0x1F550 <= n && n <= 0x1F567) || n == 0x1F57A ||
        (0x1F595 <= n && n <= 0x1F596) || n == 0x1F5A4 || (0x1F5FB <= n && n <= 0x1F64F) ||
        (0x1F680 <= n && n <= 0x1F6C5) || n == 0x1F6CC || (0x1F6D0 <= n && n <= 0x1F6D2) ||
        (0x1F6D5 <= n && n <= 0x1F6D7) || (0x1F6DC <= n && n <= 0x1F6DF) ||
        (0x1F6EB <= n && n <= 0x1F6EC) || (0x1F6F4 <= n && n <= 0x1F6FC) ||
        (0x1F7E0 <= n && n <= 0x1F7EB) || n == 0x1F7F0 || (0x1F90C <= n && n <= 0x1F93A) ||
        (0x1F93C <= n && n <= 0x1F945) || (0x1F947 <= n && n <= 0x1F9FF) ||
        (0x1FA70 <= n && n <= 0x1FA7C) || (0x1FA80 <= n && n <= 0x1FA88) ||
        (0x1FA90 <= n && n <= 0x1FABD) || (0x1FABF <= n && n <= 0x1FAC5) ||
        (0x1FACE <= n && n <= 0x1FADB) || (0x1FAE0 <= n && n <= 0x1FAE8) || (0x1FAF0 <= n && n <= 0x1FAF8)
}

/// Whether a character with the code `n` is measured by itself.
fn is_plain_code(n: u32) -> (r: bool)
    ensures
        r == plain_code(n),
{
    n == 0x09 || n == 0x0A || n == 0x0D || (0x20 <= n && n <= 0x7E) || (0xA0 <= n && !is_special_code(n))
}

/// Whether `c` is a digit of a numeric character reference.
fn is_reference_digit(c: char, hex: bool) -> (r: bool)
    ensures
        r == reference_digit(c, hex),
{
    (c >= '0' && c <= '9') || (hex && ((c >= 'a' && c <= 'f') || (c >= 'A' && c <= 'F')))
}

/// A bound on the number that `count` digits write: sixteen to the power of
/// `count`, for up to seven digits.
pub open spec fn digits_bound(count: int) -> int {
    if count <= 0 {
        1
    } else if count == 1 {
        0x10
    } else if count == 2 {
        0x100
    } else if count == 3 {
        0x1000
    } else if count == 4 {
        0x10000
    } else if count == 5 {
        0x100000
    } else if count == 6 {
        0x1000000
    } else {
        0x10000000
    }
}

/// The digits that begin at `from` do not end before `from`.
pub proof fn lemma_digits_end(html: Seq<char>, from: int, hex: bool)
    requires
        0 <= from <= html.len(),
    ensures
        from <= digits_end(html, from, hex) <= html.len(),
    decreases html.len() - from,
{
    if from < html.len() && reference_digit(html[from], hex) {
        lemma_digits_end(html, from + 1, hex);
    }
}

/// Whether the numeric character reference that begins with the ampersand at
/// `at` is one that is rendered.
fn numeric_reference_is_plain(html: &Vec<char>, at: usize) -> (r: bool)
    requires
        at + 1 < html.len(),
    ensures
        r == numeric_reference_plain(html@, at as int),
{
    let n = html.len();
    let hex = n - at > 2 && (html[at + 2] == 'x' || html[at + 2] == 'X');
    let from: usize = if hex {
        at + 3
    } else {
        at + 2
    };
    let most: usize = if hex {
        6
    } else {
        7
    };
    let ghost base: nat = if hex {
        16
    } else {
        10
    };
    let mut value: u32 = 0;
    let mut i: usize = from;
    while i < n && is_reference_digit(html[i], hex)
        invariant
            from <= i <= n,
            n == html.len(),
            i - from <= most,
            hex ==> most == 6 && base == 16,
            !hex ==> most == 7 && base == 10,
            hex == (at + 2 < html@.len() && (html@[at + 2] == 'x' || html@[at + 2] == 'X')),
            from == (if hex {
                at + 3
            } else {
                at + 2
            }),
            digits_end(html@, from as int, hex) == digits_end(html@, i as int, hex),
            value == digits_value(html@, from as int, i as int, base),
            value < digits_bound(i - from),
        decreases n - i,
    {
        if i - from == most {
            proof {
                lemma_digits_end(html@, i + 1, hex);
                assert(digits_end(html@, i as int, hex) == digits_end(html@, i + 1, hex));
            }
            return false;
        }
        let c = html[i];
        let d: u32 = if c >= '0' && c <= '9' {
            c as u32 - 48
        } else if c >= 'a' && c <= 'f' {
            c as u32 - 87
        } else {
            c as u32 - 55
        };
        assert(d == reference_digit_value(c));
        assert(d < 16);
        assert(!hex ==> d < 10);
        value = if hex {
            value * 16 + d
        } else {
            value * 10 + d
        };
        i += 1;
    }
    if i == from || i >= n {
        return false;
    }
    if html[i] != ';' {
        return false;
    }
    is_plain_code(value)
}

/// Where the reading of a tag stands after the character `c`.
fn next_state(state: TagState, c: char) -> (r: Option<TagState>)
    ensures
        r == tag_step(state, c),
{
    let space = c == '\t' || c == '\n' || c == '\x0C' || c == '\r' || c == ' ';
    match state {
        TagState::Double => if c == '"' {
            Some(TagState::AfterValue)
        } else {
            Some(TagState::Double)
        },
        TagState::Single => if c == '\'' {
            Some(TagState::AfterValue)
        } else {
            Some(TagState::Single)
        },
        TagState::Unquoted => if space {
            Some(TagState::BeforeName)
        } else if c == '>' {
            None
        } else {
            Some(TagState::Unquoted)
        },
        TagState::BeforeValue => if space {
            Some(TagState::BeforeValue)
        } else if c == '"' {
            Some(TagState::Double)
        } else if c == '\'' {
            Some(TagState::Single)
        } else if c == '>' {
            None
        } else {
            Some(TagState::Unquoted)
        },
        TagState::Name | TagState::AfterName => if space {
            Some(TagState::AfterName)
        } else if c == '/' {
            Some(TagState::SelfClosing)
        } else if c == '=' {
            Some(TagState::BeforeValue)
        } else if c == '>' {
            None
        } else {
            Some(TagState::Name)
        },
        TagState::BeforeName | TagState::AfterValue | TagState::SelfClosing => if space {
            Some(TagState::BeforeName)
        } else if c == '/' {
            Some(TagState::SelfClosing)
        } else if c == '>' {
            None
        } else {
            Some(TagState::Name)
        },
    }
}

/// The position of the character that ends the tag whose name ends before
/// `from`, or the length of `html` where the tag does not end.
fn find_tag_end(html: &Vec<char>, from: usize) -> (end: usize)
    requires
        from <= html.len(),
    ensures
        end == tag_end(html@, from as int, TagState::BeforeName),
        from <= end <= html.len(),
{
    let mut state = TagState::BeforeName;
    let mut i: usize = from;
    while i < html.len()
        invariant
            from <= i <= html.len(),
            tag_end(html@, from as int, TagState::BeforeName) == tag_end(html@, i as int, state),
        decreases html.len() - i,
    {
        match next_state(state, html[i]) {
            Some(next) => {
                state = next;
            },
            None => {
                return i;
            },
        }
        i += 1;
    }
    i
}

/// Whether the word `start` begins somewhere in `html[from..to]`.
fn find_start(html: &Vec<char>, from: usize, to: usize, start: &Vec<char>) -> (r: bool)
    requires
        start@ == "start"@,
    ensures
        r == start_within(html@, from as int, to as int),
{
    let mut j: usize = from;
    while j < to
        invariant
            from <= j,
            start@ == "start"@,
            forall|k: int| from <= k < j ==> !#[trigger] follows_folded(html@, k, "start"@),
        decreases to - j,
    {
        if stands_at(html, j, start) {
            return true;
        }
        j += 1;
    }
    false
}

/// The names of the elements of a table that the renderer lays out.
fn table_list() -> (names: Vec<Vec<char>>)
    ensures
        word_views(names@) == table_names(),
{
    let mut names: Vec<Vec<char>> = Vec::new();
    names.push(chars_of("table"));
    names.push(chars_of("thead"));
    names.push(chars_of("tbody"));
    names.push(chars_of("tr"));
    names.push(chars_of("th"));
    names.push(chars_of("td"));
    assert(word_views(names@) =~= table_names());
    names
}

/// The names of the elements that are counted with two columns each.
fn indenting_list() -> (names: Vec<Vec<char>>)
    ensures
        word_views(names@) == indenting_names(),
{
    let mut names: Vec<Vec<char>> = Vec::new();
    names.push(chars_of("blockquote"));
    names.push(chars_of("ul"));
    names.push(chars_of("dd"));
    names.push(chars_of("dl"));
    assert(word_views(names@) =~= indenting_names());
    names
}

/// The number of digits of `n` written in base ten.
fn decimal_digits(n: usize) -> (digits: usize)
    ensures
        digits == decimal_text(n as nat).len(),
        1 <= digits <= n / 10 + 1,
    decreases n,
{
    if n < 10 {
        1
    } else {
        decimal_digits(n / 10) + 1
    }
}

/// The level of the heading that may open at `at`, or zero.
fn heading_level_at(html: &Vec<char>, at: usize, heading: &Vec<char>) -> (level: usize)
    requires
        at < html.len(),
        heading@ == "h"@,
    ensures
        level == heading_level(html@, at as int),
        level <= 4,
{
    if may_open(html, at, heading) && html.len() - at > 2 {
        let c = html[at + 2];
        if c >= '1' && c <= '4' {
            return (c as u32 - '0' as u32) as usize;
        }
    }
    0
}

/// Whether `html` is markup that the renderer is given at `width` columns.
pub fn can_render(html: &str, width: usize) -> (r: bool)
    ensures
        r == renders_safely(html@, width as nat),
{
    let chars = chars_of(html);
    let tables = table_list();
    let indenting = indenting_list();
    let ordered = chars_of("ol");
    let start = chars_of("start");
    let heading = chars_of("h");
    let item = chars_of("li");
    let n = chars.len();

    let mut items: usize = 0;
    let mut i: usize = 0;
    while i < n
        invariant
            i <= n,
            n == chars.len(),
            item@ == "li"@,
            items == openers_upto(chars@, i as int, "li"@),
            items <= i,
        decreases n - i,
    {
        if may_open(&chars, i, &item) {
            items += 1;
        }
        i += 1;
    }
    let digits = decimal_digits(items);
    assert(digits == item_digits(html@));

    if width < SPARE_COLUMNS {
        return false;
    }
    let room = width - SPARE_COLUMNS;
    let mut taken: usize = 0;
    let mut at: usize = 0;
    while at < n
        invariant
            at <= n,
            n == chars.len(),
            chars@ == html@,
            word_views(tables@) == table_names(),
            word_views(indenting@) == indenting_names(),
            ordered@ == "ol"@,
            start@ == "start"@,
            heading@ == "h"@,
            digits == item_digits(html@),
            digits <= n / 10 + 1,
            room + SPARE_COLUMNS == width,
            taken == narrowing_upto(chars@, at as int, digits as nat),
            taken <= room,
            forall|j: int| 0 <= j < at ==> position_renders(chars@, j),
        decreases n - at,
    {
        let c = chars[at];
        let opens_ordered = may_open(&chars, at, &ordered);
        proof {
            reveal_strlit("ol");
        }
        let mut renders = is_plain_code(c as u32) && !any_may_open_named(&chars, at, &tables);
        if renders && c == '&' && n - at > 1 && chars[at + 1] == '#' {
            renders = numeric_reference_is_plain(&chars, at);
        }
        if renders && opens_ordered {
            let end = find_tag_end(&chars, at + 3);
            renders = !find_start(&chars, at + 3, end, &start);
        }
        if !renders {
            assert(!position_renders(chars@, at as int));
            return false;
        }
        assert(position_renders(chars@, at as int));
        let level = heading_level_at(&chars, at, &heading);
        let mut cost: usize = 0;
        if any_may_open(&chars, at, &indenting) {
            cost += 2;
        }
        if opens_ordered {
            cost += digits + 2;
        }
        if level > 0 {
            cost += level + 1;
        }
        assert(cost == narrowing_at(chars@, at as int, digits as nat));
        if cost > room - taken {
            proof {
                lemma_narrowing_grows(chars@, at + 1, n as int, digits as nat);
            }
            return false;
        }
        taken += cost;
        at += 1;
    }
    true
}

} // verus!
