use content_engine::markup::{can_render, SPARE_COLUMNS};
use content_engine::reading_time::calculate_reading_time;

/// The characters that are measured with their neighbours, or as three
/// columns wide.
const SET_APART: [(u32, u32); 107] = [
    (0x5DC, 0x5DC), (0x622, 0x623), (0x625, 0x625), (0x627, 0x627), (0x671, 0x673), (0x675, 0x675),
    (0x773, 0x774), (0x870, 0x882), (0x1780, 0x1782), (0x1784, 0x1787), (0x1789, 0x178C),
    (0x178E, 0x1793), (0x1795, 0x1798), (0x179B, 0x179D), (0x17A0, 0x17A0), (0x17A2, 0x17A2),
    (0x17A7, 0x17A7), (0x17AB, 0x17AC), (0x17AF, 0x17AF), (0x17D8, 0x17D8), (0x1A10, 0x1A10),
    (0x231A, 0x231B), (0x23E9, 0x23EC), (0x23F0, 0x23F0), (0x23F3, 0x23F3), (0x25FD, 0x25FE),
    (0x2614, 0x2615), (0x2648, 0x2653), (0x267F, 0x267F), (0x2693, 0x2693), (0x26A1, 0x26A1),
    (0x26AA, 0x26AB), (0x26BD, 0x26BE), (0x26C4, 0x26C5), (0x26CE, 0x26CE), (0x26D4, 0x26D4),
    (0x26EA, 0x26EA), (0x26F2, 0x26F3), (0x26F5, 0x26F5), (0x26FA, 0x26FA), (0x26FD, 0x26FD),
    (0x2705, 0x2705), (0x270A, 0x270B), (0x2728, 0x2728), (0x274C, 0x274C), (0x274E, 0x274E),
    (0x2753, 0x2755), (0x2757, 0x2757), (0x2795, 0x2797), (0x27B0, 0x27B0), (0x27BF, 0x27BF),
    (0x2B1B, 0x2B1C), (0x2B50, 0x2B50), (0x2B55, 0x2B55), (0x2D31, 0x2D65), (0x2D6F, 0x2D6F),
    (0xA4FC, 0xA4FD), (0xFE0E, 0xFE0F), (0x10C03, 0x10C03), (0x1F004, 0x1F004), (0x1F0CF, 0x1F0CF),
    (0x1F18E, 0x1F18E), (0x1F191, 0x1F19A), (0x1F1E6, 0x1F1FF), (0x1F201, 0x1F201),
    (0x1F21A, 0x1F21A), (0x1F22F, 0x1F22F), (0x1F232, 0x1F236), (0x1F238, 0x1F23A),
    (0x1F250, 0x1F251), (0x1F300, 0x1F320), (0x1F32D, 0x1F335), (0x1F337, 0x1F37C),
    (0x1F37E, 0x1F393), (0x1F3A0, 0x1F3CA), (0x1F3CF, 0x1F3D3), (0x1F3E0, 0x1F3F0),
    (0x1F3F4, 0x1F3F4), (0x1F3F8, 0x1F43E), (0x1F440, 0x1F440), (0x1F442, 0x1F4FC),
    (0x1F4FF, 0x1F53D), (0x1F54B, 0x1F54E), (0x1F550, 0x1F567), (0x1F57A, 0x1F57A),
    (0x1F595, 0x1F596), (0x1F5A4, 0x1F5A4), (0x1F5FB, 0x1F64F), (0x1F680, 0x1F6C5),
    (0x1F6CC, 0x1F6CC), (0x1F6D0, 0x1F6D2), (0x1F6D5, 0x1F6D7), (0x1F6DC, 0x1F6DF),
    (0x1F6EB, 0x1F6EC), (0x1F6F4, 0x1F6FC), (0x1F7E0, 0x1F7EB), (0x1F7F0, 0x1F7F0),
    (0x1F90C, 0x1F93A), (0x1F93C, 0x1F945), (0x1F947, 0x1F9FF), (0x1FA70, 0x1FA7C),
    (0x1FA80, 0x1FA88), (0x1FA90, 0x1FABD), (0x1FABF, 0x1FAC5), (0x1FACE, 0x1FADB),
    (0x1FAE0, 0x1FAE8), (0x1FAF0, 0x1FAF8),
];

fn nested(open: &str, close: &str, depth: usize, inside: &str) -> String {
    format!("{}{}{}", open.repeat(depth), inside, close.repeat(depth))
}

fn is_plain(c: char) -> bool {
    let n = c as u32;
    n == 0x09
        || n == 0x0A
        || n == 0x0D
        || (0x20..=0x7E).contains(&n)
        || (n >= 0xA0 && !SET_APART.iter().any(|&(first, last)| first <= n && n <= last))
}

/// Markup that puts long runs of `c` into the narrowest column there is.
fn in_the_narrowest_column(c: char) -> String {
    let run: String = std::iter::repeat(c).take(9).collect();
    nested(
        "<blockquote>",
        "",
        39,
        &format!("<strong>{}</strong>{}<em>{}</em> <pre>{}</pre> <a href=\"{}\">{}</a>", run, run, run, run, run, run),
    )
}

fn is_rendered_in_the_narrowest_column(code: u32) {
    let c = match char::from_u32(code) {
        Some(c) if is_plain(c) && c != '&' && c != '<' => c,
        _ => return,
    };
    let html = in_the_narrowest_column(c);
    assert!(can_render(&html, 80), "{:x}", code);
    assert!(calculate_reading_time(&html).is_some(), "{:x}", code);
}

#[test]
fn two_columns_are_spared() {
    assert_eq!(SPARE_COLUMNS, 2);
    assert!(can_render("", 2));
    assert!(!can_render("", 1));
    assert!(!can_render("", 0));
    assert!(can_render("word", 2));
    assert!(!can_render("word", 1));
    assert!(!can_render("word", 0));
}

#[test]
fn quotes_take_two_columns_each() {
    assert!(can_render("<blockquote>a</blockquote>", 4));
    assert!(!can_render("<blockquote>a</blockquote>", 3));
    assert!(can_render(&nested("<blockquote>", "</blockquote>", 39, "word"), 80));
    assert!(!can_render(&nested("<blockquote>", "</blockquote>", 40, "word"), 80));
    assert!(!can_render(&nested("<blockquote>", "</blockquote>", 41, "word"), 80));
    assert!(!can_render(&nested("<BlockQuote>", "", 40, "word"), 80));
}

#[test]
fn quotes_are_counted_nested_or_not() {
    let html = "<blockquote>a</blockquote>".repeat(39);
    assert!(can_render(&html, 80));
    let html = "<blockquote>a</blockquote>".repeat(40);
    assert!(!can_render(&html, 80));
}

#[test]
fn lists_and_descriptions_take_two_columns_each() {
    assert!(can_render("<ul><li>a</li></ul>", 4));
    assert!(!can_render("<ul><li>a</li></ul>", 3));
    assert!(can_render("<dl><dt>a</dt><dd>b</dd></dl>", 6));
    assert!(!can_render("<dl><dt>a</dt><dd>b</dd></dl>", 5));
    assert!(can_render("<UL><LI>a</LI></UL>", 4));
    assert!(!can_render("<UL><LI>a</LI></UL>", 3));
}

#[test]
fn ordered_lists_take_the_digits_of_their_items() {
    let nine = format!("<ol>{}</ol>", "<li>a</li>".repeat(9));
    assert!(can_render(&nine, 5));
    assert!(!can_render(&nine, 4));
    let ten = format!("<ol>{}</ol>", "<li>a</li>".repeat(10));
    assert!(can_render(&ten, 6));
    assert!(!can_render(&ten, 5));
    let none = "<ol></ol>";
    assert!(can_render(none, 5));
    assert!(!can_render(none, 4));
    let two_lists = format!("<ol>{}</ol><ol></ol>", "<li>a</li>".repeat(100));
    assert!(can_render(&two_lists, 12));
    assert!(!can_render(&two_lists, 11));
}

#[test]
fn ordered_lists_that_count_from_one_are_rendered() {
    for html in [
        "<ol><li>a</li></ol>",
        "<ol class=\"steps\"><li>a</li></ol>",
        "<ol class='steps' id=list data-x=\"1 > 0\"><li>a</li></ol>",
        "<OL TYPE=a><li>a</li></ol>",
        "<ol reversed><li>let us start</li></ol>",
        "<ol\n  style=\"margin: 0\"\n><li>start</li></ol>",
        "<ol/><li>a</li>",
        "<ol",
        "<ol class=\"never closed",
    ] {
        assert!(can_render(html, 80), "{}", html);
        assert!(calculate_reading_time(html).is_some(), "{}", html);
    }
}

#[test]
fn ordered_lists_that_count_from_elsewhere_are_not_rendered() {
    for html in [
        "<ol start=\"5\"><li>a</li></ol>",
        "<ol start=\"9223372036854775807\"><li>a</li><li>b</li></ol>",
        "<ol start=5><li>a</li></ol>",
        "<OL START=7><li>a</li></ol>",
        "<ol class=\"x\" Start='3'><li>a</li></ol>",
        "<ol title=\">\" start=5><li>a</li></ol>",
        "<ol a\"b=\"c>\" start=5><li>a</li></ol>",
        "<ol a='\"' b=\">\" start=5><li>a</li></ol>",
        "<ol x=y/ start=9><li>a</li></ol>",
        "<ol/start=5><li>a</li></ol>",
        "<ol class=\"start\"><li>a</li></ol>",
    ] {
        assert!(!can_render(html, 80), "{}", html);
        assert_eq!(calculate_reading_time(html), None, "{}", html);
    }
}

#[test]
fn headings_take_their_marks_and_a_space() {
    assert!(can_render("<h1>a</h1>", 4));
    assert!(!can_render("<h1>a</h1>", 3));
    assert!(can_render("<h4>a</h4>", 7));
    assert!(!can_render("<h4>a</h4>", 6));
    assert!(can_render("<H2>a</H2>", 5));
    assert!(!can_render("<H2>a</H2>", 4));
    assert!(can_render("<h5>a</h5><h6>b</h6><hr><h0>c</h0>", 2));
}

#[test]
fn tables_are_not_rendered() {
    for html in [
        "<table><tr><td>a</td></tr></table>",
        "<table></table>",
        "<TABLE></TABLE>",
        "<table class=\"x\">",
        "<table/>",
        "<table",
        "<td>a</td>",
        "<tr>",
        "<tbody>",
        "<thead>",
        "<th>",
        "<Th\n>",
    ] {
        assert!(!can_render(html, 80), "{}", html);
        assert_eq!(calculate_reading_time(html), None, "{}", html);
    }
}

#[test]
fn other_tags_that_begin_alike_are_rendered() {
    for html in [
        "</table>",
        "<title>a b</title>",
        "<time>now</time>",
        "<tt>a</tt>",
        "<track>",
        "<tfoot>",
        "<textarea>a</textarea>",
        "<template>a</template>",
        "<tables>",
        "<tdx>",
        "< table>",
    ] {
        assert!(can_render(html, 80), "{}", html);
        assert!(calculate_reading_time(html).is_some(), "{}", html);
    }
}

#[test]
fn characters_measured_by_themselves_are_rendered() {
    for text in [
        "ağaç, şiir, İstanbul, çığ, öykü — “söz” … €5",
        "Привет, мир! Γειά σου",
        "中文 日本語 한국어",
        "עברית",
        "a\u{200D}b a\u{FE00}b ❤ ☀ ™ ©",
        "नमस्ते",
    ] {
        assert!(can_render(text, 80), "{}", text);
        assert!(calculate_reading_time(text).is_some(), "{}", text);
    }
    assert_eq!(calculate_reading_time("中"), Some(1));
    assert_eq!(calculate_reading_time("<p>中文 日本語</p>"), Some(1));
}

#[test]
fn characters_measured_with_their_neighbours_are_not_rendered() {
    for text in [
        "heart \u{2764}\u{FE0F}",
        "\u{FE0E}",
        "\u{1F600}",
        "\u{231A}",
        "\u{1F1E9}\u{1F1EA}",
        "\u{5DC}",
        "\u{627}",
        "\u{17D8}",
        "a\u{0}b",
        "a\u{1}b",
        "a\u{C}b",
        "a\u{7F}b",
        "a\u{85}b",
        "a\u{9F}b",
    ] {
        assert!(!can_render(text, 80), "{:?}", text);
        assert_eq!(calculate_reading_time(text), None, "{:?}", text);
    }
}

#[test]
fn every_character_is_told_apart() {
    for code in 0u32..=0x10FFFF {
        if let Some(c) = char::from_u32(code) {
            if c == '&' || c == '<' {
                continue;
            }
            assert_eq!(can_render(&format!("a{}b", c), 80), is_plain(c), "{:x}", code);
        }
    }
}

#[test]
fn named_references_are_rendered() {
    for reference in [
        "&", "& ", "&;", "&amp;", "&amp", "&AMP;", "&lt;", "&gt;", "&quot;", "&apos;", "&nbsp;", "&copy;", "&mdash;",
        "&hearts;", "&zwj;", "&caps;", "&b=2", "&&amp;", "&\n", "&notanentity;", "AT&T", "&NotEqualTilde;",
    ] {
        let html = format!("a{}b", reference);
        assert!(can_render(&html, 80), "{}", reference);
        assert!(calculate_reading_time(&html).is_some(), "{}", reference);
    }
    assert_eq!(calculate_reading_time("Tom &amp; Jerry &copy; AT&T &hellip;"), Some(1));
}

#[test]
fn numeric_references_to_characters_measured_by_themselves_are_rendered() {
    for reference in [
        "&#39;", "&#x27;", "&#X27;", "&#8217;", "&#x2019;", "&#0000039;", "&#x000027;", "&#20013;", "&#x4E2D;",
        "&#9;", "&#10;", "&#32;", "&#126;", "&#160;", "&#xA0;", "&#9999999;", "&#xFFFFFF;", "&#xD800;", "&#1114112;",
    ] {
        let html = format!("a{}b", reference);
        assert!(can_render(&html, 80), "{}", reference);
        assert!(calculate_reading_time(&html).is_some(), "{}", reference);
    }
}

#[test]
fn other_numeric_references_are_not_rendered() {
    for reference in [
        "&#xFE0F;", "&#65039;", "&#x1F600;", "&#128512;", "&#0;", "&#1;", "&#127;", "&#128;", "&#159;", "&#x9F;",
        "&#39", "&#x27", "&#", "&#;", "&#x;", "&#x", "&#00000039;", "&#x0000027;", "&#3 9;", "&#xg;", "&#-1;",
        "&#6104;",
    ] {
        let html = format!("a{}b", reference);
        assert!(!can_render(&html, 80), "{}", reference);
        assert_eq!(calculate_reading_time(&html), None, "{}", reference);
    }
    assert!(!can_render("a&#", 80));
    assert!(!can_render("&#x", 80));
}

#[test]
fn markup_nested_to_the_last_column_is_not_rendered() {
    let html = nested("<blockquote>", "</blockquote>", 40, "word");
    assert_eq!(calculate_reading_time(&html), None);
    let html = nested("<ul><li>", "</li></ul>", 40, "word");
    assert_eq!(calculate_reading_time(&html), None);
    let html = nested("<dl><dt>", "</dt></dl>", 40, "word");
    assert_eq!(calculate_reading_time(&html), None);
}

#[test]
fn markup_nested_as_far_as_admitted_is_rendered() {
    let long_word = "x".repeat(500);
    let html = nested("<blockquote>", "</blockquote>", 39, &format!("one {} two", long_word));
    assert!(calculate_reading_time(&html).is_some());
    let html = nested("<ul><li>", "</li></ul>", 39, &format!("one two {}", long_word));
    assert!(calculate_reading_time(&html).is_some());
    let html = nested("<dl><dd>", "</dd></dl>", 19, "one two three");
    assert!(calculate_reading_time(&html).is_some());
    let html = format!(
        "<h4><blockquote><ul><li><ol class=\"a\">{}</ol></li></ul></blockquote></h4>",
        "<li><pre>a\tb\n  c</pre> d</li>".repeat(12)
    );
    assert!(calculate_reading_time(&html).is_some());
    let html = nested("<h4>", "", 14, &format!("<h3>{}</h3>", long_word));
    assert!(calculate_reading_time(&html).is_some());
    let wide_word = "中".repeat(300);
    let html = nested("<blockquote>", "", 39, &format!("<pre>{}\t{}</pre>{}", wide_word, wide_word, wide_word));
    assert!(calculate_reading_time(&html).is_some());
}

#[test]
fn the_first_characters_are_rendered_in_the_narrowest_column() {
    for code in 0u32..0x3000 {
        is_rendered_in_the_narrowest_column(code);
    }
}

#[test]
fn the_characters_next_to_those_set_apart_are_rendered_in_the_narrowest_column() {
    for (first, last) in SET_APART {
        for code in [first.wrapping_sub(2), first - 1, last + 1, last + 2] {
            is_rendered_in_the_narrowest_column(code);
        }
    }
}

#[test]
fn characters_of_the_first_planes_are_rendered_in_the_narrowest_column() {
    for code in (0x3000u32..0x20000).step_by(5) {
        is_rendered_in_the_narrowest_column(code);
    }
}

#[test]
fn characters_of_the_later_planes_are_rendered_in_the_narrowest_column() {
    for code in (0x20000u32..=0x10FFFF).step_by(61) {
        is_rendered_in_the_narrowest_column(code);
    }
}

#[test]
fn ordinary_documents_are_rendered() {
    let html = "<h1>Başlık</h1><p>İlk paragraf, <a href=\"https://example.org/?a=1&b=2\">bağlantı</a> ve \
                <em>vurgu</em>.</p><h2>Liste</h2><ul><li>bir</li><li>iki</li></ul><ol class=\"n\"><li>a</li>\
                <li>b</li></ol><blockquote><p>Alıntı &mdash; söz &#8230; 中文.</p></blockquote>\
                <img src=\"x.png\" alt=\"resim\"><br><pre><code>let x = 1;</code></pre>\
                <div class=\"note\"><span>son</span><time>bugün</time></div>";
    assert!(can_render(html, 80));
    assert_eq!(calculate_reading_time(html), Some(1));
}
