use transcribe_chunks::text::{
    chars_of, cleanup_text, is_whitespace, matches_at, remove_all, string_of, trim, trim_bounds,
};

fn chars(s: &str) -> Vec<char> {
    s.chars().collect()
}

fn text(v: Vec<char>) -> String {
    v.into_iter().collect()
}

#[test]
fn cleanup_takes_out_boilerplate_and_trims() {
    assert_eq!(cleanup_text("  Subtitle by Amara.org  Hello world"), "Hello world");
}

#[test]
fn cleanup_of_a_hallucination_is_empty() {
    assert_eq!(cleanup_text("Unicorn"), "");
    assert_eq!(cleanup_text("  Unicorn \n"), "");
    assert_eq!(cleanup_text(""), "");
}

#[test]
fn cleanup_takes_out_every_phrase() {
    assert_eq!(cleanup_text("Start using a trial version of the thing"), "the thing");
    assert_eq!(cleanup_text("a Unicorn b Unicorn c"), "a  b  c");
    assert_eq!(cleanup_text("see Amara.org"), "see");
    assert_eq!(cleanup_text("Subtitle by me"), "me");
    assert_eq!(cleanup_text("unicorn"), "unicorn");
}

#[test]
fn cleanup_takes_phrases_out_in_order() {
    // Once "Unicorn" is gone the pieces around it read "Amara.org", which goes next.
    assert_eq!(cleanup_text("AmaraUnicorn.org"), "");
    // "Unicorn" has gone by when "Amara.org" is taken out, so none is put together anew.
    assert_eq!(cleanup_text("UniAmara.orgcorn"), "Unicorn");
    assert_eq!(
        cleanup_text("UniAmara.orgcorn"),
        "UniAmara.orgcorn"
            .replace("Start using a trial version of", "")
            .replace("Unicorn", "")
            .replace("Amara.org", "")
            .replace("Subtitle by", "")
            .trim()
    );
}

#[test]
fn cleanup_is_not_applied_twice_by_itself() {
    assert_eq!(cleanup_text("UniUnicorncorn"), "Unicorn");
}

#[test]
fn whitespace_is_what_the_standard_library_says() {
    for code in 0..=0x10FFFFu32 {
        if let Some(c) = char::from_u32(code) {
            assert_eq!(is_whitespace(c), c.is_whitespace());
        }
    }
}

#[test]
fn trim_agrees_with_the_standard_library() {
    let samples = [
        "",
        " ",
        "a",
        " a",
        "a ",
        "  a b  ",
        "\t\n\r a\u{3000}",
        "\u{a0}x\u{2003}y\u{205f}",
        "\u{85}\u{1680}word\u{2028}\u{2029}\u{202f}",
        "\u{200b}zero width space is no white space\u{200b}",
        "   ",
        "é \u{1F600} ",
    ];
    for s in samples {
        assert_eq!(trim(s), s.trim());
    }
}

#[test]
fn trim_bounds_name_the_trimmed_part() {
    assert_eq!(trim_bounds(&chars("  ab c ")), (2, 6));
    assert_eq!(trim_bounds(&chars("abc")), (0, 3));
    assert_eq!(trim_bounds(&chars("   ")), (3, 3));
    assert_eq!(trim_bounds(&chars("")), (0, 0));
}

#[test]
fn remove_all_agrees_with_replace() {
    let cases = [
        ("", "a"),
        ("aaa", "a"),
        ("aaa", "aa"),
        ("abcabc", "bc"),
        ("abcabc", "abcabc"),
        ("abc", "abcd"),
        ("abc", ""),
        ("ababab", "aba"),
        ("xUnicornyUnicorn", "Unicorn"),
        ("ünïcödé ünï", "ünï"),
    ];
    for (s, p) in cases {
        assert_eq!(text(remove_all(&chars(s), &chars(p))), s.replace(p, ""));
    }
}

#[test]
fn matches_at_finds_the_pattern_in_place() {
    let s = chars("hello world");
    assert!(matches_at(&s, 0, &chars("hello")));
    assert!(matches_at(&s, 6, &chars("world")));
    assert!(!matches_at(&s, 1, &chars("hello")));
    assert!(matches_at(&s, 11, &chars("")));
}

#[test]
fn chars_and_strings_convert_both_ways() {
    assert_eq!(chars_of("héllo"), vec!['h', 'é', 'l', 'l', 'o']);
    assert_eq!(chars_of(""), Vec::<char>::new());
    assert_eq!(string_of(&chars("héllo"), 1, 4), "éll");
    assert_eq!(string_of(&chars("héllo"), 2, 2), "");
    assert_eq!(string_of(&chars("héllo"), 0, 5), "héllo");
}
