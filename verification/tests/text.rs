use nixdoc::lines::{join_chars, join_lines, split_chars, split_lines};
use nixdoc::options::{make_anchor_id, md_escape};
use nixdoc::order::{compare_option_names, order_option_names};
use nixdoc::text::{
    char_is_whitespace, contains_char, from_chars, same_text, starts_with, to_chars, trim,
    trim_end_char, trim_start,
};

fn chars(s: &str) -> Vec<char> {
    s.chars().collect()
}

fn text(v: &[char]) -> String {
    v.iter().collect()
}

const SAMPLES: [&str; 12] = [
    "",
    " ",
    "a",
    "  a  ",
    "\t\u{a0}x y\u{3000}\r\n",
    "a\nb",
    "a\n",
    "\n",
    "\n\na\n\n",
    "svc.enable",
    "..a..b.",
    "h\u{e9}llo \u{1F600} w\u{f6}rld",
];

#[test]
fn whitespace_is_what_the_standard_library_says() {
    for code in 0..=0x10FFFFu32 {
        if let Some(c) = char::from_u32(code) {
            assert_eq!(char_is_whitespace(c), c.is_whitespace(), "for U+{code:04X}");
        }
    }
}

#[test]
fn texts_go_to_characters_and_back() {
    for s in SAMPLES {
        assert_eq!(to_chars(s), chars(s));
        assert_eq!(from_chars(&chars(s)), s);
    }
}

#[test]
fn trimming_agrees_with_the_standard_library() {
    for s in SAMPLES {
        assert_eq!(text(&trim(&chars(s))), s.trim(), "for {s:?}");
        assert_eq!(text(&trim_start(&chars(s))), s.trim_start(), "for {s:?}");
        assert_eq!(trim_end_char(s, '.'), s.trim_end_matches('.'), "for {s:?}");
        assert_eq!(trim_end_char(s, '\n'), s.trim_end_matches('\n'), "for {s:?}");
    }
}

#[test]
fn splitting_agrees_with_the_standard_library() {
    for s in SAMPLES {
        let lines: Vec<String> = split_lines(&chars(s)).iter().map(|l| text(l)).collect();
        assert_eq!(lines, s.split('\n').collect::<Vec<_>>(), "for {s:?}");
        let parts: Vec<String> = split_chars(&chars(s), '.').iter().map(|l| text(l)).collect();
        assert_eq!(parts, s.split('.').collect::<Vec<_>>(), "for {s:?}");
        assert_eq!(text(&join_lines(&split_lines(&chars(s)))), s);
        assert_eq!(text(&join_chars(&split_chars(&chars(s), '.'), '.')), s);
    }
    assert_eq!(text(&join_lines(&Vec::new())), "");
}

#[test]
fn searching_agrees_with_the_standard_library() {
    for s in SAMPLES {
        for c in ['a', '\n', '.', ' '] {
            assert_eq!(contains_char(s, c), s.contains(c));
        }
        for p in ["", "a", "svc", " ", "\n\n", "svc.enable.more"] {
            assert_eq!(starts_with(&chars(s), &chars(p)), s.starts_with(p), "{s:?} {p:?}");
        }
        for t in SAMPLES {
            assert_eq!(same_text(s, t), s == t);
        }
    }
}

#[test]
fn escaping_agrees_with_replacing_one_character_after_the_other() {
    for s in ["", "plain", "a*b_c[d]<e>`f\\g", "\\\\**", "<<>>", "h\u{e9}_\u{1F600}"] {
        let expected = s
            .replace('\\', "\\\\")
            .replace('*', "\\*")
            .replace('_', "\\_")
            .replace('[', "\\[")
            .replace(']', "\\]")
            .replace('<', "\\<")
            .replace('>', "\\>")
            .replace('`', "\\`");
        assert_eq!(md_escape(s), expected);
        let anchor = s.replace('.', "-").replace('<', "_").replace('>', "_").replace('*', "_");
        assert_eq!(make_anchor_id(s, "p."), format!("p.{anchor}"));
    }
}

#[test]
fn names_without_special_segments_are_ordered_as_their_segments_are() {
    let names = ["a", "a.b", "a.c", "b", "b.a.z", "\u{e9}.x", "z\u{1F600}", "ab", "a.bc", ""];
    for a in names {
        for b in names {
            let expected = a.split('.').collect::<Vec<_>>().cmp(&b.split('.').collect::<Vec<_>>());
            assert_eq!(compare_option_names(a, b), expected, "{a:?} {b:?}");
            assert_eq!(order_option_names(a, b), -order_option_names(b, a), "{a:?} {b:?}");
        }
    }
}
