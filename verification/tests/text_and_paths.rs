use changelog_fragments::path;
use changelog_fragments::path::{file_name, join_path, parent_is, relative};
use changelog_fragments::text::{
    any_same, decimal_text, find_text, has_char, join_texts, same_text, split_fields,
    split_lines, split_raw_lines, split_words, starts_with, strip_prefix, trim,
};
use std::path::Path;

const SAMPLES: [&str; 19] = [
    "",
    "\n",
    "\r\n",
    "\r",
    "a",
    "a\n",
    "a\nb",
    "a\r\nb\r",
    "a\r\r\nb\n\n",
    "\n\na b\tc\n",
    " a ",
    "\u{a0}\u{3000}a b\u{2003}c\u{85}",
    "  ",
    "\u{200b}a\u{180e}",
    "x.y.z",
    "..",
    "\u{e9}.\u{1f600}",
    "\u{1680}\u{202f}\u{205f}",
    "one\u{b}two\u{c}three",
];

#[test]
fn text_operations_agree_with_the_standard_library() {
    for s in SAMPLES {
        assert_eq!(split_lines(s), s.lines().collect::<Vec<_>>(), "{s:?}");
        let raw: Vec<&str> =
            s.split_inclusive('\n').map(|l| l.trim_end_matches('\n')).collect();
        assert_eq!(split_raw_lines(s), raw, "{s:?}");
        assert_eq!(trim(s), s.trim(), "{s:?}");
        assert_eq!(split_words(s), s.split_whitespace().collect::<Vec<_>>(), "{s:?}");
        assert_eq!(split_fields(s, '.'), s.split('.').collect::<Vec<_>>(), "{s:?}");
        assert_eq!(has_char(s, 'a'), s.contains('a'), "{s:?}");
        for t in SAMPLES {
            assert_eq!(starts_with(s, t), s.starts_with(t), "{s:?} {t:?}");
            assert_eq!(strip_prefix(s, t), s.strip_prefix(t), "{s:?} {t:?}");
            let chars = s.find(t).map(|i| s[..i].chars().count());
            assert_eq!(find_text(s, t), chars, "{s:?} {t:?}");
            assert_eq!(same_text(s, t), s == t, "{s:?} {t:?}");
        }
    }
}

#[test]
fn white_space_is_what_unicode_says() {
    let expected = [
        '\u{9}', '\u{a}', '\u{b}', '\u{c}', '\u{d}', '\u{20}', '\u{85}', '\u{a0}', '\u{1680}',
        '\u{2000}', '\u{2001}', '\u{2002}', '\u{2003}', '\u{2004}', '\u{2005}', '\u{2006}',
        '\u{2007}', '\u{2008}', '\u{2009}', '\u{200a}', '\u{2028}', '\u{2029}', '\u{202f}',
        '\u{205f}', '\u{3000}',
    ];
    let found: Vec<char> =
        ('\0'..=char::MAX).filter(|c| trim(&c.to_string()).is_empty()).collect();
    assert_eq!(found, expected);
}

#[test]
fn joining_and_numbers() {
    assert_eq!(join_texts(&vec![], "|"), "");
    assert_eq!(join_texts(&vec!["a"], "|"), "a");
    assert_eq!(join_texts(&vec!["a", "", "b"], "--"), "a----b");
    assert!(any_same(&vec!["a", "b"], "b"));
    assert!(!any_same(&vec!["a", "b"], "c"));
    for n in [0, 1, 9, 10, 99, 100, 1000, 1001, usize::MAX] {
        assert_eq!(decimal_text(n), n.to_string());
    }
}

const PATHS: [&str; 22] = [
    "",
    ".",
    "..",
    "/",
    "//",
    "/.",
    "a",
    "a/",
    "a/.",
    "./a",
    "./",
    "/a",
    "//a//b/",
    "a/./b",
    "a/../b",
    "a/b/..",
    "changelog.d",
    "changelog.d/x.fix.md",
    "./changelog.d/x",
    "changelog.d//x/./",
    "changelog.d/sub/x",
    "/changelog.d/x",
];

#[test]
fn paths_agree_with_the_standard_library() {
    for p in PATHS {
        let std_path = Path::new(p);
        assert_eq!(file_name(p), std_path.file_name().and_then(|s| s.to_str()), "{p:?}");
        for q in PATHS {
            let other = Path::new(q);
            assert_eq!(parent_is(p, q), std_path.parent() == Some(other), "{p:?} {q:?}");
            assert_eq!(
                relative(q, p, &path::strip_prefix),
                std_path.strip_prefix(other).unwrap_or(std_path).to_str().unwrap(),
                "{p:?} {q:?}"
            );
            assert_eq!(
                path::strip_prefix(p, q).as_deref(),
                std_path.strip_prefix(other).ok().map(|r| r.to_str().unwrap()),
                "{p:?} {q:?}"
            );
            assert_eq!(join_path(p, q), std_path.join(other).to_str().unwrap(), "{p:?} {q:?}");
        }
    }
}

#[test]
fn the_machine_tells_what_lies_below_a_base() {
    let strip = |path: &str, base: &str| {
        path.strip_prefix(base).and_then(|rest| rest.strip_prefix('\\')).map(str::to_owned)
    };
    assert_eq!(relative("C:\\repo", "C:\\repo\\a\\b", &strip), "a\\b");
    assert_eq!(relative("C:\\repo", "D:\\repo\\a", &strip), "D:\\repo\\a");
}
