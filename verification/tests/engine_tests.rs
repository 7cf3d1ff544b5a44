use chapter_zero::book::{Book, BookItem, Chapter};
use chapter_zero::config::{Config, ConfigError, RawSettings, RawValue};
use chapter_zero::engine::apply;
use chapter_zero::ChapterZeroPreprocessor;

const DEFAULT_MARKER: &str = "<!-- ch0 -->\n";

fn chapter(number: &[u32], content: &str, subs: Vec<BookItem>) -> BookItem {
    BookItem::Chapter(Chapter {
        number: Some(number.to_vec()),
        content: content.to_string(),
        sub_items: subs,
    })
}

fn draft(content: &str, subs: Vec<BookItem>) -> BookItem {
    BookItem::Chapter(Chapter {
        number: None,
        content: content.to_string(),
        sub_items: subs,
    })
}

fn cfg(levels: &[usize], marker: &str) -> Config {
    Config { levels: levels.to_vec(), marker: marker.to_string() }
}

#[test]
fn identity_without_levels_or_marker() {
    let book = Book {
        sections: vec![
            chapter(&[1], "intro", vec![chapter(&[1, 1], "sub", vec![])]),
            BookItem::Separator,
            chapter(&[2], "more", vec![]),
        ],
    };
    let expected = Book {
        sections: vec![
            chapter(&[1], "intro", vec![chapter(&[1, 1], "sub", vec![])]),
            BookItem::Separator,
            chapter(&[2], "more", vec![]),
        ],
    };
    let out = apply(&cfg(&[], DEFAULT_MARKER), book);
    assert_eq!(out, expected);
}

#[test]
fn top_level_zero_indexing() {
    // config `levels = [0]`: top-level chapters and the first position of
    // every deeper chapter are decremented.
    let book = Book {
        sections: vec![
            chapter(&[1], "", vec![chapter(&[1, 1], "", vec![])]),
            chapter(&[2], "", vec![chapter(&[2, 1], "", vec![])]),
            chapter(&[3], "", vec![]),
        ],
    };
    let expected = Book {
        sections: vec![
            chapter(&[0], "", vec![chapter(&[0, 1], "", vec![])]),
            chapter(&[1], "", vec![chapter(&[1, 1], "", vec![])]),
            chapter(&[2], "", vec![]),
        ],
    };
    let out = apply(&cfg(&[0], DEFAULT_MARKER), book);
    assert_eq!(out, expected);
}

#[test]
fn local_marker_zero_indexes_descendants() {
    // default config; the marked chapter keeps its number, loses the marker,
    // and its children and grandchildren are decremented just past its depth.
    let book = Book {
        sections: vec![
            chapter(&[1], "first", vec![chapter(&[1, 1], "", vec![])]),
            chapter(
                &[2],
                "before<!-- ch0 -->\nafter",
                vec![chapter(&[2, 1], "", vec![chapter(&[2, 1, 1], "", vec![])])],
            ),
        ],
    };
    let expected = Book {
        sections: vec![
            chapter(&[1], "first", vec![chapter(&[1, 1], "", vec![])]),
            chapter(
                &[2],
                "beforeafter",
                vec![chapter(&[2, 0], "", vec![chapter(&[2, 0, 1], "", vec![])])],
            ),
        ],
    };
    let out = apply(&cfg(&[], DEFAULT_MARKER), book);
    assert_eq!(out, expected);
}

#[test]
fn unconfigured_marker_has_no_effect() {
    // custom marker configured: the default marker string in a chapter's
    // content no longer triggers anything.
    let book = Book {
        sections: vec![chapter(
            &[1],
            "text<!-- ch0 -->\nmore",
            vec![chapter(&[1, 1], "", vec![])],
        )],
    };
    let expected = Book {
        sections: vec![chapter(
            &[1],
            "text<!-- ch0 -->\nmore",
            vec![chapter(&[1, 1], "", vec![])],
        )],
    };
    let out = apply(&cfg(&[], "<!--zero-->"), book);
    assert_eq!(out, expected);
}

#[test]
fn custom_marker_is_consumed() {
    let book = Book {
        sections: vec![chapter(
            &[1],
            "a<!--zero-->b<!--zero-->c",
            vec![chapter(&[1, 2], "", vec![])],
        )],
    };
    let expected = Book {
        sections: vec![chapter(&[1], "abc", vec![chapter(&[1, 1], "", vec![])])],
    };
    let out = apply(&cfg(&[], "<!--zero-->"), book);
    assert_eq!(out, expected);
}

#[test]
fn marker_removal_shortens_content_by_occurrences() {
    let content = format!("{m}mid{m}", m = DEFAULT_MARKER);
    let book = Book {
        sections: vec![chapter(&[1], &content, vec![])],
    };
    let out = apply(&cfg(&[], DEFAULT_MARKER), book);
    match &out.sections[0] {
        BookItem::Chapter(c) => {
            assert_eq!(c.content, "mid");
            assert_eq!(c.content.len(), content.len() - 2 * DEFAULT_MARKER.len());
        }
        _ => unreachable!(),
    }
}

#[test]
fn marker_superseded_by_global_level_is_kept() {
    // the children's depth is globally covered: the marker is not consumed,
    // the content is untouched, and the children get the global decrement.
    let content = "a<!-- ch0 -->\nb";
    let book = Book {
        sections: vec![chapter(&[2], content, vec![chapter(&[2, 1], "", vec![])])],
    };
    let expected = Book {
        sections: vec![chapter(&[2], content, vec![chapter(&[2, 0], "", vec![])])],
    };
    let out = apply(&cfg(&[1], DEFAULT_MARKER), book);
    assert_eq!(out, expected);
}

#[test]
fn crlf_line_endings_match_the_marker() {
    // the marker ends in a line feed; a CRLF ending counts too, and the
    // consumed content comes back with normalized line endings.
    let book = Book {
        sections: vec![chapter(
            &[1],
            "x<!-- ch0 -->\r\ny",
            vec![chapter(&[1, 1], "", vec![])],
        )],
    };
    let expected = Book {
        sections: vec![chapter(&[1], "xy", vec![chapter(&[1, 0], "", vec![])])],
    };
    let out = apply(&cfg(&[], DEFAULT_MARKER), book);
    assert_eq!(out, expected);
}

#[test]
fn decrement_clamps_at_zero() {
    // a position already at zero stays at zero, globally and locally.
    let book = Book {
        sections: vec![
            chapter(&[0], "", vec![]),
            chapter(&[2], DEFAULT_MARKER, vec![chapter(&[2, 0], "", vec![])]),
        ],
    };
    let expected = Book {
        sections: vec![
            chapter(&[0], "", vec![]),
            chapter(&[2], "", vec![chapter(&[2, 0], "", vec![])]),
        ],
    };
    let out = apply(&cfg(&[], DEFAULT_MARKER), book);
    assert_eq!(out, expected);
}

#[test]
fn running_twice_is_not_idempotent() {
    // single-application semantics: a second run decrements again.
    let c = cfg(&[0], DEFAULT_MARKER);
    let book = Book { sections: vec![chapter(&[2], "", vec![])] };
    let once = apply(&c, book);
    assert_eq!(once, Book { sections: vec![chapter(&[1], "", vec![])] });
    let twice = apply(&c, once);
    assert_ne!(twice, Book { sections: vec![chapter(&[1], "", vec![])] });
    assert_eq!(twice, Book { sections: vec![chapter(&[0], "", vec![])] });
}

#[test]
fn several_levels_decrement_independently() {
    let book = Book {
        sections: vec![chapter(
            &[2],
            "",
            vec![chapter(&[2, 2], "", vec![chapter(&[2, 2, 1], "", vec![])])],
        )],
    };
    let expected = Book {
        sections: vec![chapter(
            &[1],
            "",
            vec![chapter(&[1, 1], "", vec![chapter(&[1, 1, 1], "", vec![])])],
        )],
    };
    let out = apply(&cfg(&[0, 1], DEFAULT_MARKER), book);
    assert_eq!(out, expected);
}

#[test]
fn duplicate_levels_decrement_once() {
    let book = Book { sections: vec![chapter(&[2], "", vec![])] };
    let expected = Book { sections: vec![chapter(&[1], "", vec![])] };
    let out = apply(&cfg(&[0, 0], DEFAULT_MARKER), book);
    assert_eq!(out, expected);
}

#[test]
fn unnumbered_chapters_are_skipped() {
    // a draft page carries the marker but has no number: nothing is recorded
    // and its content is untouched.
    let book = Book {
        sections: vec![
            draft("draft<!-- ch0 -->\ntext", vec![]),
            chapter(&[1], "", vec![]),
        ],
    };
    let expected = Book {
        sections: vec![
            draft("draft<!-- ch0 -->\ntext", vec![]),
            chapter(&[1], "", vec![]),
        ],
    };
    let out = apply(&cfg(&[], DEFAULT_MARKER), book);
    assert_eq!(out, expected);
}

#[test]
fn non_chapter_items_are_untouched() {
    let book = Book {
        sections: vec![
            BookItem::Separator,
            BookItem::PartTitle("Part One".to_string()),
            chapter(&[1], "", vec![]),
        ],
    };
    let expected = Book {
        sections: vec![
            BookItem::Separator,
            BookItem::PartTitle("Part One".to_string()),
            chapter(&[0], "", vec![]),
        ],
    };
    let out = apply(&cfg(&[0], DEFAULT_MARKER), book);
    assert_eq!(out, expected);
}

#[test]
fn run_resolves_and_applies() {
    let p = ChapterZeroPreprocessor::new();
    let raw = RawSettings {
        levels: Some(RawValue::Array(vec![RawValue::Int(0)])),
        marker: None,
    };
    let book = Book { sections: vec![chapter(&[3], "", vec![])] };
    let out = p.run(Some(raw), book).unwrap();
    assert_eq!(out, Book { sections: vec![chapter(&[2], "", vec![])] });
}

#[test]
fn run_aborts_on_invalid_settings_before_any_mutation() {
    // config `levels = ["a"]`: the run fails during resolution, before the
    // tree is walked at all.
    let p = ChapterZeroPreprocessor::new();
    let raw = RawSettings {
        levels: Some(RawValue::Array(vec![RawValue::Str("a".to_string())])),
        marker: None,
    };
    let book = Book { sections: vec![chapter(&[1], "", vec![])] };
    let err = p.run(Some(raw), book).unwrap_err();
    assert_eq!(err, ConfigError::InvalidLevels(RawValue::Str("a".to_string())));
}
