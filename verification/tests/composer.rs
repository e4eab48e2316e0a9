use nca::composer::{
    apply_at_completion, apply_selected_at_completion, at_completion_active,
    at_completion_matches, at_mention_char_ranges, at_panel_height, box_fits, box_height, complete_token,
    completed_among, completed_at_mention_range_before_cursor, composer_box_height, composer_line,
    cursor_byte_index, delete_completed_at_mention, delete_to_line_start, delete_word_backward,
    remove_char_range, slash_command_buffer, slash_panel_visible, span_char_ranges,
    TuiSessionState, SLASH_PANEL_MAX_ROWS,
};
use nca::composer_line::{styled_rows, Line, Look, Paint, SpanStyle};

/// Mentions are `@` words of at least one character behind the `@`.
fn mentions(text: &str) -> Vec<(usize, usize)> {
    let mut out = Vec::new();
    let mut start: Option<usize> = None;
    for (at, c) in text.char_indices() {
        if let Some(from) = start {
            if c.is_whitespace() {
                if at > from + 1 {
                    out.push((from, at));
                }
                start = None;
            }
        } else if c == '@' {
            start = Some(at);
        }
    }
    if let Some(from) = start {
        if text.len() > from + 1 {
            out.push((from, text.len()));
        }
    }
    out
}

/// The token before a cursor: from the last `@`, without white space behind it.
fn token(text: &str, cursor: usize) -> Option<(usize, String)> {
    let before = &text[..cursor];
    let at = before.rfind('@')?;
    let prefix = &before[at + 1..];
    if prefix.contains(char::is_whitespace) {
        return None;
    }
    Some((at, prefix.to_string()))
}

fn with_prefix(files: &[String], prefix: String) -> Vec<String> {
    files.iter().filter(|f| f.starts_with(prefix.as_str())).cloned().collect()
}

fn files() -> Vec<String> {
    vec!["src/lib.rs".to_string(), "src/main.rs".to_string(), "README.md".to_string()]
}

fn plain(line: &Line) -> String {
    line.spans.iter().map(|s| s.content.as_str()).collect()
}

fn session(text: &str) -> TuiSessionState {
    TuiSessionState {
        input_buffer: text.to_string(),
        approval_active: false,
        question_active: false,
        question_modal_open: false,
        staged_images: 0,
    }
}

#[test]
fn delete_word_backward_skips_trailing_whitespace_then_the_word() {
    let (buf, cidx) = delete_word_backward("hello world  ", 13).unwrap();
    assert_eq!(buf, "hello ");
    assert_eq!(cidx, 6);
}

#[test]
fn delete_word_backward_from_word_middle_deletes_only_that_word() {
    // Cursor right after "bar" (index 7): only "bar" is consumed, not the
    // space that follows it before "baz" — matches readline's Ctrl+W.
    let (buf, cidx) = delete_word_backward("foo bar baz", 7).unwrap();
    assert_eq!(buf, "foo  baz");
    assert_eq!(cidx, 4);
}

#[test]
fn delete_word_backward_at_column_zero_is_none() {
    assert_eq!(delete_word_backward("hello", 0), None);
}

#[test]
fn delete_word_backward_of_blanks_only_reaches_the_start() {
    assert_eq!(delete_word_backward(" \t\u{3000}", 3), Some((String::new(), 0)));
}

#[test]
fn delete_word_backward_counts_characters() {
    assert_eq!(
        delete_word_backward("n\u{e9} \u{e0} la", 4),
        Some(("n\u{e9}  la".to_string(), 3))
    );
}

#[test]
fn composer_line_splits_on_embedded_newlines() {
    let lines = composer_line("first\nsecond", 12, |_: &str| Vec::new());
    assert_eq!(lines.len(), 2);
    let first_plain: String = lines[0].spans.iter().map(|s| s.content.as_str()).collect();
    let second_plain: String = lines[1].spans.iter().map(|s| s.content.as_str()).collect();
    assert!(first_plain.contains("first"));
    assert!(second_plain.contains("second"));
}

#[test]
fn composer_line_draws_the_cursor_at_the_end_as_a_blank() {
    let lines = composer_line("hi", 9, |_: &str| Vec::new());
    assert_eq!(lines.len(), 1);
    assert_eq!(plain(&lines[0]), "\u{276f} hi ");
    let styles: Vec<SpanStyle> = lines[0].spans.iter().map(|s| s.style).collect();
    assert_eq!(styles, vec![SpanStyle::Prompt, SpanStyle::Text, SpanStyle::Cursor]);
}

#[test]
fn composer_line_draws_the_cursor_on_a_newline_as_a_blank() {
    let lines = composer_line("a\nb", 1, |_: &str| Vec::new());
    assert_eq!(plain(&lines[0]), "\u{276f} a ");
    assert_eq!(lines[0].spans[2].style, SpanStyle::Cursor);
    assert_eq!(plain(&lines[1]), "  b");
    assert_eq!(lines[1].spans[0].style, SpanStyle::Indent);
}

#[test]
fn composer_line_sets_mentions_off() {
    let lines = composer_line("x @a/b y", 3, mentions);
    let spans: Vec<(&str, SpanStyle)> =
        lines[0].spans.iter().map(|s| (s.content.as_str(), s.style)).collect();
    assert_eq!(
        spans,
        vec![
            ("\u{276f} ", SpanStyle::Prompt),
            ("x ", SpanStyle::Text),
            ("@", SpanStyle::Mention),
            ("a", SpanStyle::CursorOnMention),
            ("/b", SpanStyle::Mention),
            (" y", SpanStyle::Text),
        ]
    );
}

#[test]
fn empty_rows_have_only_what_begins_them() {
    let lines = styled_rows("\n\n", &[], 2);
    assert_eq!(lines.len(), 3);
    assert_eq!(plain(&lines[0]), "\u{276f} ");
    assert_eq!(plain(&lines[1]), "  ");
    assert_eq!(plain(&lines[2]), "   ");
}

#[test]
fn rows_show_the_buffer_and_one_cursor() {
    let text = "one @two\n\nthr\u{e9}e";
    for cursor in 0..=text.chars().count() {
        let lines = composer_line(text, cursor, mentions);
        assert_eq!(lines.len(), 3);
        let mut cursors = 0;
        let mut rows: Vec<String> = Vec::new();
        for (i, line) in lines.iter().enumerate() {
            assert_eq!(line.spans[0].style == SpanStyle::Prompt, i == 0);
            rows.push(line.spans[1..].iter().map(|s| s.content.as_str()).collect());
            for (k, span) in line.spans.iter().enumerate() {
                if matches!(span.style, SpanStyle::Cursor | SpanStyle::CursorOnMention) {
                    cursors += span.content.chars().count();
                }
                assert!(!span.content.is_empty());
                assert!(k == 0 || line.spans[k - 1].style != span.style);
            }
        }
        assert_eq!(cursors, 1);
        let shown = rows.join("\n");
        let chars: Vec<char> = text.chars().collect();
        let mut expected: String = chars[..cursor].iter().collect();
        if cursor == chars.len() || chars[cursor] == '\n' {
            expected.push(' ');
        }
        expected.extend(&chars[cursor..]);
        assert_eq!(shown, expected);
    }
}

#[test]
fn slash_detection_ignores_leading_space() {
    assert_eq!(slash_command_buffer(" \t/help "), "/help ");
    assert!(slash_panel_visible("  /he"));
    assert!(slash_panel_visible("/"));
    assert!(!slash_panel_visible("/he lp"));
    assert!(!slash_panel_visible("he/lp"));
    assert!(!slash_panel_visible(""));
}

#[test]
fn cursor_byte_index_counts_bytes() {
    assert_eq!(cursor_byte_index("h\u{e9}llo", 0), 0);
    assert_eq!(cursor_byte_index("h\u{e9}llo", 2), 3);
    assert_eq!(cursor_byte_index("h\u{e9}llo", 5), 6);
    assert_eq!(cursor_byte_index("h\u{e9}llo", 50), 6);
    assert_eq!(cursor_byte_index("\u{20ac}\u{1f600}x", 1), 3);
    assert_eq!(cursor_byte_index("\u{20ac}\u{1f600}x", 2), 7);
}

#[test]
fn panel_heights() {
    assert_eq!(SLASH_PANEL_MAX_ROWS, 8);
    assert_eq!(at_panel_height(0), 0);
    assert_eq!(at_panel_height(1), 3);
    assert_eq!(at_panel_height(8), 10);
    assert_eq!(at_panel_height(9), 10);
    assert_eq!(at_panel_height(usize::MAX), 10);
}

#[test]
fn removing_a_range_keeps_the_rest() {
    assert_eq!(remove_char_range("h\u{e9}llo", 1, 3), "hlo");
    assert_eq!(remove_char_range("hello", 2, 2), "hello");
    assert_eq!(remove_char_range("hello", 0, 5), "");
}

#[test]
fn delete_to_line_start_stops_at_the_newline() {
    assert_eq!(delete_to_line_start("one\ntwo three", 7), Some(("one\n three".to_string(), 4)));
    assert_eq!(delete_to_line_start("one\ntwo", 99), Some(("one\n".to_string(), 4)));
    assert_eq!(delete_to_line_start("one\ntwo", 4), None);
    assert_eq!(delete_to_line_start("one", 0), None);
    assert_eq!(delete_to_line_start("one", 2), Some(("e".to_string(), 0)));
}

#[test]
fn a_line_is_deleted_once() {
    let (text, cursor) = delete_to_line_start("one\ntwo three", 7).unwrap();
    assert_eq!(delete_to_line_start(&text, cursor), None);
}

#[test]
fn mention_ranges_count_characters() {
    assert_eq!(at_mention_char_ranges("\u{e9} @ab c", mentions), vec![(2, 5)]);
    assert_eq!(span_char_ranges("\u{e9}\u{e9}x", &[(0, 2), (2, 4), (4, 5)]), vec![(0, 1), (1, 2), (2, 3)]);
}

#[test]
fn a_mention_is_completed_at_its_end_or_one_blank_on() {
    let find = |cursor: usize| completed_at_mention_range_before_cursor("@ab c", cursor, mentions);
    assert_eq!(find(2), None);
    assert_eq!(find(3), Some((0, 3)));
    assert_eq!(find(4), Some((0, 4)));
    assert_eq!(find(5), None);
    assert_eq!(completed_among("@ab\tc", &[(0, 3)], 4), None);
    assert_eq!(completed_among("@ab", &[(0, 3)], 4), None);
}

#[test]
fn a_completed_mention_is_deleted_whole() {
    assert_eq!(
        delete_completed_at_mention("see @ab now", 8, mentions),
        Some(("see now".to_string(), 4))
    );
    assert_eq!(
        delete_completed_at_mention("see @ab", 7, mentions),
        Some(("see ".to_string(), 4))
    );
    assert_eq!(delete_completed_at_mention("see @ab", 6, mentions), None);
}

#[test]
fn only_the_deleted_mention_has_to_be_in_order() {
    let spans = |_: &str| vec![(3, 1), (4, 7)];
    assert_eq!(
        delete_completed_at_mention("see @ab", 7, spans),
        Some(("see ".to_string(), 4))
    );
    // A range that begins on the blank behind its end is empty.
    let blank = |_: &str| vec![(2, 1)];
    assert_eq!(delete_completed_at_mention("a b", 2, blank), Some(("a b".to_string(), 2)));
}

#[test]
fn styles_have_their_looks() {
    let look = |fg: Option<Paint>, bg: Option<Paint>, bold: bool| Look { fg, bg, bold };
    assert_eq!(SpanStyle::Prompt.look(), look(Some(Paint::User), None, true));
    assert_eq!(SpanStyle::Indent.look(), look(None, None, false));
    assert_eq!(SpanStyle::Text.look(), look(Some(Paint::Text), None, false));
    assert_eq!(
        SpanStyle::Mention.look(),
        look(Some(Paint::Text), Some(Paint::MentionBg), true)
    );
    assert_eq!(SpanStyle::Cursor.look(), look(Some(Paint::Black), Some(Paint::Muted), true));
    assert_eq!(
        SpanStyle::CursorOnMention.look(),
        look(Some(Paint::Black), Some(Paint::User), true)
    );
}

#[test]
fn completion_needs_a_token_and_no_slash_panel() {
    assert!(at_completion_active("see @sr", 7, token));
    assert!(!at_completion_active("see sr", 6, token));
    assert!(!at_completion_active("/x@sr", 5, token));
    assert_eq!(
        at_completion_matches(&files(), "@src", 4, token, with_prefix),
        vec!["src/lib.rs".to_string(), "src/main.rs".to_string()]
    );
    assert!(at_completion_matches(&files(), "src", 3, token, with_prefix).is_empty());
    assert!(at_completion_matches(&files(), "/@src", 5, token, with_prefix).is_empty());
}

#[test]
fn a_completion_replaces_the_token() {
    assert_eq!(
        apply_at_completion("\u{e9} @sr tail", 5, "src/lib.rs", token),
        ("\u{e9} @src/lib.rs tail".to_string(), 13)
    );
    assert_eq!(apply_at_completion("plain", 3, "x", token), ("plain".to_string(), 3));
    assert_eq!(complete_token("@", 1, 0, "\u{e9}"), ("@\u{e9}".to_string(), 2));
}

#[test]
fn a_selected_completion_picks_from_the_menu() {
    let run = |at: usize, space: bool| {
        apply_selected_at_completion(&files(), "@src x", 4, at, space, token, with_prefix)
    };
    assert_eq!(run(0, false), Some(("@src/lib.rs x".to_string(), 11)));
    assert_eq!(run(1, true), Some(("@src/main.rs  x".to_string(), 13)));
    assert_eq!(run(7, false), Some(("@src/main.rs x".to_string(), 12)));
    assert_eq!(
        apply_selected_at_completion(&files(), "@nope", 5, 0, false, token, with_prefix),
        None
    );
    assert_eq!(
        apply_selected_at_completion(&files(), "nope", 4, 0, false, token, with_prefix),
        None
    );
    assert_eq!(
        apply_selected_at_completion(&files(), "/@src", 5, 0, false, token, with_prefix),
        None
    );
}

#[test]
fn the_box_grows_with_its_rows_and_notes() {
    let wrap = |text: &str, width: usize| -> Vec<String> {
        let chars: Vec<char> = text.chars().collect();
        chars.chunks(width).map(|c| c.iter().collect()).collect()
    };
    // An empty buffer has one row and the hint.
    assert_eq!(composer_box_height(&session(""), 80, wrap), 4);
    assert_eq!(composer_box_height(&session("hello"), 80, wrap), 3);
    // Six columns leave two for the input; four or fewer leave one.
    assert_eq!(composer_box_height(&session("hello"), 6, wrap), 5);
    assert_eq!(composer_box_height(&session("hello"), 4, wrap), 7);
    assert_eq!(composer_box_height(&session("hello"), 0, wrap), 7);
    assert_eq!(composer_box_height(&session("/he"), 80, wrap), 4);
    let mut g = session("hello");
    g.staged_images = 3;
    assert_eq!(composer_box_height(&g, 80, wrap), 4);
    g.approval_active = true;
    assert_eq!(composer_box_height(&g, 80, wrap), 5);
    g.approval_active = false;
    g.question_active = true;
    assert_eq!(composer_box_height(&g, 80, wrap), 5);
    g.question_modal_open = true;
    assert_eq!(composer_box_height(&g, 80, wrap), 4);
    assert!(!box_fits(&session("x"), 0x10003));
    assert_eq!(box_height(&session("x"), 65533), 65535);
    assert!(box_fits(&session("x"), 65533));
    assert!(!box_fits(&session("x"), 65534));
    assert!(!box_fits(&session(""), 65533));
}
