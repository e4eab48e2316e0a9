//! Editing the composer buffer and completing `@` mentions in it.
//!
//! What counts as an `@` token, which spans of a buffer are mentions and which
//! workspace files go with a prefix is for the caller to say: the functions
//! here take those lookups as arguments and are specified for every answer.

use vstd::prelude::*;
use vstd::string::*;
use vstd::utf8::*;

use crate::composer_line::{rows_view, scene, styled_rows, Line};
use crate::text::{
    at_boundary, byte_offset, byte_offset_grows, byte_offset_inverts, char_at_byte, chars_before,
    chars_of, from_char, is_space, offset_of_char, start_is_trimmed, trim_start, trimmed_start,
};

verus! {

/// The most rows that a completion panel shows at once.
pub const SLASH_PANEL_MAX_ROWS: usize = 8;

/// A cursor past the end of `s` stands at the end.
pub open spec fn clamped(s: Seq<char>, cursor: int) -> int {
    if cursor <= s.len() {
        cursor
    } else {
        s.len() as int
    }
}

/// The byte offset at which the cursor stands.
pub open spec fn cursor_byte(s: Seq<char>, cursor: int) -> usize {
    byte_offset(s, clamped(s, cursor)) as usize
}

/// The slash panel shows while the buffer, but for leading white space, is a
/// `/` word without a blank.
pub open spec fn panel_visible(s: Seq<char>) -> bool {
    let t = trimmed_start(s);
    t.len() > 0 && t[0] == '/' && !t.contains(' ')
}

/// Text used for `/command` detection: leading white space is ignored.
pub fn slash_command_buffer(buffer: &str) -> (r: &str)
    ensures
        r@ == trimmed_start(buffer@),
{
    trim_start(buffer)
}

/// Whether the slash panel shows for this buffer.
pub fn slash_panel_visible(buffer: &str) -> (r: bool)
    ensures
        r == panel_visible(buffer@),
{
    let chars = chars_of(slash_command_buffer(buffer));
    let ghost t = trimmed_start(buffer@);
    if chars.len() == 0 || chars[0] != '/' {
        return false;
    }
    let mut i: usize = 0;
    while i < chars.len()
        invariant
            chars@ == t,
            t == trimmed_start(buffer@),
            i <= chars@.len(),
            forall|j: int| 0 <= j < i ==> t[j] != ' ',
        decreases chars@.len() - i,
    {
        if chars[i] == ' ' {
            assert(t[i as int] == ' ');
            return false;
        }
        i += 1;
    }
    true
}

/// The byte offset of a character, or the length of the line past its end.
pub fn cursor_byte_index(line: &str, cursor_char_idx: usize) -> (r: usize)
    ensures
        r == byte_offset(line@, clamped(line@, cursor_char_idx as int)),
        r == cursor_byte(line@, cursor_char_idx as int),
{
    offset_of_char(line, cursor_char_idx)
}

/// The height of the completion panel for `n` matches.
pub open spec fn at_panel_rows(n: nat) -> nat {
    if n == 0 {
        0
    } else if n <= SLASH_PANEL_MAX_ROWS {
        n + 2
    } else {
        (SLASH_PANEL_MAX_ROWS + 2) as nat
    }
}

/// The height of the completion panel: its rows and the two borders, nothing
/// without a match.
pub fn at_panel_height(n: usize) -> (r: u16)
    ensures
        r == at_panel_rows(n as nat),
{
    if n == 0 {
        return 0;
    }
    let rows: usize = if n <= SLASH_PANEL_MAX_ROWS {
        n
    } else {
        SLASH_PANEL_MAX_ROWS
    };
    rows as u16 + 2
}

// ---------------------------------------------------------------------------
// Deleting
// ---------------------------------------------------------------------------

/// `s` without its characters from `start` up to `end`.
pub open spec fn without_range(s: Seq<char>, start: int, end: int) -> Seq<char> {
    s.take(start) + s.skip(end)
}

/// Where one gets from `end` by going back over white space (`space`) or over
/// other characters (`!space`).
pub open spec fn back_over(s: Seq<char>, end: int, space: bool) -> int
    decreases end,
{
    if 0 < end <= s.len() && is_space(s[end - 1]) == space {
        back_over(s, end - 1, space)
    } else {
        end
    }
}

/// The start of the word behind `end`, white space between the two skipped.
pub open spec fn word_start(s: Seq<char>, end: int) -> int {
    back_over(s, back_over(s, end, true), false)
}

/// The start of the line that position `end` stands in: behind the nearest
/// newline before it.
pub open spec fn line_start(s: Seq<char>, end: int) -> int
    decreases end,
{
    if 0 < end <= s.len() && s[end - 1] != '\n' {
        line_start(s, end - 1)
    } else {
        end
    }
}

/// Removes the characters from `start_char_idx` up to `end_char_idx`.
pub fn remove_char_range(buffer: &str, start_char_idx: usize, end_char_idx: usize) -> (r: String)
    requires
        start_char_idx <= end_char_idx <= buffer@.len(),
    ensures
        r@ == without_range(buffer@, start_char_idx as int, end_char_idx as int),
{
    let head = buffer.substring_char(0, start_char_idx);
    assert(head@ =~= buffer@.take(start_char_idx as int));
    let tail = from_char(buffer, end_char_idx);
    head.to_owned().concat(tail)
}

/// Goes back from `end` over white space, or over other characters.
fn go_back(chars: &[char], end: usize, space: bool) -> (r: usize)
    requires
        end <= chars@.len(),
    ensures
        r == back_over(chars@, end as int, space),
        r <= end,
{
    let mut at: usize = end;
    while at > 0 && chars[at - 1].is_whitespace() == space
        invariant
            at <= end <= chars@.len(),
            back_over(chars@, end as int, space) == back_over(chars@, at as int, space),
        decreases at,
    {
        at -= 1;
    }
    at
}

/// Deletes back through the word behind the cursor, trailing white space
/// first. The new buffer and cursor; nothing where the cursor is at the start.
pub fn delete_word_backward(buffer: &str, cursor_char_idx: usize) -> (r: Option<(String, usize)>)
    requires
        cursor_char_idx <= buffer@.len(),
    ensures
        r is None <==> cursor_char_idx == 0,
        r matches Some((text, cursor)) ==> {
            &&& cursor == word_start(buffer@, cursor_char_idx as int)
            &&& text@ == without_range(buffer@, cursor as int, cursor_char_idx as int)
        },
{
    if cursor_char_idx == 0 {
        return None;
    }
    let chars = chars_of(buffer);
    let word_end: usize = go_back(chars.as_slice(), cursor_char_idx, true);
    let start: usize = go_back(chars.as_slice(), word_end, false);
    Some((remove_char_range(buffer, start, cursor_char_idx), start))
}

/// Deletes from the cursor back to the start of its line. The new buffer and
/// cursor; nothing where the cursor is there already.
pub fn delete_to_line_start(buffer: &str, cursor_char_idx: usize) -> (r: Option<(String, usize)>)
    ensures
        r is None <==> ({
            let end = clamped(buffer@, cursor_char_idx as int);
            line_start(buffer@, end) == end
        }),
        r matches Some((text, cursor)) ==> {
            let end = clamped(buffer@, cursor_char_idx as int);
            &&& cursor == line_start(buffer@, end)
            &&& text@ == without_range(buffer@, cursor as int, end)
        },
{
    let chars = chars_of(buffer);
    let end: usize = if cursor_char_idx <= chars.len() {
        cursor_char_idx
    } else {
        chars.len()
    };
    let mut start: usize = end;
    while start > 0 && chars[start - 1] != '\n'
        invariant
            chars@ == buffer@,
            start <= end <= chars@.len(),
            line_start(buffer@, end as int) == line_start(buffer@, start as int),
        decreases start,
    {
        start -= 1;
    }
    if start == end {
        return None;
    }
    Some((remove_char_range(buffer, start, end), start))
}

// ---------------------------------------------------------------------------
// Mentions
// ---------------------------------------------------------------------------

/// Byte spans that begin and end at characters of `s`.
pub open spec fn spans_fit(s: Seq<char>, spans: Seq<(usize, usize)>) -> bool {
    forall|i: int|
        0 <= i < spans.len() ==> at_boundary(s, (#[trigger] spans[i]).0 as int) && at_boundary(
            s,
            spans[i].1 as int,
        )
}

/// A range that ends no earlier than it begins, where there is one.
pub open spec fn range_ordered(range: Option<(usize, usize)>) -> bool {
    range matches Some((start, end)) ==> start <= end
}

/// The character range of a byte span.
pub open spec fn char_range(s: Seq<char>, span: (usize, usize)) -> (usize, usize) {
    (char_at_byte(s, span.0 as int) as usize, char_at_byte(s, span.1 as int) as usize)
}

/// The character ranges of byte spans.
pub open spec fn char_ranges(s: Seq<char>, spans: Seq<(usize, usize)>) -> Seq<(usize, usize)> {
    Seq::new(spans.len(), |i: int| char_range(s, spans[i]))
}

/// A mention that ends at the cursor, or one blank before it.
pub open spec fn completed_by(s: Seq<char>, range: (usize, usize), cursor: int) -> bool {
    ||| range.1 == cursor
    ||| range.1 < s.len() && range.1 + 1 == cursor && s[range.1 as int] == ' '
}

/// The first of `ranges` that is completed at the cursor, with the blank
/// behind it.
pub open spec fn completed_range(
    s: Seq<char>,
    ranges: Seq<(usize, usize)>,
    cursor: usize,
) -> Option<(usize, usize)>
    decreases ranges.len(),
{
    if ranges.len() == 0 {
        None
    } else if completed_by(s, ranges[0], cursor as int) {
        Some((ranges[0].0, cursor))
    } else {
        completed_range(s, ranges.drop_first(), cursor)
    }
}

/// The character ranges of byte spans of `buffer`.
pub fn span_char_ranges(buffer: &str, spans: &[(usize, usize)]) -> (r: Vec<(usize, usize)>)
    requires
        spans_fit(buffer@, spans@),
    ensures
        r@ == char_ranges(buffer@, spans@),
{
    let mut out: Vec<(usize, usize)> = Vec::new();
    let mut i: usize = 0;
    while i < spans.len()
        invariant
            i <= spans@.len(),
            spans_fit(buffer@, spans@),
            out@.len() == i,
            forall|j: int| 0 <= j < i ==> out@[j] == char_range(buffer@, spans@[j]),
        decreases spans@.len() - i,
    {
        let (start, end) = spans[i];
        assert(spans@[i as int] == (start, end));
        out.push((chars_before(buffer, start), chars_before(buffer, end)));
        i += 1;
    }
    assert(out@ =~= char_ranges(buffer@, spans@));
    out
}

/// The character ranges of the mentions that `parse_at_mentions` finds, as
/// byte spans, in the buffer.
pub fn at_mention_char_ranges(
    buffer: &str,
    parse_at_mentions: impl Fn(&str) -> Vec<(usize, usize)>,
) -> (r: Vec<(usize, usize)>)
    requires
        call_requires(parse_at_mentions, (buffer,)),
        forall|spans: Vec<(usize, usize)>|
            call_ensures(parse_at_mentions, (buffer,), spans) ==> spans_fit(buffer@, spans@),
    ensures
        exists|spans: Vec<(usize, usize)>|
            call_ensures(parse_at_mentions, (buffer,), spans) && r@ == char_ranges(
                buffer@,
                spans@,
            ),
{
    let spans = parse_at_mentions(buffer);
    span_char_ranges(buffer, spans.as_slice())
}

/// The first of `ranges` that is completed at the cursor.
pub fn completed_among(buffer: &str, ranges: &[(usize, usize)], cursor_char_idx: usize) -> (r: Option<
    (usize, usize),
>)
    ensures
        r == completed_range(buffer@, ranges@, cursor_char_idx),
{
    let chars = chars_of(buffer);
    let mut i: usize = 0;
    assert(ranges@.skip(0) =~= ranges@);
    while i < ranges.len()
        invariant
            chars@ == buffer@,
            i <= ranges@.len(),
            completed_range(buffer@, ranges@, cursor_char_idx) == completed_range(
                buffer@,
                ranges@.skip(i as int),
                cursor_char_idx,
            ),
        decreases ranges@.len() - i,
    {
        let (start, end) = ranges[i];
        assert(ranges@.skip(i as int)[0] == (start, end));
        assert(ranges@.skip(i as int).drop_first() =~= ranges@.skip(i + 1));
        if end == cursor_char_idx {
            return Some((start, end));
        }
        if end < chars.len() && end + 1 == cursor_char_idx && chars[end] == ' ' {
            return Some((start, end + 1));
        }
        i += 1;
    }
    None
}

/// The first mention that ends at the cursor, or one blank before it; that
/// blank is then part of the range.
pub fn completed_at_mention_range_before_cursor(
    buffer: &str,
    cursor_char_idx: usize,
    parse_at_mentions: impl Fn(&str) -> Vec<(usize, usize)>,
) -> (r: Option<(usize, usize)>)
    requires
        call_requires(parse_at_mentions, (buffer,)),
        forall|spans: Vec<(usize, usize)>|
            call_ensures(parse_at_mentions, (buffer,), spans) ==> spans_fit(buffer@, spans@),
    ensures
        exists|spans: Vec<(usize, usize)>|
            call_ensures(parse_at_mentions, (buffer,), spans) && r == completed_range(
                buffer@,
                char_ranges(buffer@, spans@),
                cursor_char_idx,
            ),
{
    let ranges = at_mention_char_ranges(buffer, parse_at_mentions);
    completed_among(buffer, ranges.as_slice(), cursor_char_idx)
}

/// A completed range ends within the text.
proof fn completed_range_fits(s: Seq<char>, ranges: Seq<(usize, usize)>, cursor: usize)
    requires
        forall|i: int| 0 <= i < ranges.len() ==> (#[trigger] ranges[i]).1 <= s.len(),
    ensures
        completed_range(s, ranges, cursor) matches Some((start, end)) ==> end <= s.len(),
    decreases ranges.len(),
{
    if ranges.len() > 0 && !completed_by(s, ranges[0], cursor as int) {
        assert forall|i: int| 0 <= i < ranges.drop_first().len() implies (
        #[trigger] ranges.drop_first()[i]).1 <= s.len() by {
            assert(ranges.drop_first()[i] == ranges[i + 1]);
        }
        completed_range_fits(s, ranges.drop_first(), cursor);
    }
}

/// The character ranges of spans end within the text.
proof fn char_ranges_fit(s: Seq<char>, spans: Seq<(usize, usize)>)
    requires
        spans_fit(s, spans),
        s.len() <= usize::MAX,
    ensures
        forall|i: int|
            0 <= i < spans.len() ==> (#[trigger] char_ranges(s, spans)[i]).1 <= s.len(),
{
    assert forall|i: int| 0 <= i < spans.len() implies (#[trigger] char_ranges(s, spans)[i]).1
        <= s.len() by {
        let b = char_at_byte(s, spans[i].1 as int);
        assert(0 <= b <= s.len() && byte_offset(s, b) == spans[i].1);
    }
}

/// Deletes the mention that is completed at the cursor. The new buffer and
/// cursor; nothing where no mention is.
pub fn delete_completed_at_mention(
    buffer: &str,
    cursor_char_idx: usize,
    parse_at_mentions: impl Fn(&str) -> Vec<(usize, usize)>,
) -> (r: Option<(String, usize)>)
    requires
        call_requires(parse_at_mentions, (buffer,)),
        forall|spans: Vec<(usize, usize)>|
            call_ensures(parse_at_mentions, (buffer,), spans) ==> spans_fit(buffer@, spans@)
                && range_ordered(
                completed_range(buffer@, char_ranges(buffer@, spans@), cursor_char_idx),
            ),
    ensures
        exists|spans: Vec<(usize, usize)>|
            call_ensures(parse_at_mentions, (buffer,), spans) && ({
                let range = completed_range(
                    buffer@,
                    char_ranges(buffer@, spans@),
                    cursor_char_idx,
                );
                match r {
                    None => range is None,
                    Some((text, cursor)) => range == Some((cursor, cursor_char_idx)) && text@
                        == without_range(buffer@, cursor as int, cursor_char_idx as int),
                }
            }),
{
    let n: usize = buffer.unicode_len();
    let spans = parse_at_mentions(buffer);
    let ranges = span_char_ranges(buffer, spans.as_slice());
    proof {
        char_ranges_fit(buffer@, spans@);
        completed_range_fits(buffer@, ranges@, cursor_char_idx);
        completed_range_ends(buffer@, ranges@, cursor_char_idx);
    }
    match completed_among(buffer, ranges.as_slice(), cursor_char_idx) {
        None => None,
        Some((start, end)) => Some((remove_char_range(buffer, start, end), start)),
    }
}

/// A completed range ends at the cursor.
proof fn completed_range_ends(s: Seq<char>, ranges: Seq<(usize, usize)>, cursor: usize)
    ensures
        completed_range(s, ranges, cursor) matches Some((start, end)) ==> end == cursor,
    decreases ranges.len(),
{
    if ranges.len() > 0 && !completed_by(s, ranges[0], cursor as int) {
        completed_range_ends(s, ranges.drop_first(), cursor);
    }
}

/// Draws the buffer, its mentions set off, with the cursor in it.
pub fn composer_line(
    buffer: &str,
    cursor_char_idx: usize,
    parse_at_mentions: impl Fn(&str) -> Vec<(usize, usize)>,
) -> (r: Vec<Line>)
    requires
        call_requires(parse_at_mentions, (buffer,)),
        forall|spans: Vec<(usize, usize)>|
            call_ensures(parse_at_mentions, (buffer,), spans) ==> spans_fit(buffer@, spans@),
    ensures
        exists|spans: Vec<(usize, usize)>|
            call_ensures(parse_at_mentions, (buffer,), spans) && rows_view(r@) == scene(
                buffer@,
                char_ranges(buffer@, spans@),
                cursor_char_idx as int,
            ).rows(),
{
    let ranges = at_mention_char_ranges(buffer, parse_at_mentions);
    styled_rows(buffer, ranges.as_slice(), cursor_char_idx)
}

// ---------------------------------------------------------------------------
// Completion
// ---------------------------------------------------------------------------

/// An `@` token before the cursor: the byte offset of its `@`, and the text
/// between that and the cursor.
pub type AtToken = (usize, String);

/// `found` is what the lookup may answer for the cursor in `buffer`.
pub open spec fn answers_token<F: Fn(&str, usize) -> Option<AtToken>>(
    at_token_before_cursor: F,
    buffer: &str,
    cursor: usize,
    found: Option<AtToken>,
) -> bool {
    call_ensures(at_token_before_cursor, (buffer, cursor_byte(buffer@, cursor as int)), found)
}

/// The byte after a token's `@` is the start of a character, or the end.
pub open spec fn token_fits(s: Seq<char>, found: Option<AtToken>) -> bool {
    found matches Some((at, _)) ==> at_boundary(s, at + 1)
}

/// The buffer and the cursor once `choice` stands in place of the token's
/// text.
pub open spec fn completed(s: Seq<char>, cursor: int, at: usize, choice: Seq<char>) -> (
    Seq<char>,
    int,
) {
    let from = char_at_byte(s, at + 1);
    (s.take(from) + choice + s.skip(clamped(s, cursor)), from + choice.len())
}

/// The buffer and the cursor once a blank stands at the cursor.
pub open spec fn with_blank(s: Seq<char>, cursor: int) -> (Seq<char>, int) {
    (s.take(cursor).push(' ') + s.skip(cursor), cursor + 1)
}

/// The match that a menu position picks: the last one past the end.
pub open spec fn picked(hits: Seq<String>, at: usize) -> Seq<char> {
    hits[if at < hits.len() {
        at as int
    } else {
        hits.len() - 1
    }]@
}

/// Whether an `@` completion is under way: the slash panel does not show, and
/// a token stands before the cursor.
pub fn at_completion_active(
    buffer: &str,
    cursor_char_idx: usize,
    at_token_before_cursor: impl Fn(&str, usize) -> Option<AtToken>,
) -> (r: bool)
    requires
        call_requires(
            at_token_before_cursor,
            (buffer, cursor_byte(buffer@, cursor_char_idx as int)),
        ),
    ensures
        panel_visible(buffer@) ==> !r,
        !panel_visible(buffer@) ==> exists|found: Option<AtToken>|
            answers_token(at_token_before_cursor, buffer, cursor_char_idx, found) && r == (
            found is Some),
{
    if slash_panel_visible(buffer) {
        return false;
    }
    let b: usize = cursor_byte_index(buffer, cursor_char_idx);
    let found = at_token_before_cursor(buffer, b);
    assert(answers_token(at_token_before_cursor, buffer, cursor_char_idx, found));
    found.is_some()
}

/// The workspace files that complete the token before the cursor: what
/// `filter_paths_prefix` answers for its text, and none without a token.
pub fn at_completion_matches(
    workspace_files: &[String],
    buffer: &str,
    cursor_char_idx: usize,
    at_token_before_cursor: impl Fn(&str, usize) -> Option<AtToken>,
    filter_paths_prefix: impl Fn(&[String], String) -> Vec<String>,
) -> (r: Vec<String>)
    requires
        call_requires(
            at_token_before_cursor,
            (buffer, cursor_byte(buffer@, cursor_char_idx as int)),
        ),
        forall|prefix: String| call_requires(filter_paths_prefix, (workspace_files, prefix)),
    ensures
        panel_visible(buffer@) ==> r@.len() == 0,
        !panel_visible(buffer@) ==> exists|found: Option<AtToken>|
            answers_token(at_token_before_cursor, buffer, cursor_char_idx, found) && match found {
                None => r@.len() == 0,
                Some((_, prefix)) => call_ensures(
                    filter_paths_prefix,
                    (workspace_files, prefix),
                    r,
                ),
            },
{
    if slash_panel_visible(buffer) {
        return Vec::new();
    }
    let b: usize = cursor_byte_index(buffer, cursor_char_idx);
    let found = at_token_before_cursor(buffer, b);
    assert(answers_token(at_token_before_cursor, buffer, cursor_char_idx, found));
    match found {
        None => Vec::new(),
        Some((_, prefix)) => filter_paths_prefix(workspace_files, prefix),
    }
}

/// Puts `choice` behind the `@` at byte `at`, in place of the text up to the
/// cursor. The new buffer, and the cursor behind `choice`.
pub fn complete_token(buffer: &str, cursor_char_idx: usize, at: usize, choice: &str) -> (r: (
    String,
    usize,
))
    requires
        at_boundary(buffer@, at + 1),
    ensures
        (r.0@, r.1 as int) == completed(buffer@, cursor_char_idx as int, at, choice@),
{
    let n: usize = buffer.unicode_len();
    let total: usize = buffer.as_bytes().len();
    proof {
        let k = char_at_byte(buffer@, at + 1);
        byte_offset_grows(buffer@, k, buffer@.len() as int);
    }
    let from: usize = chars_before(buffer, at + 1);
    let cursor: usize = if cursor_char_idx <= n {
        cursor_char_idx
    } else {
        n
    };
    let before = buffer.substring_char(0, from);
    assert(before@ =~= buffer@.take(from as int));
    let head = before.to_owned().concat(choice);
    let new_cursor: usize = head.as_str().unicode_len();
    let after = from_char(buffer, cursor);
    (head.concat(after), new_cursor)
}

/// Replaces the token before the cursor by `@` and `choice`; without a token
/// nothing changes.
pub fn apply_at_completion(
    buffer: &str,
    cursor_char_idx: usize,
    choice: &str,
    at_token_before_cursor: impl Fn(&str, usize) -> Option<AtToken>,
) -> (r: (String, usize))
    requires
        call_requires(
            at_token_before_cursor,
            (buffer, cursor_byte(buffer@, cursor_char_idx as int)),
        ),
        forall|found: Option<AtToken>|
            answers_token(at_token_before_cursor, buffer, cursor_char_idx, found) ==> token_fits(
                buffer@,
                found,
            ),
    ensures
        exists|found: Option<AtToken>|
            answers_token(at_token_before_cursor, buffer, cursor_char_idx, found) && match found {
                None => r.0@ == buffer@ && r.1 == cursor_char_idx,
                Some((at, _)) => (r.0@, r.1 as int) == completed(
                    buffer@,
                    cursor_char_idx as int,
                    at,
                    choice@,
                ),
            },
{
    let b: usize = cursor_byte_index(buffer, cursor_char_idx);
    let found = at_token_before_cursor(buffer, b);
    assert(answers_token(at_token_before_cursor, buffer, cursor_char_idx, found));
    assert(token_fits(buffer@, found));
    match found {
        None => (buffer.to_owned(), cursor_char_idx),
        Some((at, _)) => complete_token(buffer, cursor_char_idx, at, choice),
    }
}

/// Puts a blank at the cursor and moves the cursor behind it.
fn insert_blank(text: String, cursor: usize) -> (r: (String, usize))
    requires
        cursor <= text@.len(),
    ensures
        (r.0@, r.1 as int) == with_blank(text@, cursor as int),
{
    let head = text.as_str().substring_char(0, cursor);
    assert(head@ =~= text@.take(cursor as int));
    let mut new_text = head.to_owned();
    new_text.push(' ');
    let new_cursor: usize = new_text.as_str().unicode_len();
    (new_text.concat(from_char(text.as_str(), cursor)), new_cursor)
}

/// Completes the token before the cursor with the match at a menu position,
/// a position past the end picking the last match, and a blank behind it if
/// asked for. Nothing where there is no match.
pub fn apply_selected_at_completion(
    workspace_files: &[String],
    buffer: &str,
    cursor_char_idx: usize,
    at_menu_index: usize,
    append_space: bool,
    at_token_before_cursor: impl Fn(&str, usize) -> Option<AtToken>,
    filter_paths_prefix: impl Fn(&[String], String) -> Vec<String>,
) -> (r: Option<(String, usize)>)
    requires
        call_requires(
            at_token_before_cursor,
            (buffer, cursor_byte(buffer@, cursor_char_idx as int)),
        ),
        forall|found: Option<AtToken>|
            answers_token(at_token_before_cursor, buffer, cursor_char_idx, found) ==> token_fits(
                buffer@,
                found,
            ),
        forall|prefix: String| call_requires(filter_paths_prefix, (workspace_files, prefix)),
    ensures
        panel_visible(buffer@) ==> r is None,
        !panel_visible(buffer@) ==> exists|found: Option<AtToken>|
            answers_token(at_token_before_cursor, buffer, cursor_char_idx, found) && match found {
                None => r is None,
                Some((at, prefix)) => exists|hits: Vec<String>|
                    call_ensures(filter_paths_prefix, (workspace_files, prefix), hits)
                        && match r {
                        None => hits@.len() == 0,
                        Some((text, cursor)) => hits@.len() > 0 && ({
                            let (done, behind) = completed(
                                buffer@,
                                cursor_char_idx as int,
                                at,
                                picked(hits@, at_menu_index),
                            );
                            (text@, cursor as int) == if append_space {
                                with_blank(done, behind)
                            } else {
                                (done, behind)
                            }
                        }),
                    },
            },
{
    if slash_panel_visible(buffer) {
        return None;
    }
    let b: usize = cursor_byte_index(buffer, cursor_char_idx);
    let found = at_token_before_cursor(buffer, b);
    assert(answers_token(at_token_before_cursor, buffer, cursor_char_idx, found));
    assert(token_fits(buffer@, found));
    match found {
        None => None,
        Some((at, prefix)) => {
            assert(0 <= char_at_byte(buffer@, at + 1) <= buffer@.len());
            let hits = filter_paths_prefix(workspace_files, prefix);
            if hits.len() == 0 {
                return None;
            }
            let pick: usize = if at_menu_index < hits.len() {
                at_menu_index
            } else {
                hits.len() - 1
            };
            let (text, cursor) = complete_token(
                buffer,
                cursor_char_idx,
                at,
                hits[pick].as_str(),
            );
            let done = if append_space {
                insert_blank(text, cursor)
            } else {
                (text, cursor)
            };
            Some(done)
        },
    }
}

// ---------------------------------------------------------------------------
// The input box
// ---------------------------------------------------------------------------

/// What the input box shows of the session.
pub struct TuiSessionState {
    pub input_buffer: String,
    /// An approval waits for an answer.
    pub approval_active: bool,
    /// A question waits for an answer.
    pub question_active: bool,
    /// The question is shown in a modal of its own.
    pub question_modal_open: bool,
    /// The number of images staged for the next message.
    pub staged_images: usize,
}

impl TuiSessionState {
    /// The status hint shows below the input.
    pub open spec fn hint_visible(self) -> bool {
        ||| self.approval_active
        ||| self.question_active && !self.question_modal_open
        ||| panel_visible(self.input_buffer@)
        ||| self.input_buffer@.len() == 0
    }

    /// The height of the box around `wrapped` rows of input: two borders, the
    /// rows, at least one, the note on staged images and the hint.
    pub open spec fn box_rows(self, wrapped: nat) -> int {
        let content: nat = if wrapped == 0 {
            1
        } else {
            wrapped
        };
        let staged: int = if self.staged_images == 0 {
            0
        } else {
            1
        };
        let hint: int = if self.hint_visible() {
            1
        } else {
            0
        };
        2 + content + staged + hint
    }
}

/// The width left for the input: four columns go to the borders and the
/// prompt, and one is always left.
pub open spec fn inner_width(width: u16) -> usize {
    if width <= 5 {
        1
    } else {
        (width - 4) as usize
    }
}

/// The rows of the box that no input takes: two borders, the note on staged
/// images and the hint.
fn other_rows(g: &TuiSessionState) -> (r: u16)
    ensures
        r == g.box_rows(1) - 1,
        2 <= r <= 4,
{
    let hint_visible = g.approval_active || (g.question_active && !g.question_modal_open)
        || slash_panel_visible(g.input_buffer.as_str()) || g.input_buffer.as_str().is_empty();
    let staged: u16 = if g.staged_images == 0 {
        0
    } else {
        1
    };
    let hint: u16 = if hint_visible {
        1
    } else {
        0
    };
    2 + staged + hint
}

/// Whether the height of the box around `wrapped` rows of input is one that a
/// terminal can have: within sixteen bits.
pub fn box_fits(g: &TuiSessionState, wrapped: usize) -> (r: bool)
    ensures
        r == (g.box_rows(wrapped as nat) <= u16::MAX),
{
    wrapped <= (u16::MAX - other_rows(g)) as usize
}

/// The height of the box around `wrapped` rows of input.
pub fn box_height(g: &TuiSessionState, wrapped: usize) -> (r: u16)
    requires
        g.box_rows(wrapped as nat) <= u16::MAX,
    ensures
        r == g.box_rows(wrapped as nat),
{
    let content: u16 = if wrapped == 0 {
        1
    } else {
        wrapped as u16
    };
    content + other_rows(g)
}

/// The height that the input box needs, borders included: the rows that
/// `wrap_text` makes of the buffer, the note on staged images and the hint.
pub fn composer_box_height(
    g: &TuiSessionState,
    width: u16,
    wrap_text: impl Fn(&str, usize) -> Vec<String>,
) -> (r: u16)
    requires
        forall|text: &str|
            text@ == g.input_buffer@ ==> call_requires(wrap_text, (text, inner_width(width))),
        forall|text: &str, rows: Vec<String>|
            text@ == g.input_buffer@ && call_ensures(wrap_text, (text, inner_width(width)), rows)
                ==> g.box_rows(rows@.len()) <= u16::MAX,
    ensures
        exists|text: &str, rows: Vec<String>|
            text@ == g.input_buffer@ && call_ensures(wrap_text, (text, inner_width(width)), rows)
                && r == g.box_rows(rows@.len()),
{
    let inner_w: usize = if width <= 5 {
        1
    } else {
        (width - 4) as usize
    };
    assert(inner_w == inner_width(width));
    let text = g.input_buffer.as_str();
    let rows = wrap_text(text, inner_w);
    box_height(g, rows.len())
}

// ---------------------------------------------------------------------------
// Laws
// ---------------------------------------------------------------------------

/// The byte offset of the cursor leads back to the cursor.
pub proof fn cursor_byte_leads_back(s: Seq<char>, cursor: int)
    requires
        0 <= cursor,
    ensures
        at_boundary(s, byte_offset(s, clamped(s, cursor)) as int),
        char_at_byte(s, byte_offset(s, clamped(s, cursor)) as int) == clamped(s, cursor),
{
    byte_offset_inverts(s, clamped(s, cursor));
}

/// Removing a range leaves what stands before it and what stands behind it.
pub proof fn removal_keeps_rest(s: Seq<char>, start: int, end: int)
    requires
        0 <= start <= end <= s.len(),
    ensures
        without_range(s, start, end).len() == s.len() - (end - start),
        without_range(s, start, end).take(start) == s.take(start),
        without_range(s, start, end).skip(start) == s.skip(end),
{
    let left = without_range(s, start, end);
    assert(left.take(start) =~= s.take(start));
    assert(left.skip(start) =~= s.skip(end));
}

/// What a word deletion removes is a word and the white space behind it: at
/// least one character, and no part of a word stays.
pub proof fn word_deletion_removes_a_word(s: Seq<char>, end: int)
    requires
        0 < end <= s.len(),
    ensures
        0 <= word_start(s, end) < end,
        ({
            let word_end = back_over(s, end, true);
            let start = word_start(s, end);
            &&& start <= word_end <= end
            &&& forall|i: int| start <= i < word_end ==> !is_space(#[trigger] s[i])
            &&& forall|i: int| word_end <= i < end ==> is_space(#[trigger] s[i])
            &&& start > 0 ==> is_space(s[start - 1])
            &&& start < word_end || start == 0
        }),
{
    going_back(s, end, true);
    going_back(s, back_over(s, end, true), false);
}

/// Going back passes over characters of one kind, as far as they go.
proof fn going_back(s: Seq<char>, end: int, space: bool)
    requires
        0 <= end <= s.len(),
    ensures
        0 <= back_over(s, end, space) <= end,
        forall|i: int| back_over(s, end, space) <= i < end ==> is_space(#[trigger] s[i]) == space,
        back_over(s, end, space) > 0 ==> is_space(s[back_over(s, end, space) - 1]) != space,
    decreases end,
{
    if 0 < end && is_space(s[end - 1]) == space {
        going_back(s, end - 1, space);
    }
}

/// The start of a line has a newline before it, or nothing; there is none
/// between it and where one came from.
pub proof fn line_start_is_behind_newline(s: Seq<char>, end: int)
    requires
        0 <= end <= s.len(),
    ensures
        0 <= line_start(s, end) <= end,
        line_start(s, end) > 0 ==> s[line_start(s, end) - 1] == '\n',
        forall|i: int| line_start(s, end) <= i < end ==> (#[trigger] s[i]) != '\n',
    decreases end,
{
    if 0 < end && s[end - 1] != '\n' {
        line_start_is_behind_newline(s, end - 1);
    }
}

/// Once a line is deleted back to its start, there is nothing more of it to
/// delete.
pub proof fn line_is_deleted_once(s: Seq<char>, end: int)
    requires
        0 <= end <= s.len(),
    ensures
        ({
            let start = line_start(s, end);
            line_start(without_range(s, start, end), start) == start
        }),
{
    line_start_is_behind_newline(s, end);
    let start = line_start(s, end);
    removal_keeps_rest(s, start, end);
    if start > 0 {
        assert(without_range(s, start, end).take(start)[start - 1] == s[start - 1]);
    }
}

/// A mention is deleted whole: it ends at the cursor, and was among the
/// mentions, with or without the blank behind it.
pub proof fn deleted_mention_was_there(s: Seq<char>, ranges: Seq<(usize, usize)>, cursor: usize)
    ensures
        match completed_range(s, ranges, cursor) {
            Some((start, end)) => end == cursor && exists|i: int|
                0 <= i < ranges.len() && (#[trigger] ranges[i]).0 == start && completed_by(
                    s,
                    ranges[i],
                    cursor as int,
                ),
            None => forall|i: int|
                0 <= i < ranges.len() ==> !completed_by(s, #[trigger] ranges[i], cursor as int),
        },
    decreases ranges.len(),
{
    if ranges.len() > 0 && !completed_by(s, ranges[0], cursor as int) {
        let rest = ranges.drop_first();
        deleted_mention_was_there(s, rest, cursor);
        match completed_range(s, ranges, cursor) {
            Some((start, end)) => {
                let i = choose|i: int|
                    0 <= i < rest.len() && (#[trigger] rest[i]).0 == start && completed_by(
                        s,
                        rest[i],
                        cursor as int,
                    );
                assert(ranges[i + 1] == rest[i]);
            },
            None => {
                assert forall|i: int| 0 <= i < ranges.len() implies !completed_by(
                    s,
                    #[trigger] ranges[i],
                    cursor as int,
                ) by {
                    if i > 0 {
                        assert(rest[i - 1] == ranges[i]);
                    }
                }
            },
        }
    }
}

/// A completion keeps the text up to and with the `@` and the text behind the
/// cursor, and the cursor stands behind the choice.
pub proof fn completion_keeps_rest(s: Seq<char>, cursor: int, at: usize, choice: Seq<char>)
    requires
        0 <= cursor,
        at_boundary(s, at + 1),
    ensures
        ({
            let from = char_at_byte(s, at + 1);
            let (done, behind) = completed(s, cursor, at, choice);
            &&& done.take(from) == s.take(from)
            &&& done.subrange(from, behind) == choice
            &&& done.skip(behind) == s.skip(clamped(s, cursor))
        }),
{
    let from = char_at_byte(s, at + 1);
    assert(0 <= from <= s.len() && byte_offset(s, from) == at + 1);
    let (done, behind) = completed(s, cursor, at, choice);
    assert(done.take(from) =~= s.take(from));
    assert(done.subrange(from, behind) =~= choice);
    assert(done.skip(behind) =~= s.skip(clamped(s, cursor)));
}

/// A completion panel takes at most ten rows, and has rows just where there
/// are matches.
pub proof fn panel_is_bounded(n: nat)
    ensures
        at_panel_rows(n) <= 10,
        at_panel_rows(n) == 0 <==> n == 0,
{
}

/// The height of a completion panel is two more than its matches, up to ten.
pub proof fn panel_grows_with_matches(n: nat)
    ensures
        1 <= n <= 8 ==> at_panel_rows(n) == n + 2,
        n > 8 ==> at_panel_rows(n) == 10,
{
}

/// The slash panel shows just where a slash comes first, white space aside, and
/// no blank behind it.
pub proof fn panel_shows_for_a_slash_word(s: Seq<char>)
    ensures
        panel_visible(s) <==> exists|k: int|
            0 <= k < s.len() && #[trigger] s[k] == '/' && (forall|i: int|
                0 <= i < k ==> is_space(#[trigger] s[i])) && (forall|i: int|
                k <= i < s.len() ==> (#[trigger] s[i]) != ' '),
{
    let at = start_is_trimmed(s);
    let t = s.skip(at);
    if panel_visible(s) {
        assert(s[at] == t[0]);
        assert forall|i: int| at <= i < s.len() implies (#[trigger] s[i]) != ' ' by {
            assert(t[i - at] == s[i]);
            assert(t.contains(t[i - at]));
        }
    }
    if exists|k: int|
        0 <= k < s.len() && #[trigger] s[k] == '/' && (forall|i: int|
            0 <= i < k ==> is_space(#[trigger] s[i])) && (forall|i: int|
            k <= i < s.len() ==> (#[trigger] s[i]) != ' ') {
        let k = choose|k: int|
            0 <= k < s.len() && #[trigger] s[k] == '/' && (forall|i: int|
                0 <= i < k ==> is_space(#[trigger] s[i])) && (forall|i: int|
                k <= i < s.len() ==> (#[trigger] s[i]) != ' ');
        if k < at {
            assert(is_space(s[k]));
        }
        if at < k {
            assert(is_space(s[at]));
        }
        assert(t[0] == s[k]);
        if t.contains(' ') {
            let i = choose|i: int| 0 <= i < t.len() && t[i] == ' ';
            assert(s[at + i] == ' ');
        }
    }
}

/// The cursor's byte offset is the length of what stands before it; past the
/// end, that of the whole text.
pub proof fn cursor_byte_measures_what_is_before(s: Seq<char>, cursor: int)
    requires
        0 <= cursor,
    ensures
        cursor <= s.len() ==> clamped(s, cursor) == cursor && cursor_byte(s, cursor)
            == encode_utf8(s.take(cursor)).len() as usize,
        cursor > s.len() ==> clamped(s, cursor) == s.len() && cursor_byte(s, cursor)
            == encode_utf8(s).len() as usize,
{
    assert(s.take(s.len() as int) =~= s);
}

/// Each byte span has its range, and as many bytes stand before the characters
/// of the range as before the span.
pub proof fn ranges_measure_spans(s: Seq<char>, spans: Seq<(usize, usize)>, i: int)
    requires
        spans_fit(s, spans),
        s.len() <= usize::MAX,
        0 <= i < spans.len(),
    ensures
        char_ranges(s, spans).len() == spans.len(),
        char_ranges(s, spans)[i].0 <= s.len(),
        char_ranges(s, spans)[i].1 <= s.len(),
        encode_utf8(s.take(char_ranges(s, spans)[i].0 as int)).len() == spans[i].0,
        encode_utf8(s.take(char_ranges(s, spans)[i].1 as int)).len() == spans[i].1,
{
    assert(at_boundary(s, spans[i].0 as int) && at_boundary(s, spans[i].1 as int));
    let a = char_at_byte(s, spans[i].0 as int);
    let b = char_at_byte(s, spans[i].1 as int);
    assert(0 <= a <= s.len() && byte_offset(s, a) == spans[i].0);
    assert(0 <= b <= s.len() && byte_offset(s, b) == spans[i].1);
}

/// The mention that is completed is the first that ends at the cursor, or with
/// one blank between the two, and reaches from its start to the cursor; there is
/// none just where no mention ends so.
pub proof fn first_completed_is_found(s: Seq<char>, ranges: Seq<(usize, usize)>, cursor: usize)
    ensures
        match completed_range(s, ranges, cursor) {
            Some((start, end)) => end == cursor && exists|i: int|
                0 <= i < ranges.len() && (#[trigger] ranges[i]).0 == start && (ranges[i].1 == cursor
                    || (ranges[i].1 < s.len() && ranges[i].1 + 1 == cursor
                    && s[ranges[i].1 as int] == ' ')) && forall|j: int|
                    0 <= j < i ==> (#[trigger] ranges[j]).1 != cursor && !(ranges[j].1 < s.len()
                        && ranges[j].1 + 1 == cursor && s[ranges[j].1 as int] == ' '),
            None => forall|j: int|
                0 <= j < ranges.len() ==> (#[trigger] ranges[j]).1 != cursor && !(ranges[j].1
                    < s.len() && ranges[j].1 + 1 == cursor && s[ranges[j].1 as int] == ' '),
        },
    decreases ranges.len(),
{
    if ranges.len() > 0 && !completed_by(s, ranges[0], cursor as int) {
        let rest = ranges.drop_first();
        first_completed_is_found(s, rest, cursor);
        match completed_range(s, ranges, cursor) {
            Some((start, end)) => {
                let i = choose|i: int|
                    0 <= i < rest.len() && (#[trigger] rest[i]).0 == start && (rest[i].1 == cursor
                        || (rest[i].1 < s.len() && rest[i].1 + 1 == cursor
                        && s[rest[i].1 as int] == ' ')) && forall|j: int|
                        0 <= j < i ==> (#[trigger] rest[j]).1 != cursor && !(rest[j].1 < s.len()
                            && rest[j].1 + 1 == cursor && s[rest[j].1 as int] == ' ');
                assert(ranges[i + 1] == rest[i]);
                assert forall|j: int| 0 <= j < i + 1 implies (#[trigger] ranges[j]).1 != cursor
                    && !(ranges[j].1 < s.len() && ranges[j].1 + 1 == cursor
                    && s[ranges[j].1 as int] == ' ') by {
                    if j > 0 {
                        assert(rest[j - 1] == ranges[j]);
                    }
                }
            },
            None => {
                assert forall|j: int| 0 <= j < ranges.len() implies (#[trigger] ranges[j]).1
                    != cursor && !(ranges[j].1 < s.len() && ranges[j].1 + 1 == cursor
                    && s[ranges[j].1 as int] == ' ') by {
                    if j > 0 {
                        assert(rest[j - 1] == ranges[j]);
                    }
                }
            },
        }
    } else if ranges.len() > 0 {
        assert(ranges[0].0 == ranges[0].0);
    }
}

/// A position of the menu picks the match that stands there; a position behind
/// the last match picks the last one.
pub proof fn menu_picks_what_stands_there(hits: Seq<String>, at: usize)
    requires
        hits.len() > 0,
    ensures
        at < hits.len() ==> picked(hits, at) == hits[at as int]@,
        at >= hits.len() ==> picked(hits, at) == hits.last()@,
{
}

/// What completing with a position of the menu puts between the `@` and the
/// cursor is the match at that position, and behind it a blank where one is
/// asked for; all else stays.
pub proof fn selected_match_is_put_in(
    s: Seq<char>,
    cursor: int,
    at: usize,
    hits: Seq<String>,
    index: usize,
)
    requires
        0 <= cursor <= s.len(),
        at_boundary(s, at + 1),
        index < hits.len(),
    ensures
        ({
            let from = char_at_byte(s, at + 1);
            let (done, behind) = completed(s, cursor, at, picked(hits, index));
            let (spaced, past) = with_blank(done, behind);
            &&& done == s.take(from) + hits[index as int]@ + s.skip(cursor)
            &&& behind == from + hits[index as int]@.len()
            &&& spaced == s.take(from) + hits[index as int]@ + seq![' '] + s.skip(cursor)
            &&& past == behind + 1
        }),
{
    let from = char_at_byte(s, at + 1);
    assert(0 <= from <= s.len() && byte_offset(s, from) == at + 1);
    let choice = hits[index as int]@;
    let (done, behind) = completed(s, cursor, at, picked(hits, index));
    let (spaced, past) = with_blank(done, behind);
    assert(done =~= s.take(from) + choice + s.skip(cursor));
    assert(spaced =~= s.take(from) + choice + seq![' '] + s.skip(cursor));
}

/// A blank at the cursor moves what is behind the cursor on by one, and nothing
/// else.
pub proof fn blank_is_put_at_cursor(s: Seq<char>, cursor: int)
    requires
        0 <= cursor <= s.len(),
    ensures
        with_blank(s, cursor).0.len() == s.len() + 1,
        with_blank(s, cursor).0.take(cursor) == s.take(cursor),
        with_blank(s, cursor).0[cursor] == ' ',
        with_blank(s, cursor).0.skip(cursor + 1) == s.skip(cursor),
        with_blank(s, cursor).1 == cursor + 1,
{
    let (text, _) = with_blank(s, cursor);
    assert(text.take(cursor) =~= s.take(cursor));
    assert(text.skip(cursor + 1) =~= s.skip(cursor));
}

/// A box without input is as high as one with a row of it; each further row
/// makes it one row higher.
pub proof fn box_grows_by_the_row(g: TuiSessionState, wrapped: nat)
    ensures
        g.box_rows(0) == g.box_rows(1),
        wrapped >= 1 ==> g.box_rows(wrapped + 1) == g.box_rows(wrapped) + 1,
{
}

/// Around one row of input the box has two borders, and one row more for staged
/// images and for the hint each. The hint shows while an approval waits, while a
/// question waits that no modal shows, with the slash panel, and for an empty
/// buffer.
pub proof fn box_has_its_notes(g: TuiSessionState)
    ensures
        ({
            let staged: int = if g.staged_images > 0 {
                1
            } else {
                0
            };
            let hint: int = if g.approval_active || (g.question_active && !g.question_modal_open)
                || panel_visible(g.input_buffer@) || g.input_buffer@.len() == 0 {
                1
            } else {
                0
            };
            g.box_rows(1) == 3 + staged + hint
        }),
{
}

/// Four columns of the width are not for the input, and one always is.
pub proof fn four_columns_are_taken(width: u16)
    ensures
        width > 4 ==> inner_width(width) + 4 == width,
        width <= 4 ==> inner_width(width) == 1,
{
}

/// The token is looked for in the whole buffer, at the byte offset of the
/// cursor: the length of what stands before it.
pub proof fn token_is_looked_for_at_cursor<F: Fn(&str, usize) -> Option<AtToken>>(
    at_token_before_cursor: F,
    buffer: &str,
    cursor: usize,
    found: Option<AtToken>,
)
    requires
        cursor <= buffer@.len(),
    ensures
        answers_token(at_token_before_cursor, buffer, cursor, found) <==> call_ensures(
            at_token_before_cursor,
            (buffer, encode_utf8(buffer@.take(cursor as int)).len() as usize),
            found,
        ),
{
    cursor_byte_measures_what_is_before(buffer@, cursor as int);
}

} // verus!
