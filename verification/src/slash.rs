//! The slash panel: commands and discovered skills, listed and filtered.

use vstd::prelude::*;
use vstd::string::*;
use vstd::utf8::*;

use crate::composer::{
    answers_token, at_completion_matches, at_panel_height, at_panel_rows, cursor_byte,
    panel_visible, slash_command_buffer, slash_panel_visible, AtToken, SLASH_PANEL_MAX_ROWS,
};
use crate::palette::CommandSpec;
use crate::text::{
    begins_with, chars_of, eq_ignore_case, lower_ascii, lowercase, same_ignoring_case, trim_slashes,
    trimmed_start, without_slashes,
};

verus! {

/// Where a skill was found.
#[derive(Debug, Clone, Copy, PartialEq, Eq, Structural)]
pub enum SkillSource {
    AgentsMd,
    FileSystem,
}

/// A discovered skill.
pub struct Skill {
    /// The command without a slash.
    pub command: String,
    pub description: Option<String>,
    pub source: SkillSource,
}

/// Entry for the slash panel: either a hardcoded command or a discovered skill.
#[derive(Clone)]
pub enum SlashEntry {
    Command(&'static str),
    Skill { command: String, description: Option<String>, source: SkillSource },
}

/// `s` with blanks behind it until it is at least `width` long.
pub open spec fn padded(s: Seq<char>, width: nat) -> Seq<char>
    decreases width - s.len(),
{
    if s.len() < width {
        padded(s.push(' '), width)
    } else {
        s
    }
}

impl SkillSource {
    /// The tag that names the source.
    pub open spec fn tag(self) -> Seq<char> {
        match self {
            SkillSource::AgentsMd => " (AGENTS.md)"@,
            SkillSource::FileSystem => " (skill dir)"@,
        }
    }
}

impl SlashEntry {
    /// The command with its slash.
    pub open spec fn name(self) -> Seq<char> {
        match self {
            SlashEntry::Command(s) => s@,
            SlashEntry::Skill { command, .. } => "/"@ + command@,
        }
    }

    /// The text that the panel shows.
    pub open spec fn shown(self) -> Seq<char> {
        match self {
            SlashEntry::Command(s) => s@,
            SlashEntry::Skill { command, description, source } => match description {
                Some(desc) => "/"@ + padded(command@, 20) + " \u{2014} "@ + desc@ + source.tag(),
                None => "/"@ + command@ + source.tag(),
            },
        }
    }

    /// What entries are ordered by.
    pub open spec fn key(self) -> Seq<char> {
        lowercase(self.name())
    }

    /// The command with its slash.
    pub fn command_str(&self) -> (r: String)
        ensures
            r@ == self.name(),
    {
        match self {
            SlashEntry::Command(s) => (*s).to_owned(),
            SlashEntry::Skill { command, .. } => "/".to_owned().concat(command.as_str()),
        }
    }

    /// The text that the panel shows: a skill with its description, the
    /// command padded to twenty columns, and where it comes from.
    pub fn display_text(&self) -> (r: String)
        ensures
            r@ == self.shown(),
    {
        match self {
            SlashEntry::Command(s) => (*s).to_owned(),
            SlashEntry::Skill { command, description, source } => {
                let tag = match source {
                    SkillSource::AgentsMd => " (AGENTS.md)",
                    SkillSource::FileSystem => " (skill dir)",
                };
                match description {
                    Some(desc) => {
                        let cell = pad(command.clone(), 20);
                        "/".to_owned().concat(cell.as_str()).concat(" \u{2014} ").concat(
                            desc.as_str(),
                        ).concat(tag)
                    },
                    None => "/".to_owned().concat(command.as_str()).concat(tag),
                }
            },
        }
    }
}

/// Puts blanks behind a text until it is `width` long.
fn pad(text: String, width: usize) -> (r: String)
    ensures
        r@ == padded(text@, width as nat),
{
    let mut out = text;
    let mut len: usize = out.as_str().unicode_len();
    while len < width
        invariant
            len == out@.len(),
            padded(text@, width as nat) == padded(out@, width as nat),
        decreases width - len,
    {
        out.push(' ');
        len += 1;
    }
    out
}

// ---------------------------------------------------------------------------
// Order
// ---------------------------------------------------------------------------

/// `a` comes no later than `b`, character by character.
pub open spec fn in_order(a: Seq<char>, b: Seq<char>) -> bool
    decreases a.len(),
{
    if a.len() == 0 {
        true
    } else if b.len() == 0 {
        false
    } else if a[0] == b[0] {
        in_order(a.drop_first(), b.drop_first())
    } else {
        a[0] < b[0]
    }
}

/// `sorted` with `e` put behind the entries that come no later than it.
pub open spec fn placed(sorted: Seq<SlashEntry>, e: SlashEntry) -> Seq<SlashEntry>
    decreases sorted.len(),
{
    if sorted.len() > 0 && !in_order(sorted.last().key(), e.key()) {
        placed(sorted.drop_last(), e).push(sorted.last())
    } else {
        sorted.push(e)
    }
}

/// `entries` in the order of their keys; those with the same key stay in their
/// order.
pub open spec fn sorted_entries(entries: Seq<SlashEntry>) -> Seq<SlashEntry>
    decreases entries.len(),
{
    if entries.len() == 0 {
        Seq::empty()
    } else {
        placed(sorted_entries(entries.drop_last()), entries.last())
    }
}

/// `entries` without those that repeat the command of the entry kept before
/// them, case aside.
pub open spec fn deduped(entries: Seq<SlashEntry>) -> Seq<SlashEntry>
    decreases entries.len(),
{
    if entries.len() == 0 {
        Seq::empty()
    } else {
        let kept = deduped(entries.drop_last());
        if kept.len() > 0 && same_ignoring_case(kept.last().name(), entries.last().name()) {
            kept
        } else {
            kept.push(entries.last())
        }
    }
}

/// The entries of discovered skills.
pub open spec fn skill_entries(skills: Seq<Skill>) -> Seq<SlashEntry> {
    skills.map_values(
        |s: Skill|
            SlashEntry::Skill {
                command: s.command,
                description: s.description,
                source: s.source,
            },
    )
}

/// The entries of visible commands.
pub open spec fn command_entries(commands: Seq<CommandSpec>) -> Seq<SlashEntry> {
    commands.map_values(|c: CommandSpec| SlashEntry::Command(c.name))
}

/// All entries: the commands, then the skills; no skills where their
/// discovery failed.
pub open spec fn all_entries<E>(
    commands: Seq<CommandSpec>,
    discovered: Result<Vec<Skill>, E>,
) -> Seq<SlashEntry> {
    match discovered {
        Ok(skills) => command_entries(commands) + skill_entries(skills@),
        Err(_) => command_entries(commands),
    }
}

/// Whether `a` comes no later than `b`.
pub fn comes_first(a: &[char], b: &[char]) -> (r: bool)
    ensures
        r == in_order(a@, b@),
{
    let mut i: usize = 0;
    assert(a@.skip(0) =~= a@);
    assert(b@.skip(0) =~= b@);
    while i < a.len() && i < b.len() && a[i] == b[i]
        invariant
            i <= a@.len(),
            i <= b@.len(),
            in_order(a@, b@) == in_order(a@.skip(i as int), b@.skip(i as int)),
        decreases a@.len() - i,
    {
        assert(a@.skip(i as int).drop_first() =~= a@.skip(i + 1));
        assert(b@.skip(i as int).drop_first() =~= b@.skip(i + 1));
        i += 1;
    }
    if i >= a.len() {
        return true;
    }
    if i >= b.len() {
        return false;
    }
    a[i] < b[i]
}

/// The key of an entry.
fn key_of(e: &SlashEntry) -> (r: Vec<char>)
    ensures
        r@ == e.key(),
        is_ascii_chars(e.name()) ==> e.key() == lower_ascii(e.name()),
{
    let name = e.command_str();
    let lowered = name.as_str().to_lowercase();
    chars_of(lowered.as_str())
}

/// Entries from discovered skills; none where the discovery failed.
pub fn collect_skill_entries<E>(discovered: Result<Vec<Skill>, E>) -> (r: Vec<SlashEntry>)
    ensures
        r@ == match discovered {
            Ok(skills) => skill_entries(skills@),
            Err(_) => Seq::empty(),
        },
        discovered matches Ok(skills) ==> r@.len() == skills@.len() && forall|i: int|
            0 <= i < skills@.len() ==> (#[trigger] r@[i]
                matches SlashEntry::Skill { command, description, source } && command
                == skills@[i].command && description == skills@[i].description && source
                == skills@[i].source),
{
    match discovered {
        Ok(skills) => {
            let ghost all = skills@;
            let mut out: Vec<SlashEntry> = Vec::new();
            for s in it: skills
                invariant
                    it.seq() == all,
                    out@ == skill_entries(all.take(it.index() as int)),
            {
                let ghost before = out@;
                out.push(
                    SlashEntry::Skill {
                        command: s.command,
                        description: s.description,
                        source: s.source,
                    },
                );
                assert(out@ =~= skill_entries(all.take(it.index() as int + 1)));
            }
            assert(all.take(all.len() as int) =~= all);
            out
        },
        Err(_) => Vec::new(),
    }
}

/// Orders entries by their keys, those with the same key in their order.
fn sort_entries(entries: Vec<SlashEntry>) -> (r: Vec<SlashEntry>)
    ensures
        r@ == sorted_entries(entries@),
        forall|j: int|
            0 <= j < entries@.len() && is_ascii_chars((#[trigger] entries@[j]).name())
                ==> entries@[j].key() == lower_ascii(entries@[j].name()),
{
    let ghost all = entries@;
    let mut out: Vec<SlashEntry> = Vec::new();
    let mut keys: Vec<Vec<char>> = Vec::new();
    assert(all.take(0) =~= Seq::<SlashEntry>::empty());
    for e in it: entries
        invariant
            it.seq() == all,
            out@ == sorted_entries(all.take(it.index() as int)),
            keys@.len() == out@.len(),
            forall|j: int| 0 <= j < out@.len() ==> (#[trigger] keys@[j])@ == out@[j].key(),
            forall|j: int|
                0 <= j < it.index() && is_ascii_chars((#[trigger] all[j]).name())
                    ==> all[j].key() == lower_ascii(all[j].name()),
    {
        let key = key_of(&e);
        let ghost n = it.index() as int;
        let ghost before = out@;
        let mut at: usize = out.len();
        assert(before.take(at as int) =~= before);
        assert(placed(before, e) =~= placed(before.take(at as int), e) + before.skip(at as int));
        while at > 0 && !comes_first(keys[at - 1].as_slice(), key.as_slice())
            invariant
                at <= out@.len(),
                out@ == before,
                key@ == e.key(),
                keys@.len() == out@.len(),
                forall|j: int| 0 <= j < out@.len() ==> (#[trigger] keys@[j])@ == out@[j].key(),
                placed(before, e) == placed(before.take(at as int), e) + before.skip(at as int),
            decreases at,
        {
            proof {
                let head = before.take(at as int);
                assert(keys@[at - 1]@ == before[at - 1].key());
                assert(head.last() == before[at - 1]);
                assert(head.drop_last() =~= before.take(at - 1));
                assert(placed(before.take(at - 1), e).push(before[at - 1]) + before.skip(at as int)
                    =~= placed(before.take(at - 1), e) + before.skip(at - 1));
            }
            at -= 1;
        }
        proof {
            let head = before.take(at as int);
            if at > 0 {
                assert(keys@[at - 1]@ == before[at - 1].key());
                assert(head.last() == before[at - 1]);
            }
            assert(placed(head, e) == head.push(e));
            assert(head.push(e) + before.skip(at as int) =~= before.insert(at as int, e));
            assert(all.take(n + 1).drop_last() =~= all.take(n));
            assert(all.take(n + 1).last() == e);
        }
        let ghost keys_before = keys@;
        out.insert(at, e);
        keys.insert(at, key);
        proof {
            assert forall|j: int| 0 <= j < out@.len() implies (#[trigger] keys@[j])@
                == out@[j].key() by {
                if j < at {
                    assert(keys@[j] == keys_before[j]);
                    assert(out@[j] == before[j]);
                } else if j > at {
                    assert(keys@[j] == keys_before[j - 1]);
                    assert(out@[j] == before[j - 1]);
                }
            }
        }
    }
    assert(all.take(all.len() as int) =~= all);
    out
}

/// Drops the entries that repeat the command of the entry before them.
pub fn dedup_entries(entries: Vec<SlashEntry>) -> (r: Vec<SlashEntry>)
    ensures
        r@ == deduped(entries@),
{
    let ghost all = entries@;
    let mut kept: Vec<SlashEntry> = Vec::new();
    assert(all.take(0) =~= Seq::<SlashEntry>::empty());
    for e in it: entries
        invariant
            it.seq() == all,
            kept@ == deduped(all.take(it.index() as int)),
    {
        let ghost n = it.index() as int;
        assert(all.take(n + 1).drop_last() =~= all.take(n));
        assert(all.take(n + 1).last() == e);
        let repeats = kept.len() > 0 && eq_ignore_case(
            kept[kept.len() - 1].command_str().as_str(),
            e.command_str().as_str(),
        );
        if !repeats {
            kept.push(e);
        }
    }
    assert(all.take(all.len() as int) =~= all);
    kept
}

/// All slash commands, the hardcoded ones and the discovered skills, in order
/// and without repetition.
pub fn load_slash_entries<E>(
    commands: &[CommandSpec],
    discovered: Result<Vec<Skill>, E>,
) -> (r: Vec<SlashEntry>)
    ensures
        r@ == deduped(sorted_entries(all_entries(commands@, discovered))),
        names_are_ascii(all_entries(commands@, discovered)) ==> keys_are_ascii(
            all_entries(commands@, discovered),
        ),
        names_are_ascii(all_entries(commands@, discovered)) ==> names_differ(r@),
        names_are_ascii(all_entries(commands@, discovered)) ==> commands_kept(commands@, r@),
        keys_in_order(r@),
        forall|k: int| 0 <= k < r@.len() ==> comes_from(commands@, discovered, #[trigger] r@[k]),
        every_name_is_listed(commands@, discovered, r@),
{
    let mut entries: Vec<SlashEntry> = Vec::new();
    let mut i: usize = 0;
    while i < commands.len()
        invariant
            i <= commands@.len(),
            entries@ == command_entries(commands@.take(i as int)),
        decreases commands@.len() - i,
    {
        entries.push(SlashEntry::Command(commands[i].name));
        i += 1;
        assert(entries@ =~= command_entries(commands@.take(i as int)));
    }
    assert(commands@.take(i as int) =~= commands@);
    let mut skills = collect_skill_entries(discovered);
    entries.append(&mut skills);
    assert(entries@ =~= all_entries(commands@, discovered));
    let sorted = sort_entries(entries);
    proof {
        let all = all_entries(commands@, discovered);
        loaded_in_order(all);
        loaded_from(commands@, discovered);
        if names_are_ascii(all) {
            assert(keys_are_ascii(all));
            no_command_twice(all);
            let skills = all.skip(commands@.len() as int);
            assert(all =~= command_entries(commands@) + skills);
            commands_come_before_skills(commands@, skills);
        }
    }
    dedup_entries(sorted)
}

/// The commands of the entries are all ASCII.
pub open spec fn names_are_ascii(entries: Seq<SlashEntry>) -> bool {
    forall|i: int| 0 <= i < entries.len() ==> is_ascii_chars((#[trigger] entries[i]).name())
}

/// An entry is that of a command, with its name, or that of a discovered skill,
/// with its command, its description and its source.
pub open spec fn comes_from<E>(
    commands: Seq<CommandSpec>,
    discovered: Result<Vec<Skill>, E>,
    entry: SlashEntry,
) -> bool {
    match entry {
        SlashEntry::Command(name) => exists|c: int|
            0 <= c < commands.len() && (#[trigger] commands[c]).name == name,
        SlashEntry::Skill { command, description, source } => discovered is Ok && exists|i: int|
            0 <= i < discovered->Ok_0@.len() && (#[trigger] discovered->Ok_0@[i]).command
                == command && discovered->Ok_0@[i].description == description
                && discovered->Ok_0@[i].source == source,
    }
}

/// Each command and each discovered skill has an entry with its name, case
/// aside.
pub open spec fn every_name_is_listed<E>(
    commands: Seq<CommandSpec>,
    discovered: Result<Vec<Skill>, E>,
    entries: Seq<SlashEntry>,
) -> bool {
    &&& forall|c: int|
        0 <= c < commands.len() ==> lists_name(entries, (#[trigger] commands[c]).name@)
    &&& discovered matches Ok(skills) ==> forall|i: int|
        0 <= i < skills@.len() ==> lists_name(
            entries,
            seq!['/'] + (#[trigger] skills@[i]).command@,
        )
}

/// One of the entries has this name, case aside.
pub open spec fn lists_name(entries: Seq<SlashEntry>, name: Seq<char>) -> bool {
    exists|k: int|
        0 <= k < entries.len() && same_ignoring_case((#[trigger] entries[k]).name(), name)
}

/// An entry that has the name of a command, case aside, is a command.
pub open spec fn commands_kept(commands: Seq<CommandSpec>, entries: Seq<SlashEntry>) -> bool {
    forall|c: int, k: int|
        0 <= c < commands.len() && 0 <= k < entries.len() && same_ignoring_case(
            (#[trigger] entries[k]).name(),
            (#[trigger] commands[c]).name@,
        ) ==> entries[k] is Command
}

/// No two entries have the same command, case aside.
pub open spec fn names_differ(entries: Seq<SlashEntry>) -> bool {
    forall|i: int, j: int|
        0 <= i < j < entries.len() ==> !same_ignoring_case(
            (#[trigger] entries[i]).name(),
            (#[trigger] entries[j]).name(),
        )
}

/// The keys of the entries are their commands with `A` to `Z` lowered.
pub open spec fn keys_are_ascii(entries: Seq<SlashEntry>) -> bool {
    forall|i: int|
        0 <= i < entries.len() ==> (#[trigger] entries[i]).key() == lower_ascii(entries[i].name())
}

// ---------------------------------------------------------------------------
// Filtering
// ---------------------------------------------------------------------------

/// What the entries are filtered by: the typed command in lower case, without
/// its slashes.
pub open spec fn typed(buffer: Seq<char>) -> Seq<char> {
    lowercase(without_slashes(trimmed_start(buffer)))
}

/// The command of an entry begins with what is typed.
pub open spec fn begins_typed(e: SlashEntry, needle: Seq<char>) -> bool {
    needle.is_prefix_of(lowercase(without_slashes(e.name())))
}

/// What is typed, and the commands, in lower case: for those that are all ASCII
/// with `A` to `Z` lowered.
pub open spec fn lowers_ascii(entries: Seq<SlashEntry>, buffer: Seq<char>) -> bool {
    &&& is_ascii_chars(without_slashes(trimmed_start(buffer))) ==> typed(buffer) == lower_ascii(
        without_slashes(trimmed_start(buffer)),
    )
    &&& forall|i: int|
        0 <= i < entries.len() && is_ascii_chars(without_slashes((#[trigger] entries[i]).name()))
            ==> lowercase(without_slashes(entries[i].name())) == lower_ascii(
            without_slashes(entries[i].name()),
        )
}

/// The entries that begin with what is typed, in their order.
pub open spec fn entries_typed(entries: Seq<SlashEntry>, needle: Seq<char>) -> Seq<SlashEntry>
    decreases entries.len(),
{
    if entries.len() == 0 {
        Seq::empty()
    } else if begins_typed(entries.last(), needle) {
        entries_typed(entries.drop_last(), needle).push(entries.last())
    } else {
        entries_typed(entries.drop_last(), needle)
    }
}

/// The entries that the panel shows for a buffer.
pub open spec fn panel_entries(entries: Seq<SlashEntry>, buffer: Seq<char>) -> Seq<SlashEntry> {
    if panel_visible(buffer) {
        entries_typed(entries, typed(buffer))
    } else {
        Seq::empty()
    }
}

/// The entries that references lead to.
pub open spec fn entries_of(refs: Seq<&SlashEntry>) -> Seq<SlashEntry> {
    refs.map_values(|r: &SlashEntry| *r)
}

/// The height of the panel for `n` entries.
pub open spec fn slash_panel_rows(n: nat) -> nat {
    if n == 0 {
        0
    } else if n <= SLASH_PANEL_MAX_ROWS {
        n + 2
    } else {
        (SLASH_PANEL_MAX_ROWS + 3) as nat
    }
}

/// The entries that the panel shows: those whose command begins with the typed
/// one, case aside; none while the panel is hidden. A bare slash shows them
/// all.
pub fn filter_slash_entries<'a>(entries: &'a [SlashEntry], buffer: &str) -> (r: Vec<
    &'a SlashEntry,
>)
    ensures
        entries_of(r@) == panel_entries(entries@, buffer@),
        panel_visible(buffer@) && without_slashes(trimmed_start(buffer@)).len() == 0
            ==> entries_of(r@) == entries@,
        panel_visible(buffer@) ==> lowers_ascii(entries@, buffer@),
{
    let mut out: Vec<&'a SlashEntry> = Vec::new();
    if !slash_panel_visible(buffer) {
        assert(entries_of(out@) =~= Seq::<SlashEntry>::empty());
        return out;
    }
    let lowered = trim_slashes(slash_command_buffer(buffer)).to_lowercase();
    let needle = chars_of(lowered.as_str());
    let mut i: usize = 0;
    assert(entries@.take(0) =~= Seq::<SlashEntry>::empty());
    assert(entries_of(out@) =~= Seq::<SlashEntry>::empty());
    while i < entries.len()
        invariant
            i <= entries@.len(),
            entries_of(out@) == entries_typed(entries@.take(i as int), needle@),
            lowers_ascii(entries@.take(i as int), buffer@),
        decreases entries@.len() - i,
    {
        let ghost before = out@;
        assert(entries@.take(i + 1).drop_last() =~= entries@.take(i as int));
        let name = entries[i].command_str();
        let command = trim_slashes(name.as_str()).to_lowercase();
        assert(lowers_ascii(entries@.take(i + 1), buffer@)) by {
            assert forall|j: int|
                0 <= j <= i && is_ascii_chars(
                    without_slashes((#[trigger] entries@.take(i + 1)[j]).name()),
                ) implies lowercase(without_slashes(entries@.take(i + 1)[j].name()))
                == lower_ascii(without_slashes(entries@.take(i + 1)[j].name())) by {
                if j < i {
                    assert(entries@.take(i + 1)[j] == entries@.take(i as int)[j]);
                }
            }
        }
        if begins_with(chars_of(command.as_str()).as_slice(), needle.as_slice()) {
            out.push(&entries[i]);
            assert(entries_of(out@) =~= entries_of(before).push(entries@[i as int]));
        }
        i += 1;
    }
    assert(entries@.take(i as int) =~= entries@);
    proof {
        if typed(buffer@).len() == 0 {
            nothing_typed_shows_all(entries@, buffer@);
        }
    }
    out
}

/// The height of the panel: its rows and the two borders, and a footer where
/// not all entries fit; nothing without an entry.
pub fn slash_panel_height(filtered_len: usize) -> (r: u16)
    ensures
        r == slash_panel_rows(filtered_len as nat),
{
    if filtered_len == 0 {
        return 0;
    }
    if filtered_len <= SLASH_PANEL_MAX_ROWS {
        filtered_len as u16 + 2
    } else {
        SLASH_PANEL_MAX_ROWS as u16 + 3
    }
}

/// The height of whichever panel shows above the input: that of the slash
/// panel, or that of the completion panel.
pub fn composer_chrome_height(
    slash_entries: &[SlashEntry],
    workspace_files: &[String],
    buffer: &str,
    cursor_char_idx: usize,
    at_token_before_cursor: impl Fn(&str, usize) -> Option<AtToken>,
    filter_paths_prefix: impl Fn(&[String], String) -> Vec<String>,
) -> (r: u16)
    requires
        call_requires(
            at_token_before_cursor,
            (buffer, cursor_byte(buffer@, cursor_char_idx as int)),
        ),
        forall|prefix: String| call_requires(filter_paths_prefix, (workspace_files, prefix)),
    ensures
        panel_visible(buffer@) ==> r == slash_panel_rows(
            panel_entries(slash_entries@, buffer@).len(),
        ),
        !panel_visible(buffer@) ==> exists|found: Option<AtToken>|
            answers_token(at_token_before_cursor, buffer, cursor_char_idx, found) && match found {
                None => r == 0,
                Some((_, prefix)) => exists|hits: Vec<String>|
                    call_ensures(filter_paths_prefix, (workspace_files, prefix), hits) && r
                        == at_panel_rows(hits@.len()),
            },
{
    let slash_filtered = filter_slash_entries(slash_entries, buffer);
    let hits = at_completion_matches(
        workspace_files,
        buffer,
        cursor_char_idx,
        at_token_before_cursor,
        filter_paths_prefix,
    );
    let slash_h: u16 = if slash_panel_visible(buffer) {
        slash_panel_height(slash_filtered.len())
    } else {
        0
    };
    let at_h: u16 = at_panel_height(hits.len());
    if slash_h >= at_h {
        slash_h
    } else {
        at_h
    }
}

// ---------------------------------------------------------------------------
// Laws
// ---------------------------------------------------------------------------

/// The panel takes at most eleven rows, has rows just where it has entries, and
/// is never lower for more entries.
pub proof fn slash_panel_is_bounded(n: nat, m: nat)
    requires
        n <= m,
    ensures
        slash_panel_rows(n) <= 11,
        slash_panel_rows(n) == 0 <==> n == 0,
        slash_panel_rows(n) <= slash_panel_rows(m),
{
}

/// The order on texts is total, transitive and antisymmetric.
pub proof fn text_order(a: Seq<char>, b: Seq<char>, c: Seq<char>)
    ensures
        in_order(a, a),
        in_order(a, b) || in_order(b, a),
        in_order(a, b) && in_order(b, c) ==> in_order(a, c),
        in_order(a, b) && in_order(b, a) ==> a == b,
    decreases a.len() + b.len() + c.len(),
{
    if a.len() > 0 {
        if b.len() > 0 && c.len() > 0 {
            text_order(a.drop_first(), b.drop_first(), c.drop_first());
            if in_order(a, b) && in_order(b, a) {
                assert(a =~= seq![a[0]] + a.drop_first());
                assert(b =~= seq![b[0]] + b.drop_first());
            }
        } else if b.len() > 0 {
            text_order(a.drop_first(), b.drop_first(), c);
            if in_order(a, b) && in_order(b, a) {
                assert(a =~= seq![a[0]] + a.drop_first());
                assert(b =~= seq![b[0]] + b.drop_first());
            }
        } else {
            text_order(a.drop_first(), b, c);
        }
    } else if b.len() == 0 {
        assert(a =~= b);
    }
}

/// The entries stand in the order of their keys.
pub open spec fn keys_in_order(entries: Seq<SlashEntry>) -> bool {
    forall|i: int, j: int|
        0 <= i < j < entries.len() ==> in_order(
            (#[trigger] entries[i]).key(),
            (#[trigger] entries[j]).key(),
        )
}

/// Sorted entries stand in the order of their keys.
pub proof fn sorted_in_order(entries: Seq<SlashEntry>)
    ensures
        keys_in_order(sorted_entries(entries)),
    decreases entries.len(),
{
    if entries.len() > 0 {
        sorted_in_order(entries.drop_last());
        placed_in_order(sorted_entries(entries.drop_last()), entries.last());
    }
}

proof fn placed_in_order(sorted: Seq<SlashEntry>, e: SlashEntry)
    requires
        keys_in_order(sorted),
    ensures
        keys_in_order(placed(sorted, e)),
        forall|i: int|
            0 <= i < placed(sorted, e).len() ==> (#[trigger] placed(sorted, e)[i]) == e
                || sorted.contains(placed(sorted, e)[i]),
    decreases sorted.len(),
{
    let all = placed(sorted, e);
    if sorted.len() > 0 && !in_order(sorted.last().key(), e.key()) {
        let rest = sorted.drop_last();
        let last = sorted.last();
        assert forall|i: int, j: int| 0 <= i < j < rest.len() implies in_order(
            (#[trigger] rest[i]).key(),
            (#[trigger] rest[j]).key(),
        ) by {
            assert(rest[i] == sorted[i] && rest[j] == sorted[j]);
        }
        placed_in_order(rest, e);
        let before = placed(rest, e);
        assert forall|i: int| 0 <= i < before.len() implies in_order(
            (#[trigger] before[i]).key(),
            last.key(),
        ) by {
            if before[i] == e {
                text_order(e.key(), last.key(), last.key());
            } else {
                let k = choose|k: int| 0 <= k < rest.len() && rest[k] == before[i];
                assert(rest.contains(before[i]));
                assert(sorted[k] == rest[k]);
                assert(in_order(sorted[k].key(), sorted[sorted.len() - 1].key()));
            }
        }
        assert forall|i: int| 0 <= i < all.len() implies (#[trigger] all[i]) == e
            || sorted.contains(all[i]) by {
            if i < before.len() {
                if before[i] != e {
                    let k = choose|k: int| 0 <= k < rest.len() && rest[k] == before[i];
                    assert(rest.contains(before[i]));
                    assert(sorted[k] == all[i]);
                }
            } else {
                assert(sorted[sorted.len() - 1] == all[i]);
            }
        }
    } else {
        assert forall|i: int, j: int| 0 <= i < j < all.len() implies in_order(
            (#[trigger] all[i]).key(),
            (#[trigger] all[j]).key(),
        ) by {
            if j == sorted.len() {
                if i < sorted.len() - 1 {
                    assert(in_order(sorted[i].key(), sorted[sorted.len() - 1].key()));
                    text_order(sorted[i].key(), sorted.last().key(), e.key());
                }
            } else {
                assert(all[i] == sorted[i] && all[j] == sorted[j]);
            }
        }
        assert forall|i: int| 0 <= i < all.len() implies (#[trigger] all[i]) == e
            || sorted.contains(all[i]) by {
            if i < sorted.len() {
                assert(sorted[i] == all[i]);
            }
        }
    }
}

/// The entries with the key `key`, in their order.
pub open spec fn with_key(entries: Seq<SlashEntry>, key: Seq<char>) -> Seq<SlashEntry>
    decreases entries.len(),
{
    if entries.len() == 0 {
        Seq::empty()
    } else if entries.last().key() == key {
        with_key(entries.drop_last(), key).push(entries.last())
    } else {
        with_key(entries.drop_last(), key)
    }
}

/// Sorting neither loses nor adds an entry, and entries with the same key stay
/// in their order.
pub proof fn sorting_keeps_entries(entries: Seq<SlashEntry>, key: Seq<char>)
    ensures
        with_key(sorted_entries(entries), key) == with_key(entries, key),
        sorted_entries(entries).len() == entries.len(),
    decreases entries.len(),
{
    if entries.len() > 0 {
        sorting_keeps_entries(entries.drop_last(), key);
        placing_keeps_entries(sorted_entries(entries.drop_last()), entries.last(), key);
    }
}

proof fn placing_keeps_entries(sorted: Seq<SlashEntry>, e: SlashEntry, key: Seq<char>)
    ensures
        with_key(placed(sorted, e), key) == if e.key() == key {
            with_key(sorted, key).push(e)
        } else {
            with_key(sorted, key)
        },
        placed(sorted, e).len() == sorted.len() + 1,
    decreases sorted.len(),
{
    if sorted.len() > 0 && !in_order(sorted.last().key(), e.key()) {
        placing_keeps_entries(sorted.drop_last(), e, key);
        text_order(e.key(), e.key(), e.key());
        let before = placed(sorted.drop_last(), e);
        assert(before.push(sorted.last()).drop_last() =~= before);
    } else {
        assert(sorted.push(e).drop_last() =~= sorted);
    }
}

/// Every entry that is dropped repeats, case aside, the command of one that is
/// kept; what is kept was there, and no kept entry repeats the one before it.
pub proof fn dedup_keeps_commands(entries: Seq<SlashEntry>)
    ensures
        forall|i: int|
            0 <= i < entries.len() ==> exists|k: int|
                0 <= k < deduped(entries).len() && same_ignoring_case(
                    (#[trigger] deduped(entries)[k]).name(),
                    (#[trigger] entries[i]).name(),
                ),
        forall|k: int|
            0 <= k < deduped(entries).len() ==> entries.contains(#[trigger] deduped(entries)[k]),
        forall|k: int|
            0 < k < deduped(entries).len() ==> !same_ignoring_case(
                deduped(entries)[k - 1].name(),
                (#[trigger] deduped(entries)[k]).name(),
            ),
{
    let kept = deduped(entries);
    assert forall|i: int| 0 <= i < entries.len() implies exists|k: int|
        0 <= k < kept.len() && same_ignoring_case(
            (#[trigger] kept[k]).name(),
            (#[trigger] entries[i]).name(),
        ) by {
        let k = name_survives(entries, i);
        assert(same_ignoring_case(kept[k].name(), entries[i].name()));
    }
    assert forall|k: int| 0 <= k < kept.len() implies entries.contains(#[trigger] kept[k]) by {
        let i = kept_was_there(entries, k);
        assert(entries[i] == kept[k]);
    }
    assert forall|k: int| 0 < k < kept.len() implies !same_ignoring_case(
        kept[k - 1].name(),
        (#[trigger] kept[k]).name(),
    ) by {
        neighbours_do_not_repeat(entries, k);
    }
}

/// An entry's name is that of one that is kept, case aside.
proof fn name_survives(entries: Seq<SlashEntry>, i: int) -> (k: int)
    requires
        0 <= i < entries.len(),
    ensures
        0 <= k < deduped(entries).len(),
        same_ignoring_case(deduped(entries)[k].name(), entries[i].name()),
    decreases entries.len(),
{
    let rest = entries.drop_last();
    if i < rest.len() {
        let k = name_survives(rest, i);
        assert(deduped(entries)[k] == deduped(rest)[k]);
        k
    } else {
        deduped(entries).len() - 1
    }
}

/// A kept entry was among the entries.
proof fn kept_was_there(entries: Seq<SlashEntry>, k: int) -> (i: int)
    requires
        0 <= k < deduped(entries).len(),
    ensures
        0 <= i < entries.len(),
        entries[i] == deduped(entries)[k],
    decreases entries.len(),
{
    let rest = entries.drop_last();
    if k < deduped(rest).len() {
        kept_was_there(rest, k)
    } else {
        rest.len() as int
    }
}

/// No kept entry repeats the one before it.
proof fn neighbours_do_not_repeat(entries: Seq<SlashEntry>, k: int)
    requires
        0 < k < deduped(entries).len(),
    ensures
        !same_ignoring_case(deduped(entries)[k - 1].name(), deduped(entries)[k].name()),
    decreases entries.len(),
{
    let rest = entries.drop_last();
    if k < deduped(rest).len() {
        neighbours_do_not_repeat(rest, k);
    }
}

/// Where the keys are the commands with `A` to `Z` lowered, as they are for
/// commands that are ASCII, no two entries of the panel have the same command,
/// case aside.
pub proof fn no_command_twice(entries: Seq<SlashEntry>)
    requires
        keys_are_ascii(entries),
    ensures
        names_differ(deduped(sorted_entries(entries))),
{
    let sorted = sorted_entries(entries);
    sorted_in_order(entries);
    sorted_keys_are_ascii(entries);
    deduped_in_order(sorted);
    assert(keys_are_ascii(deduped(sorted)) && neighbours_differ(deduped(sorted))) by {
        dedup_keeps_commands(sorted);
        assert forall|k: int| 0 <= k < deduped(sorted).len() implies (#[trigger] deduped(
            sorted,
        )[k]).key() == lower_ascii(deduped(sorted)[k].name()) by {
            let i = choose|i: int| 0 <= i < sorted.len() && sorted[i] == deduped(sorted)[k];
            assert(sorted.contains(deduped(sorted)[k]));
            assert(sorted[i].key() == lower_ascii(sorted[i].name()));
        }
    }
    all_differ(deduped(sorted));
}

/// No entry has the command of the one before it, case aside.
spec fn neighbours_differ(entries: Seq<SlashEntry>) -> bool {
    forall|k: int|
        0 < k < entries.len() ==> !same_ignoring_case(
            entries[k - 1].name(),
            (#[trigger] entries[k]).name(),
        )
}

proof fn all_differ(kept: Seq<SlashEntry>)
    requires
        keys_in_order(kept),
        keys_are_ascii(kept),
        neighbours_differ(kept),
    ensures
        names_differ(kept),
{
    assert forall|i: int, j: int| 0 <= i < j < kept.len() implies !same_ignoring_case(
        (#[trigger] kept[i]).name(),
        (#[trigger] kept[j]).name(),
    ) by {
        let a = kept[i].key();
        let b = kept[j - 1].key();
        let c = kept[j].key();
        assert(b != c) by {
            assert(!same_ignoring_case(kept[j - 1].name(), kept[j].name()));
        }
        assert(in_order(b, c));
        text_order(a, b, c);
        text_order(c, b, c);
        assert(in_order(a, b));
    }
}

proof fn sorted_keys_are_ascii(entries: Seq<SlashEntry>)
    requires
        keys_are_ascii(entries),
    ensures
        keys_are_ascii(sorted_entries(entries)),
    decreases entries.len(),
{
    if entries.len() > 0 {
        let rest = entries.drop_last();
        assert forall|i: int| 0 <= i < rest.len() implies (#[trigger] rest[i]).key()
            == lower_ascii(rest[i].name()) by {
            assert(rest[i] == entries[i]);
        }
        sorted_keys_are_ascii(rest);
        sorted_in_order(rest);
        placed_in_order(sorted_entries(rest), entries.last());
        let all = sorted_entries(entries);
        assert forall|i: int| 0 <= i < all.len() implies (#[trigger] all[i]).key() == lower_ascii(
            all[i].name(),
        ) by {
            if all[i] == entries.last() {
                assert(entries[entries.len() - 1] == all[i]);
            } else {
                let k = choose|k: int|
                    0 <= k < sorted_entries(rest).len() && sorted_entries(rest)[k] == all[i];
                assert(sorted_entries(rest).contains(all[i]));
            }
        }
    }
}

proof fn deduped_in_order(entries: Seq<SlashEntry>)
    requires
        keys_in_order(entries),
    ensures
        keys_in_order(deduped(entries)),
    decreases entries.len(),
{
    if entries.len() > 0 {
        let rest = entries.drop_last();
        assert forall|i: int, j: int| 0 <= i < j < rest.len() implies in_order(
            (#[trigger] rest[i]).key(),
            (#[trigger] rest[j]).key(),
        ) by {
            assert(rest[i] == entries[i] && rest[j] == entries[j]);
        }
        deduped_in_order(rest);
        dedup_keeps_commands(rest);
        let before = deduped(rest);
        let kept = deduped(entries);
        assert forall|i: int, j: int| 0 <= i < j < kept.len() implies in_order(
            (#[trigger] kept[i]).key(),
            (#[trigger] kept[j]).key(),
        ) by {
            if j == before.len() {
                let k = choose|k: int| 0 <= k < rest.len() && rest[k] == before[i];
                assert(rest.contains(before[i]));
                assert(entries[k] == kept[i]);
                assert(in_order(entries[k].key(), entries[entries.len() - 1].key()));
            } else {
                assert(kept[i] == before[i] && kept[j] == before[j]);
            }
        }
    }
}

/// The entries of the panel stand in the order of their keys.
pub proof fn loaded_in_order(entries: Seq<SlashEntry>)
    ensures
        keys_in_order(deduped(sorted_entries(entries))),
{
    sorted_in_order(entries);
    deduped_in_order(sorted_entries(entries));
}

/// The entries with a key are those of the parts.
proof fn with_key_parts(a: Seq<SlashEntry>, b: Seq<SlashEntry>, key: Seq<char>)
    ensures
        with_key(a + b, key) == with_key(a, key) + with_key(b, key),
    decreases b.len(),
{
    if b.len() == 0 {
        assert(a + b =~= a);
        assert(with_key(a, key) + with_key(b, key) =~= with_key(a, key));
    } else {
        with_key_parts(a, b.drop_last(), key);
        assert((a + b).drop_last() =~= a + b.drop_last());
        assert(with_key(a + b, key) =~= with_key(a, key) + with_key(b, key));
    }
}

/// The entries with a key are entries that have it, and there are some where one
/// has it.
proof fn with_key_has(entries: Seq<SlashEntry>, key: Seq<char>)
    ensures
        forall|i: int|
            0 <= i < with_key(entries, key).len() ==> entries.contains(
                #[trigger] with_key(entries, key)[i],
            ) && with_key(entries, key)[i].key() == key,
        (exists|i: int| 0 <= i < entries.len() && (#[trigger] entries[i]).key() == key)
            ==> with_key(entries, key).len() > 0,
    decreases entries.len(),
{
    if entries.len() > 0 {
        let rest = entries.drop_last();
        with_key_has(rest, key);
        assert forall|i: int| 0 <= i < with_key(entries, key).len() implies entries.contains(
            #[trigger] with_key(entries, key)[i],
        ) && with_key(entries, key)[i].key() == key by {
            if i < with_key(rest, key).len() {
                let e = with_key(rest, key)[i];
                assert(rest.contains(e));
                let j = choose|j: int| 0 <= j < rest.len() && rest[j] == e;
                assert(entries[j] == e);
            } else {
                assert(entries[entries.len() - 1] == with_key(entries, key)[i]);
            }
        }
        if exists|i: int| 0 <= i < entries.len() && (#[trigger] entries[i]).key() == key {
            let i = choose|i: int| 0 <= i < entries.len() && (#[trigger] entries[i]).key() == key;
            if i < rest.len() {
                assert(rest[i].key() == key);
            }
        }
    }
}

/// Of sorted entries with the same command the first is kept.
proof fn first_is_kept(entries: Seq<SlashEntry>)
    requires
        keys_in_order(entries),
        keys_are_ascii(entries),
    ensures
        forall|k: int|
            #![trigger deduped(entries)[k]]
            0 <= k < deduped(entries).len() ==> with_key(entries, deduped(entries)[k].key()).len()
                > 0 && with_key(entries, deduped(entries)[k].key())[0] == deduped(entries)[k],
    decreases entries.len(),
{
    if entries.len() > 0 {
        let rest = entries.drop_last();
        let e = entries.last();
        let before = deduped(rest);
        let kept = deduped(entries);
        sorted_rest(entries);
        first_is_kept(rest);
        assert forall|k: int| #![trigger kept[k]] 0 <= k < kept.len() implies with_key(
            entries,
            kept[k].key(),
        ).len() > 0 && with_key(entries, kept[k].key())[0] == kept[k] by {
            if k < before.len() {
                assert(kept[k] == before[k]);
            } else {
                with_key_has(rest, e.key());
                if with_key(rest, e.key()).len() > 0 {
                    repeats_the_last(entries);
                }
            }
        }
    }
}

/// An entry's key is that of one that is kept.
proof fn key_is_kept(entries: Seq<SlashEntry>, i: int) -> (k: int)
    requires
        keys_are_ascii(entries),
        0 <= i < entries.len(),
    ensures
        0 <= k < deduped(entries).len(),
        deduped(entries)[k].key() == entries[i].key(),
{
    dedup_keeps_commands(entries);
    let kept = deduped(entries);
    let k = choose|k: int|
        0 <= k < kept.len() && same_ignoring_case(
            (#[trigger] kept[k]).name(),
            entries[i].name(),
        );
    let j = kept_was_there(entries, k);
    assert(entries[j].key() == lower_ascii(entries[j].name()));
    k
}

/// A sorted entry whose key comes before it repeats the last one kept.
proof fn repeats_the_last(entries: Seq<SlashEntry>)
    requires
        entries.len() > 0,
        keys_in_order(entries),
        keys_are_ascii(entries),
        with_key(entries.drop_last(), entries.last().key()).len() > 0,
    ensures
        deduped(entries.drop_last()).len() > 0,
        same_ignoring_case(
            deduped(entries.drop_last()).last().name(),
            entries.last().name(),
        ),
{
    let rest = entries.drop_last();
    let e = entries[entries.len() - 1];
    let before = deduped(rest);
    sorted_rest(entries);
    with_key_has(rest, e.key());
    let first = with_key(rest, e.key())[0];
    assert(rest.contains(first));
    let i = choose|i: int| 0 <= i < rest.len() && rest[i] == first;
    let k = key_is_kept(rest, i);
    let last = before[before.len() - 1];
    let n = kept_was_there(rest, before.len() - 1);
    assert(entries[n] == last);
    assert(in_order(entries[n].key(), e.key()));
    deduped_in_order(rest);
    if k < before.len() - 1 {
        assert(in_order(before[k].key(), last.key()));
    }
    text_order(last.key(), e.key(), e.key());
    assert(last.key() == e.key());
    assert(entries[n].key() == lower_ascii(entries[n].name()));
    assert(e.key() == lower_ascii(e.name()));
}

/// Sorted entries are sorted without the last one.
proof fn sorted_rest(entries: Seq<SlashEntry>)
    requires
        entries.len() > 0,
        keys_in_order(entries),
        keys_are_ascii(entries),
    ensures
        keys_in_order(entries.drop_last()),
        keys_are_ascii(entries.drop_last()),
{
    let rest = entries.drop_last();
    assert forall|i: int, j: int| 0 <= i < j < rest.len() implies in_order(
        (#[trigger] rest[i]).key(),
        (#[trigger] rest[j]).key(),
    ) by {
        assert(rest[i] == entries[i] && rest[j] == entries[j]);
    }
    assert forall|i: int| 0 <= i < rest.len() implies (#[trigger] rest[i]).key() == lower_ascii(
        rest[i].name(),
    ) by {
        assert(rest[i] == entries[i]);
    }
}

/// Where a command and a skill have the same name, case aside, the command is
/// the one that is kept.
pub proof fn commands_come_before_skills(commands: Seq<CommandSpec>, skills: Seq<SlashEntry>)
    requires
        keys_are_ascii(command_entries(commands) + skills),
    ensures
        commands_kept(commands, deduped(sorted_entries(command_entries(commands) + skills))),
{
    let first = command_entries(commands);
    let all = first + skills;
    let sorted = sorted_entries(all);
    let kept = deduped(sorted);
    sorted_in_order(all);
    sorted_keys_are_ascii(all);
    first_is_kept(sorted);
    dedup_keeps_commands(sorted);
    assert forall|c: int, k: int|
        0 <= c < commands.len() && 0 <= k < kept.len() && same_ignoring_case(
            (#[trigger] kept[k]).name(),
            (#[trigger] commands[c]).name@,
        ) implies kept[k] is Command by {
        let key = kept[k].key();
        assert(sorted.contains(kept[k]));
        let m = choose|m: int| 0 <= m < sorted.len() && sorted[m] == kept[k];
        assert(sorted[m].key() == lower_ascii(sorted[m].name()));
        assert(all[c] == first[c]);
        assert(all[c].key() == lower_ascii(all[c].name()));
        assert(first[c].key() == key);
        sorting_keeps_entries(all, key);
        with_key_parts(first, skills, key);
        with_key_has(first, key);
        let e = with_key(first, key)[0];
        assert(with_key(sorted, key)[0] == e);
        assert(first.contains(e));
    }
}

/// Every entry begins with no text.
proof fn nothing_typed_shows_all(entries: Seq<SlashEntry>, buffer: Seq<char>)
    requires
        panel_visible(buffer),
        typed(buffer).len() == 0,
    ensures
        panel_entries(entries, buffer) == entries,
    decreases entries.len(),
{
    if entries.len() > 0 {
        nothing_typed_shows_all(entries.drop_last(), buffer);
        let name = lowercase(without_slashes(entries.last().name()));
        assert(typed(buffer).is_prefix_of(name));
        assert(entries =~= entries.drop_last().push(entries.last()));
    }
}

/// The entry of a discovered skill has the skill's command, description and
/// source, at the skill's place; that of a command has its name.
pub proof fn entries_keep_their_fields<E>(
    commands: Seq<CommandSpec>,
    discovered: Result<Vec<Skill>, E>,
)
    ensures
        ({
            let all = all_entries(commands, discovered);
            let n = commands.len() as int;
            &&& forall|c: int|
                0 <= c < n ==> #[trigger] all[c] == SlashEntry::Command(commands[c].name)
            &&& discovered is Err ==> all.len() == n
            &&& discovered matches Ok(skills) ==> all.len() == n + skills@.len() && forall|i: int|
                0 <= i < skills@.len() ==> #[trigger] all[n + i] == (SlashEntry::Skill {
                    command: skills@[i].command,
                    description: skills@[i].description,
                    source: skills@[i].source,
                })
        }),
{
}

/// What is loaded comes from the commands and the skills, and has the name of
/// each.
pub proof fn loaded_from<E>(commands: Seq<CommandSpec>, discovered: Result<Vec<Skill>, E>)
    ensures
        ({
            let kept = deduped(sorted_entries(all_entries(commands, discovered)));
            &&& forall|k: int|
                0 <= k < kept.len() ==> comes_from(commands, discovered, #[trigger] kept[k])
            &&& every_name_is_listed(commands, discovered, kept)
        }),
{
    let all = all_entries(commands, discovered);
    let sorted = sorted_entries(all);
    let kept = deduped(sorted);
    entries_keep_their_fields(commands, discovered);
    dedup_keeps_commands(sorted);
    assert forall|k: int| 0 <= k < kept.len() implies comes_from(
        commands,
        discovered,
        #[trigger] kept[k],
    ) by {
        let j = kept_was_there(sorted, k);
        let i = sorted_was_there(all, j);
        assert(all[i] == kept[k]);
        let n = commands.len() as int;
        if i < n {
            assert(all[i] == SlashEntry::Command(commands[i].name));
        } else {
            let skills = discovered->Ok_0@;
            assert(all[n + (i - n)] == (SlashEntry::Skill {
                command: skills[i - n].command,
                description: skills[i - n].description,
                source: skills[i - n].source,
            }));
        }
    }
    assert forall|c: int| 0 <= c < commands.len() implies lists_name(
        kept,
        (#[trigger] commands[c]).name@,
    ) by {
        assert(all[c] == SlashEntry::Command(commands[c].name));
        name_is_kept(all, c);
    }
    if discovered is Ok {
        let skills = discovered->Ok_0@;
        let n = commands.len() as int;
        assert forall|i: int| 0 <= i < skills.len() implies lists_name(
            kept,
            seq!['/'] + (#[trigger] skills[i]).command@,
        ) by {
            assert(all[n + i] == (SlashEntry::Skill {
                command: skills[i].command,
                description: skills[i].description,
                source: skills[i].source,
            }));
            name_is_kept(all, n + i);
            reveal_strlit("/");
            assert("/"@ =~= seq!['/']);
        }
    }
}

/// A sorted entry was among the entries.
proof fn sorted_was_there(entries: Seq<SlashEntry>, j: int) -> (i: int)
    requires
        0 <= j < sorted_entries(entries).len(),
    ensures
        0 <= i < entries.len(),
        entries[i] == sorted_entries(entries)[j],
{
    let sorted = sorted_entries(entries);
    let key = sorted[j].key();
    sorting_keeps_entries(entries, key);
    place_with_key(sorted, j);
    let p = choose|p: int|
        0 <= p < with_key(sorted, key).len() && with_key(sorted, key)[p] == sorted[j];
    with_key_has(entries, key);
    assert(entries.contains(with_key(entries, key)[p]));
    choose|i: int| 0 <= i < entries.len() && entries[i] == sorted[j]
}

/// An entry is among those with its key.
proof fn place_with_key(entries: Seq<SlashEntry>, j: int)
    requires
        0 <= j < entries.len(),
    ensures
        exists|p: int|
            0 <= p < with_key(entries, entries[j].key()).len() && with_key(
                entries,
                entries[j].key(),
            )[p] == entries[j],
    decreases entries.len(),
{
    let key = entries[j].key();
    let rest = entries.drop_last();
    let all = with_key(entries, key);
    if j == rest.len() {
        assert(all[all.len() - 1] == entries[j]);
    } else {
        place_with_key(rest, j);
        assert(rest[j] == entries[j]);
        let p = choose|p: int|
            0 <= p < with_key(rest, key).len() && with_key(rest, key)[p] == rest[j];
        assert(all[p] == entries[j]);
    }
}

/// Each entry's name is, case aside, that of one that is kept.
proof fn name_is_kept(entries: Seq<SlashEntry>, i: int)
    requires
        0 <= i < entries.len(),
    ensures
        lists_name(deduped(sorted_entries(entries)), entries[i].name()),
{
    let sorted = sorted_entries(entries);
    let kept = deduped(sorted);
    let key = entries[i].key();
    sorting_keeps_entries(entries, key);
    place_with_key(entries, i);
    let p = choose|p: int|
        0 <= p < with_key(entries, key).len() && with_key(entries, key)[p] == entries[i];
    with_key_has(sorted, key);
    assert(sorted.contains(with_key(sorted, key)[p]));
    let j = choose|j: int| 0 <= j < sorted.len() && sorted[j] == entries[i];
    dedup_keeps_commands(sorted);
    let k = choose|k: int|
        0 <= k < kept.len() && same_ignoring_case(
            (#[trigger] kept[k]).name(),
            sorted[j].name(),
        );
    assert(same_ignoring_case(kept[k].name(), entries[i].name()));
}

/// Of several entries with the same name, case aside, the first one is kept.
pub proof fn first_of_a_name_is_kept(entries: Seq<SlashEntry>, k: int)
    requires
        keys_are_ascii(entries),
        0 <= k < deduped(sorted_entries(entries)).len(),
    ensures
        exists|i: int|
            0 <= i < entries.len() && #[trigger] entries[i] == deduped(sorted_entries(entries))[k]
                && forall|j: int|
                0 <= j < i ==> !same_ignoring_case((#[trigger] entries[j]).name(), entries[i].name()),
{
    let sorted = sorted_entries(entries);
    let kept = deduped(sorted);
    let key = kept[k].key();
    sorted_in_order(entries);
    sorted_keys_are_ascii(entries);
    first_is_kept(sorted);
    assert(with_key(sorted, key)[0] == kept[k]);
    sorting_keeps_entries(entries, key);
    let i = first_with_key(entries, key);
    assert forall|j: int| 0 <= j < i implies !same_ignoring_case(
        (#[trigger] entries[j]).name(),
        entries[i].name(),
    ) by {
        assert(entries[j].key() == lower_ascii(entries[j].name()));
        assert(entries[i].key() == lower_ascii(entries[i].name()));
    }
    assert(entries[i] == kept[k]);
}

/// The first of the entries with a key.
proof fn first_with_key(entries: Seq<SlashEntry>, key: Seq<char>) -> (i: int)
    requires
        with_key(entries, key).len() > 0,
    ensures
        0 <= i < entries.len(),
        entries[i] == with_key(entries, key)[0],
        entries[i].key() == key,
        forall|j: int| 0 <= j < i ==> (#[trigger] entries[j]).key() != key,
    decreases entries.len(),
{
    let rest = entries.drop_last();
    if with_key(rest, key).len() > 0 {
        let i = first_with_key(rest, key);
        assert forall|j: int| 0 <= j < i implies (#[trigger] entries[j]).key() != key by {
            assert(rest[j] == entries[j]);
        }
        i
    } else {
        assert forall|j: int| 0 <= j < rest.len() implies (#[trigger] entries[j]).key() != key by {
            with_key_has(rest, key);
            assert(rest[j] == entries[j]);
        }
        rest.len() as int
    }
}

/// `a` comes later than `b`: up to some place they are the same, and there `b`
/// ends, or has the lesser character.
pub open spec fn comes_later(a: Seq<char>, b: Seq<char>) -> bool {
    exists|p: int|
        0 <= p < a.len() && p <= b.len() && #[trigger] a.take(p) == b.take(p) && (p == b.len()
            || b[p] < a[p])
}

/// Texts are in order just where the first does not come later.
pub proof fn order_is_that_of_dictionaries(a: Seq<char>, b: Seq<char>)
    ensures
        in_order(a, b) <==> !comes_later(a, b),
    decreases a.len(),
{
    if a.len() > 0 {
        if b.len() == 0 {
            assert(a.take(0) =~= b.take(0));
        } else if a[0] == b[0] {
            let x = a.drop_first();
            let y = b.drop_first();
            order_is_that_of_dictionaries(x, y);
            if comes_later(x, y) {
                let p = choose|p: int|
                    0 <= p < x.len() && p <= y.len() && #[trigger] x.take(p) == y.take(p) && (p
                        == y.len() || y[p] < x[p]);
                assert forall|i: int| 0 <= i < p + 1 implies a[i] == b[i] by {
                    if i > 0 {
                        assert(x.take(p)[i - 1] == y.take(p)[i - 1]);
                    }
                }
                assert(a.take(p + 1) =~= b.take(p + 1));
            }
            if comes_later(a, b) {
                let p = choose|p: int|
                    0 <= p < a.len() && p <= b.len() && #[trigger] a.take(p) == b.take(p) && (p
                        == b.len() || b[p] < a[p]);
                assert(p > 0);
                assert forall|i: int| 0 <= i < p - 1 implies x[i] == y[i] by {
                    assert(a.take(p)[i + 1] == b.take(p)[i + 1]);
                }
                assert(x.take(p - 1) =~= y.take(p - 1));
            }
        } else {
            if b[0] < a[0] {
                assert(a.take(0) =~= b.take(0));
            }
            if comes_later(a, b) {
                let p = choose|p: int|
                    0 <= p < a.len() && p <= b.len() && #[trigger] a.take(p) == b.take(p) && (p
                        == b.len() || b[p] < a[p]);
                if p > 0 {
                    assert(a.take(p)[0] == b.take(p)[0]);
                }
            }
        }
    }
}

/// In the list that is loaded, no name comes later, in lower case, than one
/// behind it.
pub proof fn loaded_as_in_dictionaries(entries: Seq<SlashEntry>, i: int, j: int)
    requires
        0 <= i < j < deduped(sorted_entries(entries)).len(),
    ensures
        !comes_later(
            lowercase(deduped(sorted_entries(entries))[i].name()),
            lowercase(deduped(sorted_entries(entries))[j].name()),
        ),
{
    let kept = deduped(sorted_entries(entries));
    loaded_in_order(entries);
    assert(in_order(kept[i].key(), kept[j].key()));
    order_is_that_of_dictionaries(kept[i].key(), kept[j].key());
}

/// What a command is called and what is shown of it is its name.
pub proof fn commands_are_shown_as_they_are(name: &'static str)
    ensures
        SlashEntry::Command(name).name() == name@,
        SlashEntry::Command(name).shown() == name@,
{
}

/// A skill is called by its command behind a slash. That is shown, with the
/// description, where there is one, behind twenty columns for the command and a
/// dash; the source comes last.
pub proof fn skills_are_shown(command: String, description: Option<String>, source: SkillSource)
    ensures
        ({
            let entry = SlashEntry::Skill { command, description, source };
            let tag = if source == SkillSource::AgentsMd {
                " (AGENTS.md)"@
            } else {
                " (skill dir)"@
            };
            let missing: nat = if command@.len() < 20 {
                (20 - command@.len()) as nat
            } else {
                0
            };
            let blanks = Seq::new(missing, |i: int| ' ');
            &&& entry.name() == seq!['/'] + command@
            &&& description is None ==> entry.shown() == seq!['/'] + command@ + tag
            &&& description matches Some(text) ==> entry.shown() == seq!['/'] + command@ + blanks
                + seq![' ', '\u{2014}', ' '] + text@ + tag
        }),
{
    reveal_strlit("/");
    reveal_strlit(" \u{2014} ");
    assert("/"@ =~= seq!['/']);
    assert(" \u{2014} "@ =~= seq![' ', '\u{2014}', ' ']);
    blanks_are_put_behind(command@, 20);
    let missing: nat = if command@.len() < 20 {
        (20 - command@.len()) as nat
    } else {
        0
    };
    let blanks = Seq::new(missing, |i: int| ' ');
    assert(seq!['/'] + (command@ + blanks) =~= seq!['/'] + command@ + blanks);
}

/// Padding puts blanks behind a text, just as many as it lacks.
pub proof fn blanks_are_put_behind(s: Seq<char>, width: nat)
    ensures
        ({
            let missing: nat = if s.len() < width {
                (width - s.len()) as nat
            } else {
                0
            };
            padded(s, width) == s + Seq::new(missing, |i: int| ' ')
        }),
    decreases width - s.len(),
{
    let missing: nat = if s.len() < width {
        (width - s.len()) as nat
    } else {
        0
    };
    let blanks = Seq::new(missing, |i: int| ' ');
    if s.len() < width {
        blanks_are_put_behind(s.push(' '), width);
        let fewer = Seq::new((missing - 1) as nat, |i: int| ' ');
        assert(s.push(' ') + fewer =~= s + blanks);
    } else {
        assert(s + blanks =~= s);
    }
}

/// The panel shows, while it shows, every entry whose command begins with the
/// typed one, both in lower case and without their slashes, in their order, and
/// no other.
pub proof fn panel_shows_what_begins_as_typed(entries: Seq<SlashEntry>, buffer: Seq<char>)
    ensures
        panel_visible(buffer) ==> panel_entries(entries, buffer) == entries.filter(
            |e: SlashEntry|
                lowercase(without_slashes(trimmed_start(buffer))).is_prefix_of(
                    lowercase(without_slashes(e.name())),
                ),
        ),
        !panel_visible(buffer) ==> panel_entries(entries, buffer).len() == 0,
    decreases entries.len(),
{
    reveal(Seq::filter);
    if entries.len() > 0 {
        panel_shows_what_begins_as_typed(entries.drop_last(), buffer);
    }
}

/// The slash panel is two rows higher than its entries are many, up to eight of
/// them, and eleven rows for more.
pub proof fn slash_panel_grows_with_entries(n: nat)
    ensures
        1 <= n <= 8 ==> slash_panel_rows(n) == n + 2,
        n > 8 ==> slash_panel_rows(n) == 11,
{
}

/// References are seen as the entries that they lead to, in order.
pub proof fn references_are_seen_as_entries(refs: Seq<&SlashEntry>)
    ensures
        entries_of(refs).len() == refs.len(),
        forall|i: int| 0 <= i < refs.len() ==> #[trigger] entries_of(refs)[i] == *refs[i],
{
}

} // verus!
