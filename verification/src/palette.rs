//! The categorised command palette.

use vstd::prelude::*;

use crate::text::{
    chars_of, contains_chars, contains_text, holding_is_standing_within, letters_are_lowered,
    lower_ascii, lower_chars, same_text, trim, trimmed,
};

verus! {

/// A visible slash command.
#[derive(Clone, Copy)]
pub struct CommandSpec {
    /// The command with its slash.
    pub name: &'static str,
    pub description: &'static str,
    pub shortcut: &'static str,
    /// The category that the command is listed under.
    pub category: usize,
}

/// A category of the palette.
#[derive(Clone, Copy)]
pub struct CommandCategory {
    pub id: usize,
    pub label: &'static str,
}

/// A row in the categorised command palette.
#[derive(Clone, Copy)]
pub enum PaletteRow {
    Section(&'static str),
    Entry { command: &'static str, label: &'static str, shortcut: &'static str },
}

/// The entry that lists a command.
pub open spec fn entry_of(command: CommandSpec) -> PaletteRow {
    PaletteRow::Entry {
        command: command.name,
        label: command.description,
        shortcut: command.shortcut,
    }
}

/// The entries of one category, in the order of the commands.
pub open spec fn entries_under(commands: Seq<CommandSpec>, category: usize) -> Seq<PaletteRow>
    decreases commands.len(),
{
    if commands.len() == 0 {
        Seq::empty()
    } else if commands.last().category == category {
        entries_under(commands.drop_last(), category).push(entry_of(commands.last()))
    } else {
        entries_under(commands.drop_last(), category)
    }
}

/// The whole palette: each category's section, then its entries.
pub open spec fn catalog(
    categories: Seq<CommandCategory>,
    commands: Seq<CommandSpec>,
) -> Seq<PaletteRow>
    decreases categories.len(),
{
    if categories.len() == 0 {
        Seq::empty()
    } else {
        let last = categories.last();
        catalog(categories.drop_last(), commands).push(PaletteRow::Section(last.label))
            + entries_under(commands, last.id)
    }
}

/// An entry that `needle` stands in: in its label or its shortcut, case aside,
/// or in its command.
pub open spec fn row_matches(row: PaletteRow, needle: Seq<char>) -> bool {
    match row {
        PaletteRow::Section(_) => false,
        PaletteRow::Entry { command, label, shortcut } => {
            ||| contains_text(lower_ascii(label@), needle)
            ||| contains_text(lower_ascii(shortcut@), needle)
            ||| contains_text(command@, needle)
        },
    }
}

/// One of the entries before the next section matches.
pub open spec fn section_matches(rows: Seq<PaletteRow>, needle: Seq<char>) -> bool
    decreases rows.len(),
{
    rows.len() > 0 && rows[0] is Entry && (row_matches(rows[0], needle) || section_matches(
        rows.drop_first(),
        needle,
    ))
}

/// The matching entries, each section kept that has one.
pub open spec fn kept_rows(rows: Seq<PaletteRow>, needle: Seq<char>) -> Seq<PaletteRow>
    decreases rows.len(),
{
    if rows.len() == 0 {
        Seq::empty()
    } else {
        let rest = kept_rows(rows.drop_first(), needle);
        let keep = match rows[0] {
            PaletteRow::Section(_) => section_matches(rows.drop_first(), needle),
            PaletteRow::Entry { .. } => row_matches(rows[0], needle),
        };
        if keep {
            seq![rows[0]] + rest
        } else {
            rest
        }
    }
}

/// The rows that a query leaves: all of them for a blank one.
pub open spec fn filtered_rows(rows: Seq<PaletteRow>, query: Seq<char>) -> Seq<PaletteRow> {
    let needle = lower_ascii(trimmed(query));
    if needle.len() == 0 {
        rows
    } else {
        kept_rows(rows, needle)
    }
}

/// The rows that references lead to.
pub open spec fn rows_of(refs: Seq<&PaletteRow>) -> Seq<PaletteRow> {
    refs.map_values(|r: &PaletteRow| *r)
}

/// The indices below `n` of the entries.
pub open spec fn entry_indices(rows: Seq<&PaletteRow>, n: int) -> Seq<usize>
    decreases n,
{
    if n <= 0 {
        Seq::empty()
    } else if *rows[n - 1] is Entry {
        entry_indices(rows, n - 1).push((n - 1) as usize)
    } else {
        entry_indices(rows, n - 1)
    }
}

/// The name of the first command with this description, `/help` without one.
pub open spec fn command_for(commands: Seq<CommandSpec>, label: Seq<char>) -> Seq<char>
    decreases commands.len(),
{
    if commands.len() == 0 {
        "/help"@
    } else if commands[0].description@ == label {
        commands[0].name@
    } else {
        command_for(commands.drop_first(), label)
    }
}

/// Lists the visible commands by category.
pub fn palette_catalog(categories: &[CommandCategory], commands: &[CommandSpec]) -> (r: Vec<
    PaletteRow,
>)
    ensures
        r@ == catalog(categories@, commands@),
{
    let mut rows: Vec<PaletteRow> = Vec::new();
    let mut i: usize = 0;
    assert(categories@.take(0) =~= Seq::<CommandCategory>::empty());
    while i < categories.len()
        invariant
            i <= categories@.len(),
            rows@ == catalog(categories@.take(i as int), commands@),
        decreases categories@.len() - i,
    {
        let category = categories[i];
        rows.push(PaletteRow::Section(category.label));
        let ghost before = rows@;
        let mut k: usize = 0;
        assert(commands@.take(0) =~= Seq::<CommandSpec>::empty());
        while k < commands.len()
            invariant
                k <= commands@.len(),
                rows@ == before + entries_under(commands@.take(k as int), category.id),
            decreases commands@.len() - k,
        {
            let command = commands[k];
            assert(commands@.take(k + 1).drop_last() =~= commands@.take(k as int));
            if command.category == category.id {
                rows.push(
                    PaletteRow::Entry {
                        command: command.name,
                        label: command.description,
                        shortcut: command.shortcut,
                    },
                );
            }
            assert(rows@ =~= before + entries_under(commands@.take(k + 1), category.id));
            k += 1;
        }
        proof {
            assert(commands@.take(k as int) =~= commands@);
            assert(categories@.take(i + 1).drop_last() =~= categories@.take(i as int));
            assert(categories@.take(i + 1).last() == category);
        }
        i += 1;
    }
    assert(categories@.take(i as int) =~= categories@);
    rows
}

/// The command behind a palette label.
pub fn palette_command_for_label(commands: &[CommandSpec], label: &str) -> (r: &'static str)
    ensures
        r@ == command_for(commands@, label@),
{
    let mut i: usize = 0;
    assert(commands@.skip(0) =~= commands@);
    while i < commands.len()
        invariant
            i <= commands@.len(),
            command_for(commands@, label@) == command_for(commands@.skip(i as int), label@),
        decreases commands@.len() - i,
    {
        assert(commands@.skip(i as int).drop_first() =~= commands@.skip(i + 1));
        if same_text(commands[i].description, label) {
            return commands[i].name;
        }
        i += 1;
    }
    "/help"
}

/// Whether an entry matches.
fn entry_matches(row: &PaletteRow, needle: &[char]) -> (r: bool)
    ensures
        r == row_matches(*row, needle@),
{
    match row {
        PaletteRow::Section(_) => false,
        PaletteRow::Entry { command, label, shortcut } => {
            contains_chars(lower_chars(label).as_slice(), needle) || contains_chars(
                lower_chars(shortcut).as_slice(),
                needle,
            ) || contains_chars(chars_of(command).as_slice(), needle)
        },
    }
}

/// The rows of the palette that a query leaves: the entries that match, each
/// under its section; every row for a blank query.
pub fn filter_palette_rows<'a>(palette: &'a [PaletteRow], query: &str) -> (r: Vec<&'a PaletteRow>)
    ensures
        rows_of(r@) == filtered_rows(palette@, query@),
{
    let needle = lower_chars(trim(query));
    let mut result: Vec<&'a PaletteRow> = Vec::new();
    let mut i: usize = 0;
    if needle.len() == 0 {
        while i < palette.len()
            invariant
                i <= palette@.len(),
                rows_of(result@) == palette@.take(i as int),
            decreases palette@.len() - i,
        {
            let ghost before = result@;
            result.push(&palette[i]);
            assert(rows_of(result@) =~= rows_of(before).push(palette@[i as int]));
            assert(palette@.take(i + 1) =~= palette@.take(i as int).push(palette@[i as int]));
            i += 1;
        }
        assert(palette@.take(i as int) =~= palette@);
        return result;
    }
    let mut pending: Option<&'a PaletteRow> = None;
    assert(palette@.skip(0) =~= palette@);
    assert(rows_of(result@) + kept_rows(palette@, needle@) =~= kept_rows(palette@, needle@));
    while i < palette.len()
        invariant
            i <= palette@.len(),
            pending matches Some(s) ==> *s is Section,
            kept_rows(palette@, needle@) == rows_of(result@) + pending_rows(
                pending,
                palette@.skip(i as int),
                needle@,
            ) + kept_rows(palette@.skip(i as int), needle@),
        decreases palette@.len() - i,
    {
        let row = &palette[i];
        let ghost before = result@;
        let ghost rest = palette@.skip(i + 1);
        let ghost tail = kept_rows(rest, needle@);
        assert(palette@.skip(i as int).drop_first() =~= rest);
        assert(palette@.skip(i as int)[0] == *row);
        match row {
            PaletteRow::Section(_) => {
                pending = Some(row);
                assert(rows_of(before) + Seq::<PaletteRow>::empty() =~= rows_of(before));
                assert(rows_of(before) + (seq![*row] + tail) =~= rows_of(before) + seq![*row]
                    + tail);
                assert(rows_of(before) + Seq::<PaletteRow>::empty() + tail =~= rows_of(before)
                    + tail);
            },
            PaletteRow::Entry { .. } => {
                if entry_matches(row, needle.as_slice()) {
                    match pending {
                        Some(s) => {
                            result.push(s);
                            result.push(row);
                            assert(rows_of(result@) =~= rows_of(before).push(*s).push(*row));
                            assert(rows_of(before) + seq![*s] + (seq![*row] + tail) =~= rows_of(
                                result@,
                            ) + Seq::<PaletteRow>::empty() + tail);
                        },
                        None => {
                            result.push(row);
                            assert(rows_of(result@) =~= rows_of(before).push(*row));
                            assert(rows_of(before) + Seq::<PaletteRow>::empty() + (seq![*row]
                                + tail) =~= rows_of(result@) + Seq::<PaletteRow>::empty() + tail);
                        },
                    }
                    pending = None;
                }
            },
        }
        i += 1;
    }
    assert(palette@.skip(i as int) =~= Seq::<PaletteRow>::empty());
    assert(rows_of(result@) + Seq::<PaletteRow>::empty() + Seq::<PaletteRow>::empty() =~= rows_of(
        result@,
    ));
    result
}

/// The section that is still to be shown if an entry of it follows.
spec fn pending_rows(
    pending: Option<&PaletteRow>,
    rest: Seq<PaletteRow>,
    needle: Seq<char>,
) -> Seq<PaletteRow> {
    match pending {
        Some(s) => if section_matches(rest, needle) {
            seq![*s]
        } else {
            Seq::empty()
        },
        None => Seq::empty(),
    }
}

/// The indices of the rows that can be selected: the entries.
pub fn palette_selectable_indices(rows: &[&PaletteRow]) -> (r: Vec<usize>)
    ensures
        r@ == entry_indices(rows@, rows@.len() as int),
{
    let mut out: Vec<usize> = Vec::new();
    let mut i: usize = 0;
    while i < rows.len()
        invariant
            i <= rows@.len(),
            out@ == entry_indices(rows@, i as int),
        decreases rows@.len() - i,
    {
        match rows[i] {
            PaletteRow::Entry { .. } => {
                out.push(i);
            },
            PaletteRow::Section(_) => {},
        }
        i += 1;
    }
    out
}

// ---------------------------------------------------------------------------
// Laws
// ---------------------------------------------------------------------------

/// Every entry of the palette lists a registered command.
pub proof fn entries_are_registered(
    categories: Seq<CommandCategory>,
    commands: Seq<CommandSpec>,
    i: int,
)
    requires
        0 <= i < catalog(categories, commands).len(),
        catalog(categories, commands)[i] is Entry,
    ensures
        exists|k: int|
            0 <= k < commands.len() && entry_of(#[trigger] commands[k]) == catalog(
                categories,
                commands,
            )[i],
    decreases categories.len(),
{
    let head = catalog(categories.drop_last(), commands);
    if i < head.len() {
        entries_are_registered(categories.drop_last(), commands, i);
    } else {
        entries_under_registered(commands, categories.last().id, i - head.len() - 1);
    }
}

proof fn entries_under_registered(commands: Seq<CommandSpec>, category: usize, i: int)
    requires
        0 <= i < entries_under(commands, category).len(),
    ensures
        exists|k: int|
            0 <= k < commands.len() && entry_of(#[trigger] commands[k]) == entries_under(
                commands,
                category,
            )[i],
    decreases commands.len(),
{
    let before = entries_under(commands.drop_last(), category);
    if i < before.len() {
        entries_under_registered(commands.drop_last(), category, i);
        let k = choose|k: int|
            0 <= k < commands.len() - 1 && entry_of(#[trigger] commands.drop_last()[k])
                == before[i];
        assert(commands[k] == commands.drop_last()[k]);
    } else {
        assert(entry_of(commands[commands.len() - 1]) == entries_under(commands, category)[i]);
    }
}

/// How many entries list the command `name`.
pub open spec fn times_listed(rows: Seq<PaletteRow>, name: Seq<char>) -> nat
    decreases rows.len(),
{
    if rows.len() == 0 {
        0
    } else {
        times_listed(rows.drop_last(), name) + match rows.last() {
            PaletteRow::Section(_) => 0nat,
            PaletteRow::Entry { command, .. } => if command@ == name {
                1nat
            } else {
                0nat
            },
        }
    }
}

/// How many commands of a category are called `name`.
pub open spec fn times_named(commands: Seq<CommandSpec>, category: usize, name: Seq<char>) -> nat
    decreases commands.len(),
{
    if commands.len() == 0 {
        0
    } else {
        times_named(commands.drop_last(), category, name) + if commands.last().category == category
            && commands.last().name@ == name {
            1nat
        } else {
            0nat
        }
    }
}

/// How many commands of the given categories are called `name`, a category
/// counted as often as it is given.
pub open spec fn times_registered(
    categories: Seq<CommandCategory>,
    commands: Seq<CommandSpec>,
    name: Seq<char>,
) -> nat
    decreases categories.len(),
{
    if categories.len() == 0 {
        0
    } else {
        times_registered(categories.drop_last(), commands, name) + times_named(
            commands,
            categories.last().id,
            name,
        )
    }
}

/// A command is listed as often as it is registered.
pub proof fn listed_as_registered(
    categories: Seq<CommandCategory>,
    commands: Seq<CommandSpec>,
    name: Seq<char>,
)
    ensures
        times_listed(catalog(categories, commands), name) == times_registered(
            categories,
            commands,
            name,
        ),
    decreases categories.len(),
{
    if categories.len() > 0 {
        listed_as_registered(categories.drop_last(), commands, name);
        let head = catalog(categories.drop_last(), commands);
        let section = PaletteRow::Section(categories.last().label);
        let entries = entries_under(commands, categories.last().id);
        times_listed_parts(head.push(section), entries, name);
        assert(head.push(section).drop_last() =~= head);
        times_listed_under(commands, categories.last().id, name);
    }
}

/// A command that is registered once, under a category that is given once, is
/// listed once.
pub proof fn listed_once(
    categories: Seq<CommandCategory>,
    commands: Seq<CommandSpec>,
    k: int,
    c: int,
)
    requires
        0 <= k < commands.len(),
        0 <= c < categories.len(),
        commands[k].category == categories[c].id,
        forall|j: int|
            0 <= j < commands.len() && j != k ==> (#[trigger] commands[j]).name@
                != commands[k].name@,
        forall|d: int|
            0 <= d < categories.len() && d != c ==> (#[trigger] categories[d]).id
                != categories[c].id,
    ensures
        times_listed(catalog(categories, commands), commands[k].name@) == 1,
{
    listed_as_registered(categories, commands, commands[k].name@);
    registered_once(categories, commands, k, c);
}

proof fn registered_once(
    categories: Seq<CommandCategory>,
    commands: Seq<CommandSpec>,
    k: int,
    c: int,
)
    requires
        0 <= k < commands.len(),
        c < categories.len(),
        0 <= c ==> commands[k].category == categories[c].id,
        forall|j: int|
            0 <= j < commands.len() && j != k ==> (#[trigger] commands[j]).name@
                != commands[k].name@,
        forall|d: int|
            0 <= d < categories.len() && d != c ==> (#[trigger] categories[d]).id
                != commands[k].category,
    ensures
        times_registered(categories, commands, commands[k].name@) == if 0 <= c {
            1nat
        } else {
            0nat
        },
    decreases categories.len(),
{
    if categories.len() > 0 {
        let rest = categories.drop_last();
        assert forall|d: int|
            0 <= d < rest.len() && d != (if c == categories.len() - 1 {
                -1
            } else {
                c
            }) implies (#[trigger] rest[d]).id != commands[k].category by {
            assert(rest[d] == categories[d]);
        }
        if c == categories.len() - 1 {
            registered_once(rest, commands, k, -1);
        } else {
            registered_once(rest, commands, k, c);
        }
        named_once(commands, categories.last().id, k);
    }
}

proof fn named_once(commands: Seq<CommandSpec>, category: usize, k: int)
    requires
        0 <= k < commands.len(),
        forall|j: int|
            0 <= j < commands.len() && j != k ==> (#[trigger] commands[j]).name@
                != commands[k].name@,
    ensures
        times_named(commands, category, commands[k].name@) == if commands[k].category == category {
            1nat
        } else {
            0nat
        },
    decreases commands.len(),
{
    let rest = commands.drop_last();
    let name = commands[k].name@;
    assert forall|j: int| 0 <= j < rest.len() && j != k implies (#[trigger] rest[j]).name@
        != name by {
        assert(rest[j] == commands[j]);
    }
    if k == commands.len() - 1 {
        named_never(rest, category, name);
    } else {
        named_once(rest, category, k);
        assert(commands.last() == commands[commands.len() - 1]);
    }
}

proof fn named_never(commands: Seq<CommandSpec>, category: usize, name: Seq<char>)
    requires
        forall|j: int| 0 <= j < commands.len() ==> (#[trigger] commands[j]).name@ != name,
    ensures
        times_named(commands, category, name) == 0,
    decreases commands.len(),
{
    if commands.len() > 0 {
        assert(commands.last() == commands[commands.len() - 1]);
        assert forall|j: int| 0 <= j < commands.drop_last().len() implies (
        #[trigger] commands.drop_last()[j]).name@ != name by {
            assert(commands.drop_last()[j] == commands[j]);
        }
        named_never(commands.drop_last(), category, name);
    }
}

proof fn times_listed_parts(a: Seq<PaletteRow>, b: Seq<PaletteRow>, name: Seq<char>)
    ensures
        times_listed(a + b, name) == times_listed(a, name) + times_listed(b, name),
    decreases b.len(),
{
    if b.len() == 0 {
        assert(a + b =~= a);
    } else {
        assert((a + b).drop_last() =~= a + b.drop_last());
        times_listed_parts(a, b.drop_last(), name);
    }
}

proof fn times_listed_under(commands: Seq<CommandSpec>, category: usize, name: Seq<char>)
    ensures
        times_listed(entries_under(commands, category), name) == times_named(
            commands,
            category,
            name,
        ),
    decreases commands.len(),
{
    if commands.len() > 0 {
        times_listed_under(commands.drop_last(), category, name);
        let before = entries_under(commands.drop_last(), category);
        assert(before.push(entry_of(commands.last())).drop_last() =~= before);
    }
}

/// A query leaves no section without an entry, and no entry that does not
/// match.
pub proof fn kept_sections_have_entries(rows: Seq<PaletteRow>, needle: Seq<char>, i: int)
    requires
        0 <= i < kept_rows(rows, needle).len(),
    ensures
        kept_rows(rows, needle)[i] is Entry ==> row_matches(kept_rows(rows, needle)[i], needle),
        kept_rows(rows, needle)[i] is Section ==> i + 1 < kept_rows(rows, needle).len()
            && kept_rows(rows, needle)[i + 1] is Entry,
    decreases rows.len(),
{
    let rest = rows.drop_first();
    let tail = kept_rows(rest, needle);
    if kept_rows(rows, needle) == seq![rows[0]] + tail {
        if i > 0 {
            kept_sections_have_entries(rest, needle, i - 1);
        } else if rows[0] is Section {
            section_match_is_kept(rest, needle);
        } else if !row_matches(rows[0], needle) {
            kept_sections_have_entries(rest, needle, i);
        }
    } else {
        kept_sections_have_entries(rest, needle, i);
    }
}

/// A section has a match just where an entry comes first of what is kept.
proof fn section_match_is_kept(rows: Seq<PaletteRow>, needle: Seq<char>)
    ensures
        section_matches(rows, needle) ==> kept_rows(rows, needle).len() > 0 && kept_rows(
            rows,
            needle,
        )[0] is Entry && row_matches(kept_rows(rows, needle)[0], needle),
        section_matches(kept_rows(rows, needle), needle) == section_matches(rows, needle),
    decreases rows.len(),
{
    if rows.len() > 0 {
        section_match_is_kept(rows.drop_first(), needle);
        let tail = kept_rows(rows.drop_first(), needle);
        assert((seq![rows[0]] + tail).drop_first() =~= tail);
    }
}

/// Filtering what a query left by that query again changes nothing.
pub proof fn filtering_twice(rows: Seq<PaletteRow>, query: Seq<char>)
    ensures
        filtered_rows(filtered_rows(rows, query), query) == filtered_rows(rows, query),
{
    keeping_twice(rows, lower_ascii(trimmed(query)));
}

proof fn keeping_twice(rows: Seq<PaletteRow>, needle: Seq<char>)
    ensures
        kept_rows(kept_rows(rows, needle), needle) == kept_rows(rows, needle),
    decreases rows.len(),
{
    if rows.len() > 0 {
        let rest = rows.drop_first();
        let tail = kept_rows(rest, needle);
        keeping_twice(rest, needle);
        section_match_is_kept(rest, needle);
        assert((seq![rows[0]] + tail).drop_first() =~= tail);
    }
}

/// The selectable indices are those of the entries, in ascending order.
pub proof fn selectable_are_entries(rows: Seq<&PaletteRow>, n: int)
    requires
        0 <= n <= rows.len() <= usize::MAX,
    ensures
        forall|i: usize|
            entry_indices(rows, n).contains(i) <==> i < n && *rows[i as int] is Entry,
        forall|a: int, b: int|
            0 <= a < b < entry_indices(rows, n).len() ==> entry_indices(rows, n)[a]
                < entry_indices(rows, n)[b],
    decreases n,
{
    if n > 0 {
        selectable_are_entries(rows, n - 1);
        let before = entry_indices(rows, n - 1);
        let all = entry_indices(rows, n);
        assert forall|i: usize| all.contains(i) <==> i < n && *rows[i as int] is Entry by {
            if all.contains(i) {
                let k = choose|k: int| 0 <= k < all.len() && all[k] == i;
                if k < before.len() {
                    assert(before[k] == i);
                    assert(before.contains(i));
                }
            }
            if i < n && *rows[i as int] is Entry {
                if i == n - 1 {
                    assert(all.last() == i);
                } else {
                    let k = choose|k: int| 0 <= k < before.len() && before[k] == i;
                    assert(before.contains(i));
                    assert(all[k] == i);
                }
            }
        }
        assert forall|a: int, b: int| 0 <= a < b < all.len() implies all[a] < all[b] by {
            if b == before.len() {
                assert(before.contains(before[a]));
            }
        }
    }
}

/// A further category adds its section, and under it an entry for each of its
/// commands, in their order, with the command's name, its description for a
/// label, and its shortcut. Without a category there is nothing.
pub proof fn categories_list_their_commands(
    categories: Seq<CommandCategory>,
    commands: Seq<CommandSpec>,
    category: CommandCategory,
)
    ensures
        catalog(Seq::empty(), commands).len() == 0,
        catalog(categories.push(category), commands) == catalog(categories, commands) + seq![
            PaletteRow::Section(category.label),
        ] + commands.filter(|c: CommandSpec| c.category == category.id).map_values(
            |c: CommandSpec|
                PaletteRow::Entry { command: c.name, label: c.description, shortcut: c.shortcut },
        ),
{
    assert(categories.push(category).drop_last() =~= categories);
    entries_are_of_the_category(commands, category.id);
    let head = catalog(categories, commands);
    assert(head.push(PaletteRow::Section(category.label)) =~= head + seq![
        PaletteRow::Section(category.label),
    ]);
}

proof fn entries_are_of_the_category(commands: Seq<CommandSpec>, category: usize)
    ensures
        entries_under(commands, category) == commands.filter(
            |c: CommandSpec| c.category == category,
        ).map_values(
            |c: CommandSpec|
                PaletteRow::Entry { command: c.name, label: c.description, shortcut: c.shortcut },
        ),
    decreases commands.len(),
{
    reveal(Seq::filter);
    let of_category = |c: CommandSpec| c.category == category;
    let entry = |c: CommandSpec|
        PaletteRow::Entry { command: c.name, label: c.description, shortcut: c.shortcut };
    if commands.len() > 0 {
        entries_are_of_the_category(commands.drop_last(), category);
        let before = commands.drop_last().filter(of_category);
        assert(entries_under(commands, category) =~= commands.filter(of_category).map_values(
            entry,
        ));
    } else {
        assert(entries_under(commands, category) =~= commands.filter(of_category).map_values(
            entry,
        ));
    }
}

/// The name that a label leads to is that of the first command with this
/// description; without one it is `/help`.
pub proof fn label_leads_to_first_command(commands: Seq<CommandSpec>, label: Seq<char>)
    ensures
        (exists|k: int|
            0 <= k < commands.len() && (#[trigger] commands[k]).description@ == label && (forall|
                j: int,
            |
                0 <= j < k ==> (#[trigger] commands[j]).description@ != label) && command_for(
                commands,
                label,
            ) == commands[k].name@) || ((forall|j: int|
            0 <= j < commands.len() ==> (#[trigger] commands[j]).description@ != label)
            && command_for(commands, label) == "/help"@),
    decreases commands.len(),
{
    if commands.len() > 0 {
        let rest = commands.drop_first();
        if commands[0].description@ != label {
            label_leads_to_first_command(rest, label);
            if exists|k: int|
                0 <= k < rest.len() && (#[trigger] rest[k]).description@ == label && (forall|
                    j: int,
                |
                    0 <= j < k ==> (#[trigger] rest[j]).description@ != label) && command_for(
                    rest,
                    label,
                ) == rest[k].name@ {
                let k = choose|k: int|
                    0 <= k < rest.len() && (#[trigger] rest[k]).description@ == label && (forall|
                        j: int,
                    |
                        0 <= j < k ==> (#[trigger] rest[j]).description@ != label) && command_for(
                        rest,
                        label,
                    ) == rest[k].name@;
                assert(commands[k + 1] == rest[k]);
                assert forall|j: int| 0 <= j < k + 1 implies (
                #[trigger] commands[j]).description@ != label by {
                    if j > 0 {
                        assert(rest[j - 1] == commands[j]);
                    }
                }
            } else {
                assert forall|j: int| 0 <= j < commands.len() implies (
                #[trigger] commands[j]).description@ != label by {
                    if j > 0 {
                        assert(rest[j - 1] == commands[j]);
                    }
                }
            }
        } else {
            assert(commands[0].description@ == label);
        }
    }
}

/// One of the entry's three texts holds what is searched for: the label or the
/// shortcut with its letters lowered, or the command as it is.
pub open spec fn held_by(row: PaletteRow, needle: Seq<char>) -> bool {
    exists|before: Seq<char>, behind: Seq<char>|
        row matches PaletteRow::Entry { command, label, shortcut } && {
            let found = #[trigger] (before + needle + behind);
            lower_ascii(label@) == found || lower_ascii(shortcut@) == found || command@ == found
        }
}

/// An entry behind row `i` holds what is searched for, with only entries between
/// the two.
pub open spec fn held_below(rows: Seq<PaletteRow>, needle: Seq<char>, i: int) -> bool {
    exists|j: int|
        i < j < rows.len() && held_by(#[trigger] rows[j], needle) && forall|l: int|
            i < l <= j ==> (#[trigger] rows[l]) is Entry
}

/// A row is to be left: an entry that holds what is searched for, a section with
/// such an entry.
pub open spec fn is_left(rows: Seq<PaletteRow>, needle: Seq<char>, i: int) -> bool {
    if rows[i] is Entry {
        held_by(rows[i], needle)
    } else {
        held_below(rows, needle, i)
    }
}

/// A search leaves the rows that are to be left, each once, in their order, and
/// no other: the indices of the rows are given.
pub proof fn search_leaves_what_holds(rows: Seq<PaletteRow>, query: Seq<char>) -> (at: Seq<int>)
    requires
        trimmed(query).len() > 0,
    ensures
        at.len() == filtered_rows(rows, query).len(),
        forall|p: int|
            0 <= p < at.len() ==> 0 <= #[trigger] at[p] < rows.len() && filtered_rows(
                rows,
                query,
            )[p] == rows[at[p]],
        forall|p: int, q: int| 0 <= p < q < at.len() ==> at[p] < at[q],
        forall|i: int|
            0 <= i < rows.len() ==> (at.contains(i) <==> #[trigger] is_left(
                rows,
                lower_ascii(trimmed(query)),
                i,
            )),
{
    letters_are_lowered(trimmed(query));
    kept_at(rows, lower_ascii(trimmed(query)))
}

/// A search for nothing leaves every row.
pub proof fn blank_search_leaves_all(rows: Seq<PaletteRow>, query: Seq<char>)
    requires
        trimmed(query).len() == 0,
    ensures
        filtered_rows(rows, query) == rows,
{
    letters_are_lowered(trimmed(query));
}

/// An entry whose label, shortcut or command holds the query is among the rows
/// that are left, and one of which none of the three does is not.
pub proof fn every_text_is_searched(
    rows: Seq<PaletteRow>,
    query: Seq<char>,
    i: int,
    command: &'static str,
    label: &'static str,
    shortcut: &'static str,
)
    requires
        trimmed(query).len() > 0,
        0 <= i < rows.len(),
        rows[i] == (PaletteRow::Entry { command, label, shortcut }),
    ensures
        filtered_rows(rows, query).contains(rows[i]) <==> {
            let needle = lower_ascii(trimmed(query));
            ||| contains_text(lower_ascii(label@), needle)
            ||| contains_text(lower_ascii(shortcut@), needle)
            ||| contains_text(command@, needle)
        },
{
    let needle = lower_ascii(trimmed(query));
    let left = filtered_rows(rows, query);
    let at = search_leaves_what_holds(rows, query);
    holding_is_one_of_three(rows[i], needle);
    if is_left(rows, needle, i) {
        assert(at.contains(i));
        let p = choose|p: int| 0 <= p < at.len() && at[p] == i;
        assert(left[p] == rows[i]);
    }
    if left.contains(rows[i]) {
        let p = choose|p: int| 0 <= p < left.len() && left[p] == rows[i];
        assert(at.contains(at[p]));
        assert(is_left(rows, needle, at[p]));
        assert(rows[at[p]] == rows[i]);
    }
}

/// What holding is, over the three texts.
proof fn holding_is_one_of_three(row: PaletteRow, needle: Seq<char>)
    ensures
        held_by(row, needle) <==> (row matches PaletteRow::Entry { command, label, shortcut } && {
            ||| contains_text(lower_ascii(label@), needle)
            ||| contains_text(lower_ascii(shortcut@), needle)
            ||| contains_text(command@, needle)
        }),
        held_by(row, needle) <==> row_matches(row, needle),
{
    match row {
        PaletteRow::Section(_) => {},
        PaletteRow::Entry { command, label, shortcut } => {
            holding_is_standing_within(lower_ascii(label@), needle);
            holding_is_standing_within(lower_ascii(shortcut@), needle);
            holding_is_standing_within(command@, needle);
        },
    }
}

/// A section has a match just where an entry below it holds what is searched.
proof fn section_match_is_below(rows: Seq<PaletteRow>, needle: Seq<char>)
    requires
        rows.len() > 0,
    ensures
        section_matches(rows.drop_first(), needle) <==> held_below(rows, needle, 0),
    decreases rows.len(),
{
    let rest = rows.drop_first();
    if rest.len() > 0 {
        assert(rest[0] == rows[1]);
        holding_is_one_of_three(rows[1], needle);
        section_match_is_below(rest, needle);
        if section_matches(rest, needle) {
            if row_matches(rest[0], needle) {
                assert(held_by(rows[1], needle));
            } else {
                let j = choose|j: int|
                    0 < j < rest.len() && held_by(#[trigger] rest[j], needle) && forall|l: int|
                        0 < l <= j ==> (#[trigger] rest[l]) is Entry;
                assert(rows[j + 1] == rest[j]);
                assert forall|l: int| 0 < l <= j + 1 implies (#[trigger] rows[l]) is Entry by {
                    assert(rows[l] == rest[l - 1]);
                }
            }
        }
        if held_below(rows, needle, 0) {
            let j = choose|j: int|
                0 < j < rows.len() && held_by(#[trigger] rows[j], needle) && forall|l: int|
                    0 < l <= j ==> (#[trigger] rows[l]) is Entry;
            assert(rows[1] is Entry);
            if j > 1 {
                assert(rest[j - 1] == rows[j]);
                assert forall|l: int| 0 < l <= j - 1 implies (#[trigger] rest[l]) is Entry by {
                    assert(rest[l] == rows[l + 1]);
                }
                assert(held_below(rest, needle, 0));
            }
        }
    }
}

/// What is left does not depend on the rows before.
proof fn left_without_first(rows: Seq<PaletteRow>, needle: Seq<char>, i: int)
    requires
        0 < i < rows.len(),
    ensures
        is_left(rows, needle, i) == is_left(rows.drop_first(), needle, i - 1),
{
    let rest = rows.drop_first();
    assert(rest[i - 1] == rows[i]);
    if held_below(rows, needle, i) {
        let j = choose|j: int|
            i < j < rows.len() && held_by(#[trigger] rows[j], needle) && forall|l: int|
                i < l <= j ==> (#[trigger] rows[l]) is Entry;
        assert(rest[j - 1] == rows[j]);
        assert forall|l: int| i - 1 < l <= j - 1 implies (#[trigger] rest[l]) is Entry by {
            assert(rest[l] == rows[l + 1]);
        }
    }
    if held_below(rest, needle, i - 1) {
        let j = choose|j: int|
            i - 1 < j < rest.len() && held_by(#[trigger] rest[j], needle) && forall|l: int|
                i - 1 < l <= j ==> (#[trigger] rest[l]) is Entry;
        assert(rows[j + 1] == rest[j]);
        assert forall|l: int| i < l <= j + 1 implies (#[trigger] rows[l]) is Entry by {
            assert(rows[l] == rest[l - 1]);
        }
    }
}

proof fn kept_at(rows: Seq<PaletteRow>, needle: Seq<char>) -> (at: Seq<int>)
    ensures
        at.len() == kept_rows(rows, needle).len(),
        forall|p: int|
            0 <= p < at.len() ==> 0 <= #[trigger] at[p] < rows.len() && kept_rows(rows, needle)[p]
                == rows[at[p]],
        forall|p: int, q: int| 0 <= p < q < at.len() ==> at[p] < at[q],
        forall|i: int|
            0 <= i < rows.len() ==> (at.contains(i) <==> #[trigger] is_left(rows, needle, i)),
    decreases rows.len(),
{
    if rows.len() == 0 {
        Seq::empty()
    } else {
        let rest = rows.drop_first();
        let below = kept_at(rest, needle);
        let moved = Seq::new(below.len(), |p: int| below[p] + 1);
        let first = is_left(rows, needle, 0);
        section_match_is_below(rows, needle);
        holding_is_one_of_three(rows[0], needle);
        let at = if first {
            seq![0int] + moved
        } else {
            moved
        };
        let skip: int = if first {
            1
        } else {
            0
        };
        assert forall|p: int| 0 <= p < at.len() implies 0 <= #[trigger] at[p] < rows.len()
            && kept_rows(rows, needle)[p] == rows[at[p]] by {
            if p >= skip {
                assert(at[p] == below[p - skip] + 1);
                assert(kept_rows(rest, needle)[p - skip] == rest[below[p - skip]]);
            }
        }
        assert forall|p: int, q: int| 0 <= p < q < at.len() implies at[p] < at[q] by {
            assert(at[q] == below[q - skip] + 1);
            if p >= skip {
                assert(at[p] == below[p - skip] + 1);
            }
        }
        assert forall|i: int| 0 <= i < rows.len() implies (at.contains(i)
            <==> #[trigger] is_left(rows, needle, i)) by {
            if i == 0 {
                if first {
                    assert(at[0] == 0);
                } else if at.contains(0) {
                    let p = choose|p: int| 0 <= p < at.len() && at[p] == 0;
                    assert(at[p] == below[p] + 1);
                }
            } else {
                left_without_first(rows, needle, i);
                assert(below.contains(i - 1) <==> is_left(rest, needle, i - 1));
                if below.contains(i - 1) {
                    let p = choose|p: int| 0 <= p < below.len() && below[p] == i - 1;
                    assert(at[p + skip] == i);
                }
                if at.contains(i) {
                    let p = choose|p: int| 0 <= p < at.len() && at[p] == i;
                    assert(p >= skip);
                    assert(at[p] == below[p - skip] + 1);
                    assert(below[p - skip] == i - 1);
                }
            }
        }
        at
    }
}

/// References are seen as the rows that they lead to, in order.
pub proof fn references_are_seen_as_rows(refs: Seq<&PaletteRow>)
    ensures
        rows_of(refs).len() == refs.len(),
        forall|i: int| 0 <= i < refs.len() ==> #[trigger] rows_of(refs)[i] == *refs[i],
{
}

} // verus!
