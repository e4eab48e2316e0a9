//! The branch picker.

use vstd::prelude::*;

use crate::text::{
    chars_of, contains_chars, contains_text, eq_ignore_case, from_char, lower_ascii, lower_chars,
    same_ignoring_case, trim, trimmed, trimming_twice,
};

verus! {

/// What the branch picker asks for.
#[derive(Debug)]
pub enum TuiCmd {
    CreateBranch(String),
    SwitchBranch(String),
}

/// What a [`TuiCmd`] says.
pub enum TuiCmdView {
    CreateBranch(Seq<char>),
    SwitchBranch(Seq<char>),
}

impl View for TuiCmd {
    type V = TuiCmdView;

    open spec fn view(&self) -> TuiCmdView {
        match self {
            TuiCmd::CreateBranch(name) => TuiCmdView::CreateBranch(name@),
            TuiCmd::SwitchBranch(name) => TuiCmdView::SwitchBranch(name@),
        }
    }
}

/// `s` without the slash that it begins with.
pub open spec fn without_slash(s: Seq<char>) -> Seq<char> {
    if s.len() > 0 && s[0] == '/' {
        s.drop_first()
    } else {
        s
    }
}

/// The text that branches are filtered by.
pub open spec fn filter_text(query: Seq<char>) -> Seq<char> {
    without_slash(trimmed(query))
}

/// A branch stays in the list: the filter stands in its name, case aside.
pub open spec fn branch_stays(branch: Seq<char>, query: Seq<char>) -> bool {
    contains_text(lower_ascii(branch), lower_ascii(filter_text(query)))
}

/// The indices below `n` of the branches that stay.
pub open spec fn staying(branches: Seq<String>, query: Seq<char>, n: int) -> Seq<usize>
    decreases n,
{
    if n <= 0 {
        Seq::empty()
    } else if branch_stays(branches[n - 1]@, query) {
        staying(branches, query, n - 1).push((n - 1) as usize)
    } else {
        staying(branches, query, n - 1)
    }
}

/// The index of the first branch with this name, case aside.
pub open spec fn first_named(branches: Seq<String>, name: Seq<char>, from: int) -> Option<int>
    decreases branches.len() - from,
{
    if from < 0 || from >= branches.len() {
        None
    } else if same_ignoring_case(branches[from]@, name) {
        Some(from)
    } else {
        first_named(branches, name, from + 1)
    }
}

/// What Enter does in the picker: a query that begins with a slash creates the
/// branch it names; one that names a branch switches to it; else the selected
/// branch is switched to.
pub open spec fn enter_command(branches: Seq<String>, query: Seq<char>, selected: int) -> Option<
    TuiCmdView,
> {
    let raw = trimmed(query);
    let name = trimmed(filter_text(raw));
    let listed = staying(branches, raw, branches.len() as int);
    if raw.len() > 0 && raw[0] == '/' {
        if name.len() == 0 {
            None
        } else {
            Some(TuiCmdView::CreateBranch(name))
        }
    } else if name.len() > 0 && first_named(branches, name, 0) is Some {
        Some(TuiCmdView::SwitchBranch(branches[first_named(branches, name, 0)->0]@))
    } else if selected < listed.len() {
        Some(TuiCmdView::SwitchBranch(branches[listed[selected] as int]@))
    } else {
        None
    }
}

/// The query without surrounding white space and without one leading slash.
pub fn branch_filter_text(query: &str) -> (r: &str)
    ensures
        r@ == filter_text(query@),
{
    let text = trim(query);
    let chars = chars_of(text);
    if chars.len() > 0 && chars[0] == '/' {
        let r = from_char(text, 1);
        assert(r@ =~= text@.drop_first());
        r
    } else {
        text
    }
}

/// The indices of the branches that the query leaves; all of them for an empty
/// filter.
pub fn filtered_branch_indices(branches: &[String], query: &str) -> (r: Vec<usize>)
    ensures
        r@ == staying(branches@, query@, branches@.len() as int),
{
    let filter = lower_chars(branch_filter_text(query));
    let mut out: Vec<usize> = Vec::new();
    let mut i: usize = 0;
    while i < branches.len()
        invariant
            i <= branches@.len(),
            filter@ == lower_ascii(filter_text(query@)),
            out@ == staying(branches@, query@, i as int),
        decreases branches@.len() - i,
    {
        if contains_chars(lower_chars(branches[i].as_str()).as_slice(), filter.as_slice()) {
            out.push(i);
        }
        i += 1;
    }
    out
}

/// What Enter does in the branch picker.
pub fn branch_picker_enter_command(
    branches: &[String],
    query: &str,
    selected_filtered_idx: usize,
) -> (r: Option<TuiCmd>)
    ensures
        match r {
            Some(cmd) => enter_command(branches@, query@, selected_filtered_idx as int) == Some(
                cmd@,
            ),
            None => enter_command(branches@, query@, selected_filtered_idx as int) is None,
        },
{
    let raw_query = trim(query);
    let branch_name = trim(branch_filter_text(raw_query));
    let filtered = filtered_branch_indices(branches, raw_query);
    let raw_chars = chars_of(raw_query);
    if raw_chars.len() > 0 && raw_chars[0] == '/' {
        if branch_name.is_empty() {
            return None;
        }
        return Some(TuiCmd::CreateBranch(branch_name.to_owned()));
    }
    if !branch_name.is_empty() {
        let mut i: usize = 0;
        while i < branches.len()
            invariant
                i <= branches@.len(),
                branch_name@.len() > 0,
                branch_name@ == trimmed(filter_text(trimmed(query@))),
                !(trimmed(query@).len() > 0 && trimmed(query@)[0] == '/'),
                first_named(branches@, branch_name@, 0) == first_named(
                    branches@,
                    branch_name@,
                    i as int,
                ),
            decreases branches@.len() - i,
        {
            if eq_ignore_case(branches[i].as_str(), branch_name) {
                return Some(TuiCmd::SwitchBranch(branches[i].clone()));
            }
            i += 1;
        }
    }
    let n: usize = branches.len();
    if selected_filtered_idx < filtered.len() {
        proof {
            assert(n == branches@.len());
            staying_in_range(branches@, raw_query@, branches@.len() as int);
            assert(filtered@[selected_filtered_idx as int] < branches@.len());
        }
        let idx: usize = filtered[selected_filtered_idx];
        Some(TuiCmd::SwitchBranch(branches[idx].clone()))
    } else {
        None
    }
}

// ---------------------------------------------------------------------------
// Laws
// ---------------------------------------------------------------------------

/// The listed indices are those of the branches that stay, in ascending order.
pub proof fn staying_in_range(branches: Seq<String>, query: Seq<char>, n: int)
    requires
        0 <= n <= branches.len() <= usize::MAX,
    ensures
        forall|i: usize|
            staying(branches, query, n).contains(i) <==> i < n && branch_stays(
                branches[i as int]@,
                query,
            ),
        forall|a: int|
            0 <= a < staying(branches, query, n).len() ==> (#[trigger] staying(
                branches,
                query,
                n,
            )[a]) < n,
        forall|a: int, b: int|
            0 <= a < b < staying(branches, query, n).len() ==> staying(branches, query, n)[a]
                < staying(branches, query, n)[b],
    decreases n,
{
    if n > 0 {
        staying_in_range(branches, query, n - 1);
        let before = staying(branches, query, n - 1);
        let all = staying(branches, query, n);
        assert forall|i: usize|
            all.contains(i) <==> i < n && branch_stays(branches[i as int]@, query) by {
            if all.contains(i) {
                let k = choose|k: int| 0 <= k < all.len() && all[k] == i;
                if k < before.len() {
                    assert(before[k] == i);
                    assert(before.contains(i));
                }
            }
            if i < n && branch_stays(branches[i as int]@, query) {
                if i == n - 1 {
                    assert(all.last() == i);
                } else {
                    assert(before.contains(i));
                    let k = choose|k: int| 0 <= k < before.len() && before[k] == i;
                    assert(all[k] == i);
                }
            }
        }
    }
}

/// An empty filter lists every branch.
pub proof fn empty_filter_lists_all(branches: Seq<String>, query: Seq<char>, n: int)
    requires
        0 <= n <= branches.len(),
        filter_text(query).len() == 0,
    ensures
        staying(branches, query, n) == Seq::new(n as nat, |i: int| i as usize),
    decreases n,
{
    if n > 0 {
        empty_filter_lists_all(branches, query, n - 1);
        let hay = lower_ascii(branches[n - 1]@);
        let needle = lower_ascii(filter_text(query));
        assert(hay.subrange(0, 0) =~= needle);
        assert(crate::text::occurs_at(hay, needle, 0));
        assert(staying(branches, query, n) =~= Seq::new(n as nat, |i: int| i as usize));
    } else {
        assert(staying(branches, query, n) =~= Seq::new(0, |i: int| i as usize));
    }
}

/// Enter switches only to a branch that there is, and creates one only where
/// the query begins with a slash.
pub proof fn enter_names_branches(branches: Seq<String>, query: Seq<char>, selected: int)
    requires
        0 <= selected,
        branches.len() <= usize::MAX,
    ensures
        match enter_command(branches, query, selected) {
            Some(TuiCmdView::SwitchBranch(name)) => exists|i: int|
                0 <= i < branches.len() && (#[trigger] branches[i])@ == name,
            Some(TuiCmdView::CreateBranch(name)) => trimmed(query).len() > 0 && trimmed(query)[0]
                == '/' && name.len() > 0,
            None => true,
        },
{
    let raw = trimmed(query);
    staying_in_range(branches, raw, branches.len() as int);
    first_named_in_range(branches, trimmed(filter_text(raw)), 0);
}

proof fn first_named_in_range(branches: Seq<String>, name: Seq<char>, from: int)
    ensures
        first_named(branches, name, from) matches Some(i) ==> 0 <= i < branches.len()
            && same_ignoring_case(branches[i]@, name),
    decreases branches.len() - from,
{
    if 0 <= from < branches.len() && !same_ignoring_case(branches[from]@, name) {
        first_named_in_range(branches, name, from + 1);
    }
}

/// Branches are filtered by the trimmed query, without the slash that it may
/// begin with.
pub proof fn one_slash_is_left_out(query: Seq<char>)
    ensures
        ({
            let text = trimmed(query);
            if text.len() > 0 && text[0] == '/' {
                text == seq!['/'] + filter_text(query)
            } else {
                text == filter_text(query)
            }
        }),
{
    let text = trimmed(query);
    if text.len() > 0 && text[0] == '/' {
        assert(text =~= seq!['/'] + text.drop_first());
    }
}

/// A branch is listed just where its name holds what is filtered by, case aside;
/// the list is in the order of the branches.
pub proof fn holding_branches_are_listed(branches: Seq<String>, query: Seq<char>)
    requires
        branches.len() <= usize::MAX,
    ensures
        ({
            let listed = staying(branches, query, branches.len() as int);
            &&& forall|i: usize|
                #[trigger] listed.contains(i) <==> i < branches.len() && contains_text(
                    lower_ascii(branches[i as int]@),
                    lower_ascii(filter_text(query)),
                )
            &&& forall|a: int, b: int| 0 <= a < b < listed.len() ==> listed[a] < listed[b]
        }),
{
    staying_in_range(branches, query, branches.len() as int);
}

/// Enter on a query that begins with a slash creates the branch that is named
/// behind the slash; without a name it does nothing.
pub proof fn enter_creates_behind_a_slash(branches: Seq<String>, query: Seq<char>, selected: int)
    requires
        trimmed(query).len() > 0,
        trimmed(query)[0] == '/',
    ensures
        ({
            let name = trimmed(trimmed(query).skip(1));
            enter_command(branches, query, selected) == if name.len() == 0 {
                None
            } else {
                Some(TuiCmdView::CreateBranch(name))
            }
        }),
{
    trimming_twice(query);
    assert(trimmed(query).drop_first() =~= trimmed(query).skip(1));
}

/// Enter on a query that is the name of a branch, case aside, switches to the
/// first branch of that name, whatever is selected.
pub proof fn enter_switches_by_name(
    branches: Seq<String>,
    query: Seq<char>,
    selected: int,
    i: int,
)
    requires
        trimmed(query).len() > 0,
        trimmed(query)[0] != '/',
        0 <= i < branches.len(),
        same_ignoring_case(branches[i]@, trimmed(query)),
        forall|j: int|
            0 <= j < i ==> !same_ignoring_case((#[trigger] branches[j])@, trimmed(query)),
    ensures
        enter_command(branches, query, selected) == Some(TuiCmdView::SwitchBranch(branches[i]@)),
{
    trimming_twice(query);
    first_named_at(branches, trimmed(query), 0, i);
}

/// Enter on a query that names no branch switches to the selected one of those
/// that are listed; there may be none.
pub proof fn enter_switches_by_selection(branches: Seq<String>, query: Seq<char>, selected: int)
    requires
        0 <= selected,
        trimmed(query).len() > 0 ==> trimmed(query)[0] != '/',
        trimmed(query).len() > 0 ==> forall|j: int|
            0 <= j < branches.len() ==> !same_ignoring_case(
                (#[trigger] branches[j])@,
                trimmed(query),
            ),
    ensures
        ({
            let listed = staying(branches, query, branches.len() as int);
            enter_command(branches, query, selected) == if selected < listed.len() {
                Some(TuiCmdView::SwitchBranch(branches[listed[selected] as int]@))
            } else {
                None
            }
        }),
{
    trimming_twice(query);
    first_named_in_range(branches, trimmed(query), 0);
    staying_by_text(branches, query, trimmed(query), branches.len() as int);
}

proof fn first_named_at(branches: Seq<String>, name: Seq<char>, from: int, i: int)
    requires
        0 <= from <= i < branches.len(),
        same_ignoring_case(branches[i]@, name),
        forall|j: int| from <= j < i ==> !same_ignoring_case((#[trigger] branches[j])@, name),
    ensures
        first_named(branches, name, from) == Some(i),
    decreases i - from,
{
    if from < i {
        assert(!same_ignoring_case(branches[from]@, name));
        first_named_at(branches, name, from + 1, i);
    }
}

proof fn staying_by_text(branches: Seq<String>, a: Seq<char>, b: Seq<char>, n: int)
    requires
        filter_text(a) == filter_text(b),
    ensures
        staying(branches, a, n) == staying(branches, b, n),
    decreases n,
{
    if n > 0 {
        staying_by_text(branches, a, b, n - 1);
    }
}

/// A command is seen with its whole name.
pub proof fn commands_are_seen_whole(name: String)
    ensures
        TuiCmd::CreateBranch(name)@ == TuiCmdView::CreateBranch(name@),
        TuiCmd::SwitchBranch(name)@ == TuiCmdView::SwitchBranch(name@),
{
}

} // verus!
