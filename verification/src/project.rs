use vstd::prelude::*;

use crate::models::{seq_view, ListItem, TaskView};

verus! {

/// What `str::to_lowercase` returns for a string with these characters: the
/// result depends on the characters alone.
pub uninterp spec fn lower_of(s: Seq<char>) -> Seq<char>;

/// Relies on `str::to_lowercase`: the result is a function of the characters
/// alone, and the empty string stays empty.
#[verifier::external_body]
fn lowercase(s: &str) -> (r: String)
    ensures
        r@ == lower_of(s@),
        s@.len() == 0 ==> r@.len() == 0,
{
    s.to_lowercase()
}

/// Whether `p`'s characters are a prefix of `s`'s.
fn starts_with(s: &str, p: &str) -> (r: bool)
    ensures
        r == p@.is_prefix_of(s@),
{
    let n = s.unicode_len();
    let m = p.unicode_len();
    if m > n {
        return false;
    }
    let mut i: usize = 0;
    while i < m
        invariant
            n == s@.len(),
            m == p@.len(),
            m <= n,
            i <= m,
            forall|j: int| 0 <= j < i ==> p@[j] == s@[j],
        decreases m - i,
    {
        if s.get_char(i) != p.get_char(i) {
            proof {
                assert(!p@.is_prefix_of(s@)) by {
                    if p@.is_prefix_of(s@) {
                        assert(p@[i as int] == s@.subrange(0, m as int)[i as int]);
                    }
                }
            }
            return false;
        }
        i += 1;
    }
    proof {
        assert(p@ =~= s@.subrange(0, m as int));
    }
    true
}

/// Whether a task description passes the filter: the empty prefix passes
/// everything, and otherwise matching is case-insensitive on the prefix.
pub open spec fn matches_prefix(description: Seq<char>, prefix: Seq<char>) -> bool {
    prefix.len() == 0 || lower_of(prefix).is_prefix_of(lower_of(description))
}

/// The subsequence of `l` whose descriptions pass the filter, in order.
pub open spec fn spec_filter(l: Seq<TaskView>, prefix: Seq<char>) -> Seq<TaskView>
    decreases l.len(),
{
    if l.len() == 0 {
        Seq::empty()
    } else {
        let rest = spec_filter(l.drop_last(), prefix);
        if matches_prefix(l.last().description, prefix) {
            rest.push(l.last())
        } else {
            rest
        }
    }
}

/// Filtering with an empty prefix keeps every task, unchanged and in order.
pub proof fn lemma_filter_empty_prefix(l: Seq<TaskView>, prefix: Seq<char>)
    requires
        prefix.len() == 0,
    ensures
        spec_filter(l, prefix) == l,
    decreases l.len(),
{
    if l.len() == 0 {
        assert(spec_filter(l, prefix) =~= l);
    } else {
        lemma_filter_empty_prefix(l.drop_last(), prefix);
        assert(spec_filter(l, prefix) =~= l);
    }
}

/// The tasks whose descriptions start, case-insensitively, with `prefix`;
/// an empty prefix keeps all of them.  Order is preserved.
pub fn filter_tasks(tasks: &Vec<ListItem>, prefix: &String) -> (r: Vec<ListItem>)
    ensures
        seq_view(r@) == spec_filter(seq_view(tasks@), prefix@),
{
    let ghost l = seq_view(tasks@);
    let lowered = lowercase(prefix.as_str());
    let n = tasks.len();
    let mut r: Vec<ListItem> = Vec::new();
    let mut i: usize = 0;
    while i < n
        invariant
            n == tasks@.len(),
            i <= n,
            l == seq_view(tasks@),
            lowered@ == lower_of(prefix@),
            prefix@.len() == 0 ==> lowered@.len() == 0,
            seq_view(r@) == spec_filter(l.take(i as int), prefix@),
        decreases n - i,
    {
        let t = &tasks[i];
        let d = lowercase(t.description.as_str());
        let m = starts_with(d.as_str(), lowered.as_str());
        proof {
            assert(l.take(i + 1).drop_last() =~= l.take(i as int));
            assert(l.take(i + 1).last() == l[i as int]);
            assert(l[i as int] == tasks@[i as int]@);
            assert(m == matches_prefix(l[i as int].description, prefix@));
        }
        if m {
            let ghost pre = seq_view(r@);
            r.push(t.duplicate());
            proof {
                assert(seq_view(r@) =~= pre.push(l[i as int]));
            }
        }
        i += 1;
    }
    proof {
        assert(l.take(n as int) =~= l);
    }
    r
}

/// The enable/disable state and displayed fields that the selection implies.
pub struct UiState {
    pub editing_enabled: bool,
    pub update_enabled: bool,
    pub delete_enabled: bool,
    pub displayed_description: String,
    pub displayed_completed: bool,
}

/// The mathematical value of a `UiState`.
#[verifier::ext_equal]
pub struct UiView {
    pub editing_enabled: bool,
    pub update_enabled: bool,
    pub delete_enabled: bool,
    pub displayed_description: Seq<char>,
    pub displayed_completed: bool,
}

impl View for UiState {
    type V = UiView;

    open spec fn view(&self) -> UiView {
        UiView {
            editing_enabled: self.editing_enabled,
            update_enabled: self.update_enabled,
            delete_enabled: self.delete_enabled,
            displayed_description: self.displayed_description@,
            displayed_completed: self.displayed_completed,
        }
    }
}

/// Whether a browser position names a task among the `n` visible ones.
/// Position 0 means no selection and position 1 is the header row, so the
/// task at visible index `i` sits at position `i + 2`.
pub open spec fn has_selection(selected: int, n: int) -> bool {
    2 <= selected && selected - 2 < n
}

/// The UI state a selection implies.  With no task selected the description
/// box is free for typing a new task and update/delete are off; with a task
/// selected its fields are displayed read-only and update/delete are on.
pub open spec fn spec_selection(visible: Seq<TaskView>, selected: int) -> UiView {
    if has_selection(selected, visible.len() as int) {
        let t = visible[selected - 2];
        UiView {
            editing_enabled: false,
            update_enabled: true,
            delete_enabled: true,
            displayed_description: t.description,
            displayed_completed: t.completed,
        }
    } else {
        UiView {
            editing_enabled: true,
            update_enabled: false,
            delete_enabled: false,
            displayed_description: Seq::empty(),
            displayed_completed: false,
        }
    }
}

/// Computes the UI state for the current selection over the visible tasks.
pub fn selection_state(selected: usize, visible: &Vec<ListItem>) -> (r: UiState)
    ensures
        r@ == spec_selection(seq_view(visible@), selected as int),
{
    if selected >= 2 && selected - 2 < visible.len() {
        let t = &visible[selected - 2];
        let r = UiState {
            editing_enabled: false,
            update_enabled: true,
            delete_enabled: true,
            displayed_description: t.description.clone(),
            displayed_completed: t.completed,
        };
        proof {
            assert(r@ =~= spec_selection(seq_view(visible@), selected as int));
        }
        r
    } else {
        let r = UiState {
            editing_enabled: true,
            update_enabled: false,
            delete_enabled: false,
            displayed_description: String::new(),
            displayed_completed: false,
        };
        proof {
            assert(r@ =~= spec_selection(seq_view(visible@), selected as int));
        }
        r
    }
}

/// The completion glyph a row ends with.
pub open spec fn glyph(completed: bool) -> Seq<char> {
    if completed {
        "✅"@
    } else {
        "❌"@
    }
}

/// One displayed row: description, datetime and glyph, tab-separated.
pub open spec fn row_of(t: TaskView) -> Seq<char> {
    t.description + "\t"@ + t.datetime + "\t"@ + glyph(t.completed)
}

/// The fixed header row above the tasks.
pub open spec fn header() -> Seq<char> {
    "@C221DESCRIPTION\t@C221DATETIME\t@C221COMPLETED"@
}

/// The whole displayed listing: the header, then one row per visible task.
pub open spec fn rows_of(visible: Seq<TaskView>) -> Seq<Seq<char>> {
    seq![header()] + visible.map_values(|t: TaskView| row_of(t))
}

/// The character sequences of a list of strings.
pub open spec fn strs_view(s: Seq<String>) -> Seq<Seq<char>> {
    s.map_values(|x: String| x@)
}

fn render_row(t: &ListItem) -> (r: String)
    ensures
        r@ == row_of(t@),
{
    let mut s = String::new();
    s.append(t.description.as_str());
    s.append("\t");
    s.append(t.datetime.as_str());
    s.append("\t");
    if t.completed {
        s.append("✅");
    } else {
        s.append("❌");
    }
    proof {
        assert(s@ =~= row_of(t@));
    }
    s
}

/// Builds the displayed rows for the visible tasks: the fixed header first,
/// then each task rendered in order.
pub fn render_rows(visible: &Vec<ListItem>) -> (r: Vec<String>)
    ensures
        strs_view(r@) == rows_of(seq_view(visible@)),
{
    let ghost l = seq_view(visible@);
    let mut r: Vec<String> = Vec::new();
    let mut h = String::new();
    h.append("@C221DESCRIPTION\t@C221DATETIME\t@C221COMPLETED");
    r.push(h);
    let n = visible.len();
    let mut i: usize = 0;
    while i < n
        invariant
            n == visible@.len(),
            i <= n,
            l == seq_view(visible@),
            strs_view(r@) == seq![header()] + l.take(i as int).map_values(
                |t: TaskView| row_of(t),
            ),
        decreases n - i,
    {
        let ghost pre = strs_view(r@);
        r.push(render_row(&visible[i]));
        proof {
            assert(strs_view(r@) =~= pre.push(row_of(l[i as int])));
            assert(l.take(i + 1).map_values(|t: TaskView| row_of(t)) =~= l.take(
                i as int,
            ).map_values(|t: TaskView| row_of(t)).push(row_of(l[i as int])));
            assert(strs_view(r@) =~= seq![header()] + l.take(i + 1).map_values(
                |t: TaskView| row_of(t),
            ));
        }
        i += 1;
    }
    proof {
        assert(l.take(n as int) =~= l);
    }
    r
}

} // verus!
