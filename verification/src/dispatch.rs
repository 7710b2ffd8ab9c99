use vstd::prelude::*;

use crate::models::{seq_view, ListItem, TaskView};
use crate::project::{filter_tasks, has_selection, render_rows, rows_of, selection_state,
    spec_filter, spec_selection, strs_view, UiState};
use crate::store::{contains_key, is_blank, spec_trim, unique_keys, Store};

verus! {

/// The five user-intent events the dispatch loop receives.
#[derive(Clone, Copy)]
pub enum Message {
    Create,
    Update,
    Delete,
    Select,
    Filter,
}

/// Everything one event's processing reads and writes: the store, the three
/// input widgets' values, the browser selection, and the derived view.
pub struct AppState {
    pub store: Store,
    pub description_input: String,
    pub filter_input: String,
    pub completed_input: bool,
    pub selected: usize,
    pub visible: Vec<ListItem>,
    pub rows: Vec<String>,
    pub ui: UiState,
}

/// What one step asks of its caller: the follow-up events to enqueue, in
/// order; whether the store changed and must be flushed; and whether an
/// update or delete targeted a task that no longer exists.
pub struct StepResult {
    pub emitted: Vec<Message>,
    pub persist: bool,
    pub lookup_miss: bool,
}

/// The key of the task the current selection names, if it names one.
pub open spec fn sel_key(visible: Seq<TaskView>, selected: int) -> Option<Seq<char>> {
    if has_selection(selected, visible.len() as int) {
        Some(visible[selected - 2].datetime)
    } else {
        None
    }
}

/// `s` with the completion flag of the task keyed `k` set to `v`.
pub open spec fn updated(s: Seq<TaskView>, k: Seq<char>, v: bool) -> Seq<TaskView> {
    Seq::new(
        s.len(),
        |j: int|
            if s[j].datetime == k {
                TaskView { completed: v, ..s[j] }
            } else {
                s[j]
            },
    )
}

/// The transition relation of the dispatch loop: how one event takes the
/// state `pre` to the state `post` and produces `r`, with `now` the
/// timestamp a created task is keyed by.
pub open spec fn step_spec(
    pre: AppState,
    post: AppState,
    msg: Message,
    now: Seq<char>,
    r: StepResult,
) -> bool {
    match msg {
        Message::Create => {
            let applied = !is_blank(pre.description_input@) && !contains_key(pre.store@, now);
            &&& post.store@ == if applied {
                seq![
                    TaskView {
                        completed: false,
                        description: spec_trim(pre.description_input@),
                        datetime: now,
                    },
                ] + pre.store@
            } else {
                pre.store@
            }
            &&& post.description_input@.len() == 0
            &&& post.filter_input == pre.filter_input
            &&& post.completed_input == pre.completed_input
            &&& post.selected == pre.selected
            &&& post.visible == pre.visible
            &&& post.rows == pre.rows
            &&& post.ui == pre.ui
            &&& r.persist == true
            &&& r.lookup_miss == false
            &&& r.emitted@ == seq![Message::Filter]
        },
        Message::Update => {
            &&& match sel_key(seq_view(pre.visible@), pre.selected as int) {
                Some(k) => {
                    let hit = contains_key(pre.store@, k);
                    &&& post.store@ == if hit {
                        updated(pre.store@, k, pre.completed_input)
                    } else {
                        pre.store@
                    }
                    &&& r.persist == hit
                    &&& r.lookup_miss == !hit
                },
                None => {
                    &&& post.store@ == pre.store@
                    &&& r.persist == false
                    &&& r.lookup_miss == true
                },
            }
            &&& post.description_input == pre.description_input
            &&& post.filter_input == pre.filter_input
            &&& post.completed_input == pre.completed_input
            &&& post.selected == pre.selected
            &&& post.visible == pre.visible
            &&& post.rows == pre.rows
            &&& post.ui == pre.ui
            &&& r.emitted@ == seq![Message::Filter]
        },
        Message::Delete => {
            &&& match sel_key(seq_view(pre.visible@), pre.selected as int) {
                Some(k) => {
                    let hit = contains_key(pre.store@, k);
                    &&& hit ==> exists|i: int|
                        0 <= i < pre.store@.len() && pre.store@[i].datetime == k && post.store@
                            == pre.store@.remove(i)
                    &&& !hit ==> post.store@ == pre.store@
                    &&& r.persist == hit
                    &&& r.lookup_miss == !hit
                },
                None => {
                    &&& post.store@ == pre.store@
                    &&& r.persist == false
                    &&& r.lookup_miss == true
                },
            }
            &&& post.description_input == pre.description_input
            &&& post.filter_input == pre.filter_input
            &&& post.completed_input == pre.completed_input
            &&& post.selected == pre.selected
            &&& post.visible == pre.visible
            &&& post.rows == pre.rows
            &&& post.ui == pre.ui
            &&& r.emitted@ == seq![Message::Filter, Message::Select]
        },
        Message::Select => {
            let ui = spec_selection(seq_view(pre.visible@), pre.selected as int);
            &&& post.ui@ == ui
            &&& post.description_input@ == ui.displayed_description
            &&& post.completed_input == ui.displayed_completed
            &&& post.store@ == pre.store@
            &&& post.filter_input == pre.filter_input
            &&& post.selected == pre.selected
            &&& post.visible == pre.visible
            &&& post.rows == pre.rows
            &&& r.emitted@.len() == 0
            &&& r.persist == false
            &&& r.lookup_miss == false
        },
        Message::Filter => {
            let vis = spec_filter(pre.store@, pre.filter_input@);
            &&& seq_view(post.visible@) == vis
            &&& strs_view(post.rows@) == rows_of(vis)
            &&& post.selected == 0
            &&& post.store@ == pre.store@
            &&& post.description_input == pre.description_input
            &&& post.filter_input == pre.filter_input
            &&& post.completed_input == pre.completed_input
            &&& post.ui == pre.ui
            &&& r.emitted@ == seq![Message::Select]
            &&& r.persist == false
            &&& r.lookup_miss == false
        },
    }
}

/// An ASCII decimal digit.
pub open spec fn is_digit_char(c: char) -> bool {
    let u = c as u32;
    48 <= u && u <= 57
}

/// The shape of a generated timestamp key: `DD-MM-YYYY • HH:MM:SS`.  Day,
/// month, hour, minute and second are two digits each; the year field in the
/// middle is at least four characters, and exactly four digits whenever the
/// whole string is 21 characters (years 0 through 9999, i.e. any realistic
/// clock).
pub open spec fn spec_datetime_shape(s: Seq<char>) -> bool {
    let n = s.len() as int;
    &&& n >= 21
    &&& is_digit_char(s[0]) && is_digit_char(s[1]) && s[2] == '-'
    &&& is_digit_char(s[3]) && is_digit_char(s[4]) && s[5] == '-'
    &&& (n == 21 ==> is_digit_char(s[6]) && is_digit_char(s[7]) && is_digit_char(s[8])
        && is_digit_char(s[9]))
    &&& s[n - 11] == ' ' && s[n - 10] == '•' && s[n - 9] == ' '
    &&& is_digit_char(s[n - 8]) && is_digit_char(s[n - 7]) && s[n - 6] == ':'
    &&& is_digit_char(s[n - 5]) && is_digit_char(s[n - 4]) && s[n - 3] == ':'
    &&& is_digit_char(s[n - 2]) && is_digit_char(s[n - 1])
}

/// Relies on chrono's `Local::now` and `DateTime::format` with the pattern
/// `%d-%m-%Y • %H:%M:%S`: the current local time as `DD-MM-YYYY • HH:MM:SS`.
/// Day, month, hour, minute and second are always two zero-padded digits,
/// and the year is four zero-padded digits for years 0 through 9999 (chrono
/// writes a year outside that range with a sign, making the string longer
/// than 21 characters), so the shape holds of every outcome.  Which time it
/// renders depends on the clock, and is not stated.
#[verifier::external_body]
fn get_datetime() -> (r: String)
    ensures
        spec_datetime_shape(r@),
{
    chrono::Local::now().format("%d-%m-%Y • %H:%M:%S").to_string()
}

impl AppState {
    /// The state's invariant: the store's keys are unique.
    pub open spec fn wf(&self) -> bool {
        self.store.wf()
    }

    /// The state at startup, over a freshly loaded task list; refused when
    /// the list's keys collide.  The view is empty until the startup
    /// `Filter` event populates it.
    pub fn new(tasks: Vec<ListItem>) -> (r: Option<AppState>)
        ensures
            r is Some <==> unique_keys(seq_view(tasks@)),
            r matches Some(s) ==> s.wf() && s.store@ == seq_view(tasks@)
                && s.description_input@.len() == 0 && s.filter_input@.len() == 0
                && s.completed_input == false && s.selected == 0 && s.visible@.len() == 0
                && s.rows@.len() == 0 && s.ui@ == spec_selection(Seq::empty(), 0),
    {
        match Store::from_tasks(tasks) {
            Some(store) => Some(
                AppState {
                    store,
                    description_input: String::new(),
                    filter_input: String::new(),
                    completed_input: false,
                    selected: 0,
                    visible: Vec::new(),
                    rows: Vec::new(),
                    ui: UiState {
                        editing_enabled: true,
                        update_enabled: false,
                        delete_enabled: false,
                        displayed_description: String::new(),
                        displayed_completed: false,
                    },
                },
            ),
            None => None,
        }
    }

    /// Processes one event against the state, with `now` the timestamp a
    /// `Create` keys its task by.  Returns the follow-up events to enqueue
    /// and whether the list must be flushed to storage.
    pub fn step_at(&mut self, msg: Message, now: &str) -> (r: StepResult)
        requires
            old(self).wf(),
        ensures
            final(self).wf(),
            step_spec(*old(self), *final(self), msg, now@, r),
    {
        match msg {
            Message::Create => {
                let description = self.description_input.clone();
                self.description_input = String::new();
                self.store.create(description, String::from_str(now));
                let mut emitted: Vec<Message> = Vec::new();
                emitted.push(Message::Filter);
                proof {
                    assert(emitted@ =~= seq![Message::Filter]);
                }
                StepResult { emitted, persist: true, lookup_miss: false }
            },
            Message::Update => {
                let mut persist = false;
                let mut lookup_miss = true;
                if self.selected >= 2 && self.selected - 2 < self.visible.len() {
                    let key = self.visible[self.selected - 2].datetime.clone();
                    let hit = self.store.update_completed(&key, self.completed_input);
                    persist = hit;
                    lookup_miss = !hit;
                    proof {
                        let k = sel_key(seq_view(self.visible@), self.selected as int)->0;
                        assert(key@ == k);
                        if hit {
                            assert(final(self).store@ =~= updated(
                                old(self).store@,
                                k,
                                self.completed_input,
                            ));
                        } else {
                            assert(final(self).store@ =~= old(self).store@);
                        }
                    }
                }
                let mut emitted: Vec<Message> = Vec::new();
                emitted.push(Message::Filter);
                proof {
                    assert(emitted@ =~= seq![Message::Filter]);
                }
                StepResult { emitted, persist, lookup_miss }
            },
            Message::Delete => {
                let mut persist = false;
                let mut lookup_miss = true;
                if self.selected >= 2 && self.selected - 2 < self.visible.len() {
                    let key = self.visible[self.selected - 2].datetime.clone();
                    let hit = self.store.delete(&key);
                    persist = hit;
                    lookup_miss = !hit;
                }
                let mut emitted: Vec<Message> = Vec::new();
                emitted.push(Message::Filter);
                emitted.push(Message::Select);
                proof {
                    assert(emitted@ =~= seq![Message::Filter, Message::Select]);
                }
                StepResult { emitted, persist, lookup_miss }
            },
            Message::Select => {
                let ui = selection_state(self.selected, &self.visible);
                self.description_input = ui.displayed_description.clone();
                self.completed_input = ui.displayed_completed;
                self.ui = ui;
                let emitted: Vec<Message> = Vec::new();
                StepResult { emitted, persist: false, lookup_miss: false }
            },
            Message::Filter => {
                self.visible = filter_tasks(&self.store.tasks, &self.filter_input);
                self.rows = render_rows(&self.visible);
                self.selected = 0;
                let mut emitted: Vec<Message> = Vec::new();
                emitted.push(Message::Select);
                proof {
                    assert(emitted@ =~= seq![Message::Select]);
                }
                StepResult { emitted, persist: false, lookup_miss: false }
            },
        }
    }

    /// Processes one event, keying a created task by the clock's current
    /// rendering.  Whatever the clock read, the step relation holds of it,
    /// and the key it read has the `DD-MM-YYYY • HH:MM:SS` shape.
    pub fn step(&mut self, msg: Message) -> (r: StepResult)
        requires
            old(self).wf(),
        ensures
            final(self).wf(),
            exists|now: Seq<char>|
                #[trigger] step_spec(*old(self), *final(self), msg, now, r)
                    && spec_datetime_shape(now),
            !(msg is Create) ==> step_spec(*old(self), *final(self), msg, Seq::empty(), r),
    {
        let now = get_datetime();
        let r = self.step_at(msg, now.as_str());
        proof {
            assert(step_spec(*old(self), *final(self), msg, now@, r) && spec_datetime_shape(
                now@,
            ));
        }
        r
    }
}

} // verus!
