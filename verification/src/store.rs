use vstd::prelude::*;

use crate::models::{seq_view, ListItem, TaskView};

verus! {

/// The Unicode White_Space characters: exactly the set that trimming a
/// description strips from its ends.
pub open spec fn is_space(c: char) -> bool {
    let u = c as u32;
    ||| (9 <= u && u <= 13)
    ||| u == 32
    ||| u == 0x85
    ||| u == 0xA0
    ||| u == 0x1680
    ||| (0x2000 <= u && u <= 0x200A)
    ||| u == 0x2028
    ||| u == 0x2029
    ||| u == 0x202F
    ||| u == 0x205F
    ||| u == 0x3000
}

/// A description is blank when every character is whitespace, so trimming it
/// leaves the empty string.  Blank descriptions are rejected by `create`.
pub open spec fn is_blank(s: Seq<char>) -> bool {
    forall|i: int| 0 <= i < s.len() ==> is_space(s[i])
}

fn is_space_char(c: char) -> (r: bool)
    ensures
        r == is_space(c),
{
    let u = c as u32;
    (9 <= u && u <= 13) || u == 32 || u == 0x85 || u == 0xA0 || u == 0x1680 || (0x2000 <= u && u
        <= 0x200A) || u == 0x2028 || u == 0x2029 || u == 0x202F || u == 0x205F || u == 0x3000
}

/// Whether the string consists of whitespace only (an empty string counts).
pub fn blank(s: &str) -> (r: bool)
    ensures
        r == is_blank(s@),
{
    let n = s.unicode_len();
    let mut i: usize = 0;
    while i < n
        invariant
            n == s@.len(),
            i <= n,
            forall|j: int| 0 <= j < i ==> is_space(s@[j]),
        decreases n - i,
    {
        let c = s.get_char(i);
        if !is_space_char(c) {
            return false;
        }
        i += 1;
    }
    true
}

/// The characters of `s` with the whitespace at both ends stripped: what a
/// created task stores as its description.
pub open spec fn spec_trim(s: Seq<char>) -> Seq<char>
    decreases s.len(),
{
    if s.len() == 0 {
        s
    } else if is_space(s[0]) {
        spec_trim(s.drop_first())
    } else if is_space(s.last()) {
        spec_trim(s.drop_last())
    } else {
        s
    }
}

proof fn lemma_trim_blank(s: Seq<char>)
    requires
        is_blank(s),
    ensures
        spec_trim(s).len() == 0,
    decreases s.len(),
{
    if s.len() > 0 {
        assert(is_space(s[0]));
        assert(forall|j: int| 0 <= j < s.drop_first().len() ==> s.drop_first()[j] == s[j + 1]);
        lemma_trim_blank(s.drop_first());
    }
}

proof fn lemma_blank_iff_trim_empty(s: Seq<char>)
    ensures
        is_blank(s) <==> spec_trim(s).len() == 0,
    decreases s.len(),
{
    if is_blank(s) {
        lemma_trim_blank(s);
    } else if s.len() > 0 && is_space(s[0]) {
        let t = s.drop_first();
        assert(forall|j: int| 0 <= j < t.len() ==> t[j] == s[j + 1]);
        assert(!is_blank(t)) by {
            let w = choose|i: int| 0 <= i < s.len() && !is_space(s[i]);
            assert(w != 0);
            assert(!is_space(t[w - 1]));
        }
        lemma_blank_iff_trim_empty(t);
    } else if s.len() > 0 && is_space(s.last()) {
        let t = s.drop_last();
        assert(forall|j: int| 0 <= j < t.len() ==> t[j] == s[j]);
        assert(!is_blank(t)) by {
            let w = choose|i: int| 0 <= i < s.len() && !is_space(s[i]);
            assert(w != s.len() - 1);
            assert(!is_space(t[w]));
        }
        lemma_blank_iff_trim_empty(t);
    }
}

proof fn lemma_trim_inner(s: Seq<char>, a: int, b: int)
    requires
        0 <= a < b <= s.len(),
        forall|j: int| 0 <= j < a ==> is_space(s[j]),
        forall|j: int| b <= j < s.len() ==> is_space(s[j]),
        !is_space(s[a]),
        !is_space(s[b - 1]),
    ensures
        spec_trim(s) == s.subrange(a, b),
    decreases s.len(),
{
    if a > 0 {
        assert(is_space(s[0]));
        let t = s.drop_first();
        assert(forall|j: int| 0 <= j < t.len() ==> t[j] == s[j + 1]);
        lemma_trim_inner(t, a - 1, b - 1);
        assert(t.subrange(a - 1, b - 1) =~= s.subrange(a, b));
    } else if b < s.len() {
        assert(is_space(s.last()));
        assert(!is_space(s[0]));
        let t = s.drop_last();
        assert(forall|j: int| 0 <= j < t.len() ==> t[j] == s[j]);
        lemma_trim_inner(t, a, b);
        assert(t.subrange(a, b) =~= s.subrange(a, b));
    } else {
        assert(!is_space(s[0]));
        assert(!is_space(s.last()));
        assert(s.subrange(0, s.len() as int) =~= s);
    }
}

fn first_non_space(s: &str) -> (r: usize)
    ensures
        r <= s@.len(),
        forall|j: int| 0 <= j < r ==> is_space(s@[j]),
        r < s@.len() ==> !is_space(s@[r as int]),
        r == s@.len() ==> is_blank(s@),
{
    let n = s.unicode_len();
    let mut i: usize = 0;
    while i < n
        invariant
            n == s@.len(),
            i <= n,
            forall|j: int| 0 <= j < i ==> is_space(s@[j]),
        decreases n - i,
    {
        if !is_space_char(s.get_char(i)) {
            return i;
        }
        i += 1;
    }
    n
}

fn last_non_space_end(s: &str) -> (r: usize)
    ensures
        r <= s@.len(),
        forall|j: int| r <= j < s@.len() ==> is_space(s@[j]),
        r > 0 ==> !is_space(s@[r - 1]),
{
    let n = s.unicode_len();
    let mut i: usize = n;
    while i > 0
        invariant
            n == s@.len(),
            i <= n,
            forall|j: int| i <= j < n ==> is_space(s@[j]),
        decreases i,
    {
        if !is_space_char(s.get_char(i - 1)) {
            return i;
        }
        i -= 1;
    }
    0
}

/// The string with the whitespace at both ends stripped.
pub fn trim(s: &str) -> (r: String)
    ensures
        r@ == spec_trim(s@),
{
    let a = first_non_space(s);
    let n = s.unicode_len();
    if a == n {
        proof {
            lemma_trim_blank(s@);
        }
        String::new()
    } else {
        let b = last_non_space_end(s);
        proof {
            if b <= a {
                assert(is_space(s@[a as int]));
            }
            lemma_trim_inner(s@, a as int, b as int);
        }
        String::from_str(s.substring_char(a, b))
    }
}

/// Some task in `s` carries the key `k`.
pub open spec fn contains_key(s: Seq<TaskView>, k: Seq<char>) -> bool {
    exists|i: int| 0 <= i < s.len() && s[i].datetime == k
}

/// No two tasks in `s` share a key.
pub open spec fn unique_keys(s: Seq<TaskView>) -> bool {
    forall|i: int, j: int| 0 <= i < j < s.len() ==> s[i].datetime != s[j].datetime
}

/// The in-memory ordered task list.  Tasks are keyed by their `datetime`
/// string; the store keeps those keys unique.
pub struct Store {
    pub tasks: Vec<ListItem>,
}

impl View for Store {
    type V = Seq<TaskView>;

    open spec fn view(&self) -> Seq<TaskView> {
        seq_view(self.tasks@)
    }
}

impl Store {
    /// The store's invariant: keys are unique.
    pub open spec fn wf(&self) -> bool {
        unique_keys(self@)
    }

    /// An empty store.
    pub fn empty() -> (r: Store)
        ensures
            r@ == Seq::<TaskView>::empty(),
            r.wf(),
    {
        let r = Store { tasks: Vec::new() };
        proof {
            assert(r@ =~= Seq::<TaskView>::empty());
        }
        r
    }

    /// Adopts a freshly loaded list; refuses one whose keys collide, so that
    /// the invariant holds from the start.
    pub fn from_tasks(tasks: Vec<ListItem>) -> (r: Option<Store>)
        ensures
            r is Some <==> unique_keys(seq_view(tasks@)),
            r matches Some(s) ==> s@ == seq_view(tasks@) && s.wf(),
    {
        let n = tasks.len();
        let mut i: usize = 0;
        while i < n
            invariant
                n == tasks@.len(),
                i <= n,
                forall|p: int, q: int| 0 <= p < q < i ==> seq_view(tasks@)[p].datetime != seq_view(
                    tasks@,
                )[q].datetime,
            decreases n - i,
        {
            let mut j: usize = 0;
            while j < i
                invariant
                    i < n,
                    n == tasks@.len(),
                    j <= i,
                    forall|p: int| 0 <= p < j ==> seq_view(tasks@)[p].datetime != seq_view(
                        tasks@,
                    )[i as int].datetime,
                decreases i - j,
            {
                if tasks[j].datetime == tasks[i].datetime {
                    proof {
                        assert(seq_view(tasks@)[j as int].datetime == seq_view(
                            tasks@,
                        )[i as int].datetime);
                        assert(!unique_keys(seq_view(tasks@)));
                    }
                    return None;
                }
                j += 1;
            }
            i += 1;
        }
        Some(Store { tasks })
    }

    /// The position of the task whose key is `key`, if any; scans front to
    /// back.
    pub fn find(&self, key: &String) -> (r: Option<usize>)
        ensures
            r matches Some(i) ==> i < self@.len() && self@[i as int].datetime == key@,
            r is None ==> !contains_key(self@, key@),
            r is Some <==> contains_key(self@, key@),
    {
        let n = self.tasks.len();
        let mut i: usize = 0;
        while i < n
            invariant
                n == self@.len(),
                i <= n,
                forall|j: int| 0 <= j < i ==> self@[j].datetime != key@,
            decreases n - i,
        {
            if self.tasks[i].datetime == *key {
                proof {
                    assert(self@[i as int].datetime == key@);
                }
                return Some(i);
            }
            i += 1;
        }
        None
    }

    /// Creates a task: trims the description and prepends
    /// `{ completed: false, description: trimmed, datetime }`, unless the
    /// trimmed description is empty (blank tasks are rejected) or the key is
    /// already taken (which would break the uniqueness invariant).  Returns
    /// whether the list changed.
    pub fn create(&mut self, description: String, datetime: String) -> (r: bool)
        requires
            old(self).wf(),
        ensures
            final(self).wf(),
            r <==> (!is_blank(description@) && !contains_key(old(self)@, datetime@)),
            r ==> final(self)@ == seq![
                TaskView {
                    completed: false,
                    description: spec_trim(description@),
                    datetime: datetime@,
                },
            ] + old(self)@,
            !r ==> final(self)@ == old(self)@,
    {
        proof {
            lemma_blank_iff_trim_empty(description@);
        }
        let trimmed = trim(description.as_str());
        if trimmed.as_str().is_empty() {
            return false;
        }
        if self.find(&datetime).is_some() {
            return false;
        }
        let item = ListItem { completed: false, description: trimmed, datetime };
        let ghost pre = self@;
        self.tasks.insert(0, item);
        proof {
            assert(self@ =~= seq![item@] + pre);
            assert forall|p: int, q: int| 0 <= p < q < self@.len() implies self@[p].datetime
                != self@[q].datetime by {
                if p > 0 {
                    assert(pre[p - 1].datetime != pre[q - 1].datetime);
                }
            }
        }
        true
    }

    /// Sets the completion flag of the task whose key is `key`; every other
    /// task keeps its value.  Returns false, changing nothing, when no task
    /// has that key.
    pub fn update_completed(&mut self, key: &String, value: bool) -> (r: bool)
        requires
            old(self).wf(),
        ensures
            final(self).wf(),
            r <==> contains_key(old(self)@, key@),
            final(self)@.len() == old(self)@.len(),
            forall|j: int|
                0 <= j < old(self)@.len() ==> final(self)@[j] == (if old(
                    self,
                )@[j].datetime == key@ {
                    TaskView { completed: value, ..old(self)@[j] }
                } else {
                    old(self)@[j]
                }),
    {
        match self.find(key) {
            Some(i) => {
                self.tasks[i].completed = value;
                proof {
                    assert forall|j: int| 0 <= j < old(self)@.len() implies final(self)@[j] == (if old(
                        self,
                    )@[j].datetime == key@ {
                        TaskView { completed: value, ..old(self)@[j] }
                    } else {
                        old(self)@[j]
                    }) by {
                        if j != i {
                            assert(old(self)@[j] == final(self)@[j]);
                            if old(self)@[j].datetime == key@ {
                                // two distinct positions would share the key
                                assert(old(self)@[i as int].datetime == key@);
                                assert(false);
                            }
                        } else {
                            assert(final(self)@[j] =~= TaskView {
                                completed: value,
                                ..old(self)@[j]
                            });
                        }
                    }
                }
                true
            },
            None => false,
        }
    }

    /// Removes the task whose key is `key`, leaving the order of the rest;
    /// returns false, changing nothing, when no task has that key.
    pub fn delete(&mut self, key: &String) -> (r: bool)
        requires
            old(self).wf(),
        ensures
            final(self).wf(),
            r <==> contains_key(old(self)@, key@),
            !r ==> final(self)@ == old(self)@,
            r ==> exists|i: int|
                0 <= i < old(self)@.len() && old(self)@[i].datetime == key@ && final(self)@ == old(
                    self,
                )@.remove(i),
    {
        match self.find(key) {
            Some(i) => {
                self.tasks.remove(i);
                proof {
                    assert(self@ =~= old(self)@.remove(i as int));
                    assert forall|p: int, q: int| 0 <= p < q < self@.len() implies self@[p].datetime
                        != self@[q].datetime by {
                        let pp = if p < i { p } else { p + 1 };
                        let qq = if q < i { q } else { q + 1 };
                        assert(old(self)@[pp].datetime != old(self)@[qq].datetime);
                    }
                }
                true
            },
            None => false,
        }
    }
}

} // verus!
