//! The list of tasks and the operations that commands perform on it.
use crate::item::TodoItem;
use crate::stamp::Stamp;
use vstd::prelude::*;

verus! {

/// Every element of `s` is smaller than the next.
pub open spec fn strictly_ascending(s: Seq<usize>) -> bool {
    forall|i: int, j: int| 0 <= i < j < s.len() ==> s[i] < s[j]
}

/// Every element of `s` is larger than the next.
pub open spec fn strictly_descending(s: Seq<usize>) -> bool {
    forall|i: int, j: int| 0 <= i < j < s.len() ==> s[i] > s[j]
}

/// The positions that the indexes `v` name.
pub open spec fn targets(v: Seq<usize>) -> Set<int> {
    Set::new(|i: int| exists|k: int| 0 <= k < v.len() && v[k] as int == i)
}

/// `s` without the elements at the positions in `del`, the rest in order.
pub open spec fn keep_except<T>(s: Seq<T>, del: Set<int>) -> Seq<T>
    decreases s.len(),
{
    if s.len() == 0 {
        seq![]
    } else {
        let prev = keep_except(s.drop_last(), del);
        if del.contains(s.len() - 1) {
            prev
        } else {
            prev.push(s.last())
        }
    }
}

/// The positions, ascending, of the tasks whose completion flag is `done`.
pub open spec fn positions_where(s: Seq<TodoItem>, done: bool) -> Seq<usize>
    decreases s.len(),
{
    if s.len() == 0 {
        seq![]
    } else {
        let prev = positions_where(s.drop_last(), done);
        if s.last().complete == done {
            prev.push((s.len() - 1) as usize)
        } else {
            prev
        }
    }
}

/// The indexes of a completion report, in its order.
pub open spec fn completion_order(r: Seq<(usize, bool)>) -> Seq<usize> {
    r.map_values(|p: (usize, bool)| p.0)
}

/// The indexes of a deletion report, in its order.
pub open spec fn removal_order(r: Seq<(usize, Option<TodoItem>)>) -> Seq<usize> {
    r.map_values(|p: (usize, Option<TodoItem>)| p.0)
}

/// `t` marked complete at `now`.
pub open spec fn completed(t: TodoItem, now: Stamp) -> TodoItem {
    TodoItem { complete: true, complete_date: Some(now), ..t }
}

/// `t` marked incomplete.
pub open spec fn reopened(t: TodoItem) -> TodoItem {
    TodoItem { complete: false, complete_date: None, ..t }
}

/// `t` after an edit: new text if given; the interval cleared, or replaced
/// if a new one is given.
pub open spec fn edited(t: TodoItem, text: Option<String>, repeat: Option<i64>, clear_repeat: bool) -> TodoItem {
    TodoItem {
        text: match text {
            Some(x) => x,
            None => t.text,
        },
        repeat_days: if clear_repeat {
            None
        } else if repeat is Some {
            repeat
        } else {
            t.repeat_days
        },
        ..t
    }
}

proof fn lemma_keep_len(s: Seq<TodoItem>, del: Set<int>)
    ensures
        keep_except(s, del).len() <= s.len(),
    decreases s.len(),
{
    if s.len() > 0 {
        lemma_keep_len(s.drop_last(), del);
    }
}

/// Positions beyond the sequence change nothing.
proof fn lemma_keep_all(s: Seq<TodoItem>, del: Set<int>)
    requires
        forall|x: int| del.contains(x) ==> x >= s.len(),
    ensures
        keep_except(s, del) == s,
    decreases s.len(),
{
    if s.len() > 0 {
        lemma_keep_all(s.drop_last(), del);
        assert(s.drop_last().push(s.last()) == s);
    }
}

/// Removing only positions above `j` leaves `s[0..=j]` in place.
proof fn lemma_keep_prefix(s: Seq<TodoItem>, del: Set<int>, j: int)
    requires
        0 <= j < s.len(),
        forall|x: int| del.contains(x) ==> x > j,
    ensures
        keep_except(s, del).len() > j,
        keep_except(s, del).subrange(0, j + 1) == s.subrange(0, j + 1),
    decreases s.len(),
{
    let s2 = s.drop_last();
    if j == s.len() - 1 {
        lemma_keep_all(s2, del);
        assert(s2.push(s.last()) == s);
        assert(s.subrange(0, j + 1) == s);
    } else {
        lemma_keep_prefix(s2, del, j);
        let prev = keep_except(s2, del);
        if !del.contains(s.len() - 1) {
            assert(prev.push(s.last()).subrange(0, j + 1) == prev.subrange(0, j + 1));
        }
        assert(s2.subrange(0, j + 1) == s.subrange(0, j + 1));
    }
}

/// With every other removed position above `j`, removing `j` as well is
/// removing the element at `j` of what is left.
proof fn lemma_keep_remove(s: Seq<TodoItem>, del: Set<int>, j: int)
    requires
        0 <= j < s.len(),
        forall|x: int| del.contains(x) ==> x > j,
    ensures
        keep_except(s, del.insert(j)) == keep_except(s, del).remove(j),
    decreases s.len(),
{
    let s2 = s.drop_last();
    if j == s.len() - 1 {
        lemma_keep_all(s2, del);
        lemma_keep_all(s2, del.insert(j));
        assert(s2.push(s.last()).remove(j) == s2);
    } else {
        lemma_keep_remove(s2, del, j);
        lemma_keep_prefix(s2, del, j);
        let prev = keep_except(s2, del);
        if !del.contains(s.len() - 1) {
            assert(prev.remove(j).push(s.last()) == prev.push(s.last()).remove(j));
        }
    }
}

/// What is kept of well-formed tasks is well formed.
proof fn lemma_keep_wf(s: Seq<TodoItem>, del: Set<int>)
    requires
        forall|i: int| 0 <= i < s.len() ==> (#[trigger] s[i]).wf(),
    ensures
        forall|i: int| 0 <= i < keep_except(s, del).len() ==> (#[trigger] keep_except(s, del)[i]).wf(),
    decreases s.len(),
{
    if s.len() > 0 {
        let s2 = s.drop_last();
        assert forall|i: int| 0 <= i < s2.len() implies (#[trigger] s2[i]).wf() by {
            assert(s2[i] == s[i]);
        }
        lemma_keep_wf(s2, del);
        let prev = keep_except(s2, del);
        assert(s[s.len() - 1].wf());
        if !del.contains(s.len() - 1) {
            assert forall|i: int| 0 <= i < prev.len() + 1 implies (#[trigger] prev.push(s.last())[i]).wf() by {
                if i < prev.len() {
                    assert(prev.push(s.last())[i] == prev[i]);
                }
            }
        }
    }
}

/// One more index of `s` adds its value to the positions named.
proof fn lemma_targets_step(s: Seq<usize>, k: int)
    requires
        0 <= k < s.len(),
    ensures
        targets(s.subrange(0, k + 1)) == targets(s.subrange(0, k)).insert(s[k] as int),
{
    let a = s.subrange(0, k);
    let b = s.subrange(0, k + 1);
    assert forall|i: int| targets(b).contains(i) <==> targets(a).insert(s[k] as int).contains(i) by {
        if targets(b).contains(i) {
            let q = choose|q: int| 0 <= q < b.len() && b[q] as int == i;
            if q < k {
                assert(a[q] as int == i);
            }
        }
        if targets(a).contains(i) {
            let q = choose|q: int| 0 <= q < a.len() && a[q] as int == i;
            assert(b[q] as int == i);
        }
        if i == s[k] as int {
            assert(b[k] as int == i);
        }
    }
}

/// Sequences with the same values name the same positions.
proof fn lemma_targets_same(v: Seq<usize>, w: Seq<usize>)
    requires
        forall|x: usize| w.contains(x) <==> v.contains(x),
    ensures
        targets(v) == targets(w),
{
    assert forall|i: int| targets(v).contains(i) <==> targets(w).contains(i) by {
        if targets(v).contains(i) {
            let q = choose|q: int| 0 <= q < v.len() && v[q] as int == i;
            assert(v.contains(v[q]));
        }
        if targets(w).contains(i) {
            let q = choose|q: int| 0 <= q < w.len() && w[q] as int == i;
            assert(w.contains(w[q]));
        }
    }
}

/// A position past the end removes nothing.
proof fn lemma_keep_ignore(s: Seq<TodoItem>, del: Set<int>, j: int)
    requires
        j >= s.len(),
    ensures
        keep_except(s, del.insert(j)) == keep_except(s, del),
    decreases s.len(),
{
    if s.len() > 0 {
        lemma_keep_ignore(s.drop_last(), del, j);
    }
}

/// The distinct values of `v` in ascending order.
pub fn ascending_unique(v: &Vec<usize>) -> (r: Vec<usize>)
    ensures
        strictly_ascending(r@),
        forall|x: usize| r@.contains(x) <==> v@.contains(x),
{
    let mut r: Vec<usize> = Vec::new();
    let mut j: usize = 0;
    while j < v.len()
        invariant
            j <= v.len(),
            strictly_ascending(r@),
            forall|x: usize| r@.contains(x) <==> v@.subrange(0, j as int).contains(x),
        decreases v.len() - j,
    {
        let x = v[j];
        let mut p: usize = 0;
        while p < r.len() && r[p] < x
            invariant
                p <= r.len(),
                forall|q: int| 0 <= q < p ==> r@[q] < x,
            decreases r.len() - p,
        {
            p += 1;
        }
        let ghost before = r@;
        assert(v@.subrange(0, j + 1) == v@.subrange(0, j as int).push(x));
        assert forall|y: usize|
            v@.subrange(0, j + 1).contains(y) <==> (v@.subrange(0, j as int).contains(y) || y == x) by {
            let (a, b) = (v@.subrange(0, j as int), v@.subrange(0, j + 1));
            if b.contains(y) {
                let k = choose|k: int| 0 <= k < b.len() && b[k] == y;
                if k < j {
                    assert(a[k] == y);
                }
            }
            if a.contains(y) {
                let k = choose|k: int| 0 <= k < a.len() && a[k] == y;
                assert(b[k] == y);
            }
            if y == x {
                assert(b[j as int] == y);
            }
        }
        if p < r.len() && r[p] == x {
            assert(before[p as int] == x);
            assert(before.contains(x));
            assert(r@ == before);
        } else {
            r.insert(p, x);
            assert forall|y: usize| r@.contains(y) <==> (before.contains(y) || y == x) by {
                if r@.contains(y) {
                    let k = choose|k: int| 0 <= k < r@.len() && r@[k] == y;
                    if k < p {
                        assert(before[k] == y);
                    } else if k > p {
                        assert(before[k - 1] == y);
                    }
                }
                if before.contains(y) {
                    let k = choose|k: int| 0 <= k < before.len() && before[k] == y;
                    if k < p {
                        assert(r@[k] == y);
                    } else {
                        assert(r@[k + 1] == y);
                    }
                }
                if y == x {
                    assert(r@[p as int] == y);
                }
            }
        }
        assert forall|y: usize| r@.contains(y) <==> v@.subrange(0, j + 1).contains(y) by {
            assert(before.contains(y) <==> v@.subrange(0, j as int).contains(y));
        }
        j += 1;
    }
    assert(v@.subrange(0, j as int) == v@);
    r
}

/// The distinct values of `v` in descending order.
pub fn descending_unique(v: &Vec<usize>) -> (r: Vec<usize>)
    ensures
        strictly_descending(r@),
        forall|x: usize| r@.contains(x) <==> v@.contains(x),
{
    let up = ascending_unique(v);
    let mut r: Vec<usize> = Vec::new();
    let mut k: usize = up.len();
    while k > 0
        invariant
            k <= up.len(),
            r@.len() == up.len() - k,
            forall|i: int| 0 <= i < r@.len() ==> r@[i] == up@[up.len() - 1 - i],
        decreases k,
    {
        k -= 1;
        r.push(up[k]);
    }
    assert forall|x: usize| r@.contains(x) <==> up@.contains(x) by {
        if r@.contains(x) {
            let i = choose|i: int| 0 <= i < r@.len() && r@[i] == x;
            assert(up@[up.len() - 1 - i] == x);
        }
        if up@.contains(x) {
            let i = choose|i: int| 0 <= i < up@.len() && up@[i] == x;
            assert(r@[up.len() - 1 - i] == x);
        }
    }
    r
}

/// The tasks, in the order they are shown and addressed by index.
#[derive(Debug)]
pub struct TodoList {
    pub items: Vec<TodoItem>,
}

impl Default for TodoList {
    fn default() -> (r: Self)
        ensures
            r.items@.len() == 0,
            r.wf(),
    {
        TodoList { items: Vec::new() }
    }
}

impl TodoList {
    /// Every task's completion stamp is in range.
    pub open spec fn wf(&self) -> bool {
        forall|i: int| 0 <= i < self.items@.len() ==> (#[trigger] self.items@[i]).wf()
    }

    /// Appends a fresh, incomplete task.
    pub fn add(&mut self, text: String, repeat_days: Option<i64>)
        ensures
            final(self).items@.len() == old(self).items@.len() + 1,
            final(self).items@.drop_last() == old(self).items@,
            final(self).items@.last().text == text,
            !final(self).items@.last().complete,
            final(self).items@.last().complete_date is None,
            final(self).items@.last().repeat_days == repeat_days,
            old(self).wf() ==> final(self).wf(),
    {
        self.items.push(TodoItem::new(text, repeat_days));
        assert(self.items@.drop_last() == old(self).items@);
    }

    /// Runs the automatic reset over every task.
    pub fn auto_reset_repeating(&mut self, now: Stamp)
        requires
            old(self).wf(),
            now.wf(),
        ensures
            final(self).wf(),
            final(self).items@.len() == old(self).items@.len(),
            forall|i: int|
                0 <= i < old(self).items@.len() ==> old(self).items@[i].reset_outcome(
                    #[trigger] final(self).items@[i],
                    now,
                ),
    {
        let mut i: usize = 0;
        while i < self.items.len()
            invariant
                now.wf(),
                i <= self.items@.len(),
                self.items@.len() == old(self).items@.len(),
                forall|k: int| i <= k < self.items@.len() ==> self.items@[k] == old(self).items@[k],
                forall|k: int| 0 <= k < self.items@.len() ==> (#[trigger] self.items@[k]).wf(),
                forall|k: int|
                    0 <= k < i ==> old(self).items@[k].reset_outcome(#[trigger] self.items@[k], now),
            decreases self.items@.len() - i,
        {
            assert(self.items@[i as int].wf());
            let ghost before = self.items@;
            self.items[i].reset_if_due(now);
            assert(forall|k: int| 0 <= k < before.len() && k != i ==> self.items@[k] == before[k]);
            assert(old(self).items@[i as int].reset_outcome(self.items@[i as int], now));
            i += 1;
        }
    }

    /// Positions, ascending, of the tasks whose completion flag is `done`.
    pub fn positions(&self, done: bool) -> (r: Vec<usize>)
        ensures
            r@ == positions_where(self.items@, done),
    {
        let mut r: Vec<usize> = Vec::new();
        let mut i: usize = 0;
        while i < self.items.len()
            invariant
                i <= self.items@.len(),
                r@ == positions_where(self.items@.subrange(0, i as int), done),
            decreases self.items@.len() - i,
        {
            assert(self.items@.subrange(0, i + 1).drop_last() == self.items@.subrange(0, i as int));
            if self.items[i].complete == done {
                r.push(i);
            }
            i += 1;
        }
        assert(self.items@.subrange(0, i as int) == self.items@);
        r
    }

    /// Marks the task at `index` incomplete; false, with nothing changed,
    /// when there is no such task.
    pub fn undo_at(&mut self, index: usize) -> (r: bool)
        ensures
            r == (index < old(self).items@.len()),
            r ==> final(self).items@ == old(self).items@.update(index as int, reopened(old(self).items@[index as int])),
            !r ==> final(self).items@ == old(self).items@,
            old(self).wf() ==> final(self).wf(),
    {
        if index < self.items.len() {
            self.items[index].mark_incomplete();
            assert(self.items@ =~= old(self).items@.update(index as int, reopened(old(self).items@[index as int])));
            true
        } else {
            false
        }
    }

    /// Edits the task at `index` (see `edited`); false, with nothing
    /// changed, when there is no such task.
    pub fn edit_at(&mut self, index: usize, text: Option<String>, repeat: Option<i64>, clear_repeat: bool) -> (r: bool)
        ensures
            r == (index < old(self).items@.len()),
            r ==> final(self).items@ == old(self).items@.update(
                index as int,
                edited(old(self).items@[index as int], text, repeat, clear_repeat),
            ),
            !r ==> final(self).items@ == old(self).items@,
            old(self).wf() ==> final(self).wf(),
    {
        if index < self.items.len() {
            match text {
                Some(t) => {
                    self.items[index].text = t;
                },
                None => {},
            }
            if clear_repeat {
                self.items[index].repeat_days = None;
            } else if repeat.is_some() {
                self.items[index].repeat_days = repeat;
            }
            assert(self.items@ =~= old(self).items@.update(
                index as int,
                edited(old(self).items@[index as int], text, repeat, clear_repeat),
            ));
            true
        } else {
            false
        }
    }

    /// Marks complete at `now` every task whose position is among
    /// `indexes`. Returns each distinct index, ascending, with whether a
    /// task stood there.
    pub fn complete_indexes(&mut self, indexes: &Vec<usize>, now: Stamp) -> (r: Vec<(usize, bool)>)
        ensures
            final(self).items@.len() == old(self).items@.len(),
            forall|i: int|
                0 <= i < old(self).items@.len() ==> #[trigger] final(self).items@[i] == if targets(
                    indexes@,
                ).contains(i) {
                    completed(old(self).items@[i], now)
                } else {
                    old(self).items@[i]
                },
            strictly_ascending(completion_order(r@)),
            forall|x: usize| #[trigger] completion_order(r@).contains(x) <==> indexes@.contains(x),
            forall|k: int| 0 <= k < r@.len() ==> #[trigger] r@[k].1 == (r@[k].0 < old(self).items@.len()),
            old(self).wf() && now.wf() ==> final(self).wf(),
    {
        let order = ascending_unique(indexes);
        let mut r: Vec<(usize, bool)> = Vec::new();
        let mut k: usize = 0;
        while k < order.len()
            invariant
                k <= order@.len(),
                strictly_ascending(order@),
                forall|x: usize| order@.contains(x) <==> indexes@.contains(x),
                self.items@.len() == old(self).items@.len(),
                completion_order(r@) == order@.subrange(0, k as int),
                forall|q: int| 0 <= q < r@.len() ==> #[trigger] r@[q].1 == (r@[q].0 < old(self).items@.len()),
                forall|i: int|
                    0 <= i < old(self).items@.len() ==> #[trigger] self.items@[i] == if targets(
                        order@.subrange(0, k as int),
                    ).contains(i) {
                        completed(old(self).items@[i], now)
                    } else {
                        old(self).items@[i]
                    },
            decreases order@.len() - k,
        {
            let idx = order[k];
            let ghost before = self.items@;
            let ghost done = targets(order@.subrange(0, k as int));
            proof {
                lemma_targets_step(order@, k as int);
            }
            let hit = idx < self.items.len();
            if hit {
                self.items[idx].mark_complete(now);
            }
            r.push((idx, hit));
            assert(completion_order(r@) == order@.subrange(0, k + 1));
            assert forall|i: int| 0 <= i < old(self).items@.len() implies #[trigger] self.items@[i] == if targets(
                order@.subrange(0, k + 1),
            ).contains(i) {
                completed(old(self).items@[i], now)
            } else {
                old(self).items@[i]
            } by {
                if i == idx {
                    if done.contains(i) {
                        let q = choose|q: int| 0 <= q < k && order@.subrange(0, k as int)[q] as int == i;
                        assert(order@[q] < order@[k as int]);
                    }
                } else {
                    assert(self.items@[i] == before[i]);
                }
            }
            k += 1;
        }
        assert(order@.subrange(0, k as int) == order@);
        proof {
            lemma_targets_same(indexes@, order@);
        }
        r
    }

    /// Deletes the tasks whose positions are among `indexes`, as positions
    /// in the list before the call: what remains is the old list without
    /// them, in order. Removal runs through the distinct indexes in
    /// descending order, so that no removal shifts a position still to be
    /// removed. Returns each distinct index in that order, with the task
    /// removed there, or `None` where no task stood.
    pub fn delete_indexes(&mut self, indexes: &Vec<usize>) -> (r: Vec<(usize, Option<TodoItem>)>)
        ensures
            final(self).items@ == keep_except(old(self).items@, targets(indexes@)),
            strictly_descending(removal_order(r@)),
            forall|x: usize| #[trigger] removal_order(r@).contains(x) <==> indexes@.contains(x),
            forall|k: int|
                0 <= k < r@.len() ==> #[trigger] r@[k].1 == if r@[k].0 < old(self).items@.len() {
                    Some(old(self).items@[r@[k].0 as int])
                } else {
                    None
                },
            old(self).wf() ==> final(self).wf(),
    {
        let order = descending_unique(indexes);
        let ghost orig = self.items@;
        let mut r: Vec<(usize, Option<TodoItem>)> = Vec::new();
        let mut k: usize = 0;
        proof {
            lemma_keep_all(orig, targets(order@.subrange(0, 0)));
        }
        while k < order.len()
            invariant
                k <= order@.len(),
                orig == old(self).items@,
                strictly_descending(order@),
                forall|x: usize| order@.contains(x) <==> indexes@.contains(x),
                self.items@ == keep_except(orig, targets(order@.subrange(0, k as int))),
                removal_order(r@) == order@.subrange(0, k as int),
                forall|q: int|
                    0 <= q < r@.len() ==> #[trigger] r@[q].1 == if r@[q].0 < orig.len() {
                        Some(orig[r@[q].0 as int])
                    } else {
                        None
                    },
            decreases order@.len() - k,
        {
            let idx = order[k];
            let ghost done = targets(order@.subrange(0, k as int));
            proof {
                lemma_targets_step(order@, k as int);
            }
            assert forall|x: int| done.contains(x) implies x > idx by {
                let q = choose|q: int| 0 <= q < k && order@.subrange(0, k as int)[q] as int == x;
                assert(order@[q] > order@[k as int]);
            }
            proof {
                lemma_keep_len(orig, done);
            }
            if idx < self.items.len() {
                proof {
                    lemma_keep_prefix(orig, done, idx as int);
                    lemma_keep_remove(orig, done, idx as int);
                    assert(keep_except(orig, done).subrange(0, idx + 1)[idx as int] == orig.subrange(0, idx + 1)[idx as int]);
                }
                let gone = self.items.remove(idx);
                r.push((idx, Some(gone)));
            } else {
                proof {
                    if idx < orig.len() {
                        lemma_keep_prefix(orig, done, idx as int);
                    }
                    lemma_keep_ignore(orig, done, idx as int);
                }
                r.push((idx, None));
            }
            assert(removal_order(r@) == order@.subrange(0, k + 1));
            k += 1;
        }
        assert(order@.subrange(0, k as int) == order@);
        proof {
            lemma_targets_same(indexes@, order@);
        }
        proof {
            if old(self).wf() {
                lemma_keep_wf(orig, targets(indexes@));
            }
        }
        r
    }
}

} // verus!
