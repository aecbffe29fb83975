//! Commands of the command line and what each does to the list in memory.
use crate::indexes::{index_list, parse_index_list};
use crate::item::TodoItem;
use crate::list::{
    completed, completion_order, descending_unique, edited, keep_except, removal_order,
    reopened, strictly_ascending, strictly_descending, targets, TodoList,
};
use crate::stamp::Stamp;
use vstd::prelude::*;

verus! {

/// The commands of the tool.
#[derive(Debug)]
#[allow(inconsistent_fields)]
pub enum Commands {
    /// List all tasks (incomplete first, then complete).
    List,
    /// Add a task, repeating every `repeat` days if given.
    Add { text: String, repeat: Option<i64> },
    /// Mark complete the tasks at the listed indexes and ranges.
    Complete { indexes: String },
    /// Mark the task at `index` incomplete again.
    Undo { index: usize },
    /// Change the text or the repeat interval of the task at `index`.
    Edit { index: usize, text: Option<String>, repeat: Option<i64>, clear_repeat: bool },
    /// Delete the tasks at the listed indexes and ranges; without `confirm`
    /// only show what would go.
    Delete { indexes: String, confirm: bool },
    /// Show the table of commands.
    Commands,
}

/// The parsed command line: an optional storage file and an optional command.
#[derive(Debug)]
pub struct Cli {
    pub file: Option<String>,
    pub command: Option<Commands>,
}

impl Cli {
    /// The command to run; listing when none was given.
    pub fn chosen(self) -> (r: Commands)
        ensures
            r == (match self.command {
                Some(c) => c,
                None => Commands::List,
            }),
    {
        match self.command {
            Some(c) => c,
            None => Commands::List,
        }
    }
}

/// What running a command did, for the caller to report.
#[derive(Debug)]
pub enum Outcome {
    /// The list is to be shown.
    Listed,
    /// A task was appended.
    Added,
    /// The index list named no index at all; nothing was done.
    NoValidIndexes,
    /// Each distinct index, ascending, with whether a task was marked there.
    Completed(Vec<(usize, bool)>),
    /// The task at `index` was marked incomplete, if `found`.
    Undone { index: usize, found: bool },
    /// The task at `index` was edited, if `found`.
    Edited { index: usize, found: bool },
    /// Each distinct index, descending, with the text of the task that a
    /// confirmed deletion would remove there.
    DeletePreview(Vec<(usize, Option<String>)>),
    /// Each distinct index, descending, with the task removed there.
    Deleted(Vec<(usize, Option<TodoItem>)>),
    /// The table of commands is to be shown.
    ShowCommands,
}

/// `r` lists the distinct values of `v` in ascending order, each flagged
/// with whether it is a position of a list of `n` tasks.
pub open spec fn completion_report(r: Seq<(usize, bool)>, v: Seq<usize>, n: int) -> bool {
    &&& strictly_ascending(completion_order(r))
    &&& forall|x: usize| #[trigger] completion_order(r).contains(x) <==> v.contains(x)
    &&& forall|k: int| 0 <= k < r.len() ==> #[trigger] r[k].1 == (r[k].0 < n)
}

/// `r` lists the distinct values of `v` in descending order, each with the
/// task of `s` at that position, if any.
pub open spec fn removal_report(r: Seq<(usize, Option<TodoItem>)>, v: Seq<usize>, s: Seq<TodoItem>) -> bool {
    &&& strictly_descending(removal_order(r))
    &&& forall|x: usize| #[trigger] removal_order(r).contains(x) <==> v.contains(x)
    &&& forall|k: int|
        0 <= k < r.len() ==> #[trigger] r[k].1 == if r[k].0 < s.len() {
            Some(s[r[k].0 as int])
        } else {
            None
        }
}

/// The indexes of a preview, in its order.
pub open spec fn preview_order(r: Seq<(usize, Option<String>)>) -> Seq<usize> {
    r.map_values(|p: (usize, Option<String>)| p.0)
}

/// `r` lists the distinct values of `v` in descending order, each with the
/// text of the task of `s` at that position, if any.
pub open spec fn preview_report(r: Seq<(usize, Option<String>)>, v: Seq<usize>, s: Seq<TodoItem>) -> bool {
    &&& strictly_descending(preview_order(r))
    &&& forall|x: usize| #[trigger] preview_order(r).contains(x) <==> v.contains(x)
    &&& forall|k: int|
        0 <= k < r.len() ==> (#[trigger] r[k].1 is Some <==> r[k].0 < s.len()) && (r[k].1 is Some
            ==> r[k].1->0@ == s[r[k].0 as int].text@)
}

/// The tasks of `s` with those at positions in `t` marked complete at `now`.
pub open spec fn completed_at(s: Seq<TodoItem>, t: Set<int>, now: Stamp) -> Seq<TodoItem> {
    Seq::new(
        s.len(),
        |i: int|
            if t.contains(i) {
                completed(s[i], now)
            } else {
                s[i]
            },
    )
}

/// Some entry of a completion report is flagged.
pub open spec fn any_marked(r: Seq<(usize, bool)>) -> bool {
    exists|k: int| 0 <= k < r.len() && (#[trigger] r[k]).1
}

impl Outcome {
    /// Whether the list was changed and must be written back.
    pub open spec fn changes_list(&self) -> bool {
        match self {
            Outcome::Added => true,
            Outcome::Completed(r) => any_marked(r@),
            Outcome::Undone { found, .. } => *found,
            Outcome::Edited { found, .. } => *found,
            Outcome::Deleted(_) => true,
            _ => false,
        }
    }

    /// Whether the list must be written back after this outcome.
    pub fn needs_save(&self) -> (r: bool)
        ensures
            r == self.changes_list(),
    {
        match self {
            Outcome::Added => true,
            Outcome::Completed(r) => {
                let mut k: usize = 0;
                let mut any = false;
                while k < r.len()
                    invariant
                        k <= r@.len(),
                        any == any_marked(r@.subrange(0, k as int)),
                    decreases r@.len() - k,
                {
                    if r[k].1 {
                        assert(r@.subrange(0, k + 1)[k as int].1);
                    }
                    assert(any_marked(r@.subrange(0, k as int)) ==> any_marked(r@.subrange(0, k + 1))) by {
                        if any_marked(r@.subrange(0, k as int)) {
                            let q = choose|q: int| 0 <= q < k && (#[trigger] r@.subrange(0, k as int)[q]).1;
                            assert(r@.subrange(0, k + 1)[q].1);
                        }
                    }
                    assert(any_marked(r@.subrange(0, k + 1)) ==> any_marked(r@.subrange(0, k as int)) || r@[k as int].1) by {
                        if any_marked(r@.subrange(0, k + 1)) {
                            let q = choose|q: int| 0 <= q < k + 1 && (#[trigger] r@.subrange(0, k + 1)[q]).1;
                            if q < k {
                                assert(r@.subrange(0, k as int)[q].1);
                            }
                        }
                    }
                    any = any || r[k].1;
                    k += 1;
                }
                assert(r@.subrange(0, k as int) == r@);
                any
            },
            Outcome::Undone { found, .. } => *found,
            Outcome::Edited { found, .. } => *found,
            Outcome::Deleted(_) => true,
            _ => false,
        }
    }
}

impl TodoList {
    /// What a confirmed deletion of `indexes` would remove, without removing it.
    pub fn delete_preview(&self, indexes: &Vec<usize>) -> (r: Vec<(usize, Option<String>)>)
        ensures
            preview_report(r@, indexes@, self.items@),
    {
        let order = descending_unique(indexes);
        let mut r: Vec<(usize, Option<String>)> = Vec::new();
        let mut k: usize = 0;
        while k < order.len()
            invariant
                k <= order@.len(),
                r@.len() == k,
                preview_order(r@) == order@.subrange(0, k as int),
                forall|q: int|
                    0 <= q < r@.len() ==> (#[trigger] r@[q].1 is Some <==> r@[q].0 < self.items@.len())
                        && (r@[q].1 is Some ==> r@[q].1->0@ == self.items@[r@[q].0 as int].text@),
            decreases order@.len() - k,
        {
            let idx = order[k];
            let ghost before = r@;
            let entry = if idx < self.items.len() {
                (idx, Some(self.items[idx].text.as_str().to_owned()))
            } else {
                (idx, None)
            };
            r.push(entry);
            assert(r@ == before.push(entry));
            assert forall|q: int| 0 <= q < k implies preview_order(r@)[q] == order@[q] by {
                assert(r@[q] == before[q]);
                assert(preview_order(before)[q] == order@.subrange(0, k as int)[q]);
            }
            assert(preview_order(r@) =~= order@.subrange(0, k + 1));
            k += 1;
        }
        assert(order@.subrange(0, k as int) == order@);
        r
    }

    /// Runs `cmd` on the list at `now`. Index lists are read as
    /// `parse_index_list` reads them; one that names no index changes
    /// nothing.
    pub fn apply(&mut self, cmd: Commands, now: Stamp) -> (r: Outcome)
        ensures
            match cmd {
                Commands::List => r is Listed && final(self).items@ == old(self).items@,
                Commands::Add { text, repeat } => r is Added && final(self).items@ == old(
                    self,
                ).items@.push(TodoItem { text, complete: false, complete_date: None, repeat_days: repeat }),
                Commands::Complete { indexes } => if index_list(indexes@).len() == 0 {
                    r is NoValidIndexes && final(self).items@ == old(self).items@
                } else {
                    &&& final(self).items@ == completed_at(
                        old(self).items@,
                        targets(index_list(indexes@)),
                        now,
                    )
                    &&& r matches Outcome::Completed(rep) && completion_report(
                        rep@,
                        index_list(indexes@),
                        old(self).items@.len() as int,
                    )
                },
                Commands::Undo { index } => {
                    &&& r == (Outcome::Undone { index, found: index < old(self).items@.len() })
                    &&& final(self).items@ == if index < old(self).items@.len() {
                        old(self).items@.update(index as int, reopened(old(self).items@[index as int]))
                    } else {
                        old(self).items@
                    }
                },
                Commands::Edit { index, text, repeat, clear_repeat } => {
                    &&& r == (Outcome::Edited { index, found: index < old(self).items@.len() })
                    &&& final(self).items@ == if index < old(self).items@.len() {
                        old(self).items@.update(
                            index as int,
                            edited(old(self).items@[index as int], text, repeat, clear_repeat),
                        )
                    } else {
                        old(self).items@
                    }
                },
                Commands::Delete { indexes, confirm } => if index_list(indexes@).len() == 0 {
                    r is NoValidIndexes && final(self).items@ == old(self).items@
                } else if confirm {
                    &&& final(self).items@ == keep_except(
                        old(self).items@,
                        targets(index_list(indexes@)),
                    )
                    &&& r matches Outcome::Deleted(rep) && removal_report(
                        rep@,
                        index_list(indexes@),
                        old(self).items@,
                    )
                } else {
                    &&& final(self).items@ == old(self).items@
                    &&& r matches Outcome::DeletePreview(rep) && preview_report(
                        rep@,
                        index_list(indexes@),
                        old(self).items@,
                    )
                },
                Commands::Commands => r is ShowCommands && final(self).items@ == old(self).items@,
            },
            old(self).wf() && now.wf() ==> final(self).wf(),
    {
        match cmd {
            Commands::List => Outcome::Listed,
            Commands::Add { text, repeat } => {
                self.add(text, repeat);
                assert(self.items@ == old(self).items@.push(self.items@.last()));
                Outcome::Added
            },
            Commands::Complete { indexes } => {
                let v = parse_index_list(indexes.as_str());
                if v.len() == 0 {
                    return Outcome::NoValidIndexes;
                }
                let rep = self.complete_indexes(&v, now);
                assert(self.items@ == completed_at(old(self).items@, targets(v@), now));
                Outcome::Completed(rep)
            },
            Commands::Undo { index } => {
                let found = self.undo_at(index);
                Outcome::Undone { index, found }
            },
            Commands::Edit { index, text, repeat, clear_repeat } => {
                let found = self.edit_at(index, text, repeat, clear_repeat);
                Outcome::Edited { index, found }
            },
            Commands::Delete { indexes, confirm } => {
                let v = parse_index_list(indexes.as_str());
                if v.len() == 0 {
                    return Outcome::NoValidIndexes;
                }
                if confirm {
                    Outcome::Deleted(self.delete_indexes(&v))
                } else {
                    Outcome::DeletePreview(self.delete_preview(&v))
                }
            },
            Commands::Commands => Outcome::ShowCommands,
        }
    }
}

} // verus!
