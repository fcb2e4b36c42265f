//! Browsing state over the duplicate groups.
//!
//! The browser walks the groups, walks the files of the group in view,
//! marks files for deletion by their global index, and shows help or a
//! short tutorial.  Every transition is a small total function of the
//! current state; rendering and key decoding live outside this crate.

use vstd::prelude::*;

use crate::duplicate_group::DuplicateGroup;

verus! {

/// Viewing mode of the browser.
#[derive(Clone, Copy, PartialEq, Eq, Structural, Debug)]
pub enum Mode {
    Normal,
    Help,
    Tutorial,
}

/// The files marked for deletion, kept as a duplicate-free list of global
/// file indices and viewed as a set.
pub struct Marks {
    items: Vec<usize>,
}

impl View for Marks {
    type V = Set<usize>;

    closed spec fn view(&self) -> Set<usize> {
        self.items@.to_set()
    }
}

impl Marks {
    /// The backing list holds no index twice.
    pub closed spec fn wf(&self) -> bool {
        forall|i: int, j: int| 0 <= i < j < self.items@.len() ==> self.items@[i] != self.items@[j]
    }

    /// An empty mark set.
    pub fn new() -> (r: Marks)
        ensures
            r@ == Set::<usize>::empty(),
            r.wf(),
    {
        let r = Marks { items: Vec::new() };
        proof {
            assert(r@ =~= Set::<usize>::empty());
        }
        r
    }

    /// Whether `x` is marked.
    pub fn contains(&self, x: usize) -> (r: bool)
        ensures
            r == self@.contains(x),
    {
        let n = self.items.len();
        for i in 0..n
            invariant
                n == self.items@.len(),
                forall|k: int| 0 <= k < i ==> self.items@[k] != x,
        {
            if self.items[i] == x {
                return true;
            }
        }
        proof {
            assert(!self.items@.contains(x));
        }
        false
    }

    /// Mark `x`.
    pub fn insert(&mut self, x: usize)
        requires
            old(self).wf(),
        ensures
            final(self).wf(),
            final(self)@ == old(self)@.insert(x),
    {
        if !self.contains(x) {
            let ghost pre = self.items@;
            self.items.push(x);
            proof {
                assert forall|a: usize| #[trigger] self.items@.contains(a) implies pre.contains(a)
                    || a == x by {
                    let w = choose|w: int| 0 <= w < self.items@.len() && self.items@[w] == a;
                    if w < pre.len() {
                        assert(pre[w] == a);
                    }
                }
                assert forall|a: usize| pre.contains(a) implies #[trigger] self.items@.contains(
                    a,
                ) by {
                    let w = choose|w: int| 0 <= w < pre.len() && pre[w] == a;
                    assert(self.items@[w] == a);
                }
                assert(self.items@[self.items@.len() - 1] == x);
                assert(self@ =~= old(self)@.insert(x));
            }
        } else {
            proof {
                assert(self@ =~= old(self)@.insert(x));
            }
        }
    }

    /// Unmark `x`.
    pub fn remove(&mut self, x: usize)
        requires
            old(self).wf(),
        ensures
            final(self).wf(),
            final(self)@ == old(self)@.remove(x),
    {
        let n = self.items.len();
        let mut found: Option<usize> = None;
        for i in 0..n
            invariant
                n == self.items@.len(),
                match found {
                    Some(f) => f < n && self.items@[f as int] == x,
                    None => forall|k: int| 0 <= k < i ==> self.items@[k] != x,
                },
        {
            if self.items[i] == x && found.is_none() {
                found = Some(i);
            }
        }
        match found {
            Some(i) => {
                let ghost pre = self.items@;
                self.items.swap_remove(i);
                proof {
                    let post = self.items@;
                    assert(post =~= pre.update(i as int, pre[pre.len() - 1]).drop_last());
                    assert forall|a: usize| #[trigger] post.contains(a) implies pre.contains(a)
                        && a != x by {
                        let w = choose|w: int| 0 <= w < post.len() && post[w] == a;
                        if w == i {
                            assert(pre[pre.len() - 1] == a);
                        } else {
                            assert(pre[w] == a);
                        }
                        if a == x {
                            if w == i && i < pre.len() - 1 {
                                assert(pre[pre.len() - 1] == x && pre[i as int] == x);
                                assert(false);
                            } else if w != i {
                                assert(pre[w] == x && pre[i as int] == x);
                                assert(false);
                            }
                        }
                    }
                    assert forall|a: usize| pre.contains(a) && a != x implies #[trigger] post
                        .contains(a) by {
                        let w = choose|w: int| 0 <= w < pre.len() && pre[w] == a;
                        if w == pre.len() - 1 {
                            assert(post[i as int] == a);
                        } else if w == i {
                            assert(pre[i as int] == x);
                            assert(false);
                        } else {
                            assert(post[w] == a);
                        }
                    }
                    assert forall|w1: int, w2: int| 0 <= w1 < w2 < post.len() implies post[w1]
                        != post[w2] by {
                        assert(post[w1] == if w1 == i {
                            pre[pre.len() - 1]
                        } else {
                            pre[w1]
                        });
                        assert(post[w2] == if w2 == i {
                            pre[pre.len() - 1]
                        } else {
                            pre[w2]
                        });
                    }
                    assert(self@ =~= old(self)@.remove(x));
                }
            },
            None => {
                proof {
                    assert(!self.items@.contains(x));
                    assert(self@ =~= old(self)@.remove(x));
                }
            },
        }
    }

    /// How many files are marked.
    pub fn len(&self) -> (r: usize)
        requires
            self.wf(),
        ensures
            r == self@.len(),
    {
        proof {
            self.items@.unique_seq_to_set();
        }
        self.items.len()
    }

    /// Unmark everything.
    pub fn clear(&mut self)
        ensures
            final(self).wf(),
            final(self)@ == Set::<usize>::empty(),
    {
        self.items.clear();
        proof {
            assert(self@ =~= Set::<usize>::empty());
        }
    }
}

/// Number of files in the groups before position `k`.
pub open spec fn prefix_files(groups: Seq<DuplicateGroup>, k: int) -> int
    decreases k,
    when 0 <= k <= groups.len()
{
    if k <= 0 {
        0
    } else {
        prefix_files(groups, k - 1) + groups[k - 1].files@.len()
    }
}

/// Number of files over all groups.
pub open spec fn total_files(groups: Seq<DuplicateGroup>) -> int {
    prefix_files(groups, groups.len() as int)
}

/// The flat index of file `f` of group `g` over all groups; the total
/// count when `g` is out of range.
pub open spec fn global_index_spec(groups: Seq<DuplicateGroup>, g: int, f: int) -> int {
    if g < groups.len() {
        prefix_files(groups, g) + f
    } else {
        total_files(groups)
    }
}

/// A prefix of groups never holds more files than all of them.
pub proof fn lemma_prefix_le(groups: Seq<DuplicateGroup>, k1: int, k2: int)
    requires
        0 <= k1 <= k2 <= groups.len(),
    ensures
        prefix_files(groups, k1) <= prefix_files(groups, k2),
    decreases k2 - k1,
{
    if k1 < k2 {
        lemma_prefix_le(groups, k1, k2 - 1);
    }
}

/// How many of the indices in `[lo, hi)` are in `m`.
pub open spec fn count_marked_in(m: Set<usize>, lo: int, hi: int) -> int
    decreases hi - lo,
    when lo <= hi
{
    if lo >= hi {
        0
    } else {
        count_marked_in(m, lo, hi - 1) + (if m.contains((hi - 1) as usize) {
            1int
        } else {
            0int
        })
    }
}

/// The interactive browsing state.
pub struct App {
    /// Whether the user asked to leave.
    pub should_quit: bool,
    /// What is on screen: the browser, the help, or the tutorial.
    pub mode: Mode,
    /// The duplicate groups under review.
    pub duplicate_groups: Vec<DuplicateGroup>,
    /// Position of the group in view.
    pub selected_group: usize,
    /// Position of the file in view within the group.
    pub selected_file: usize,
    /// Global indices of the files marked for deletion.
    pub marked_files: Marks,
    /// Whether the tutorial is still being shown.
    pub show_tutorial: bool,
    /// Which tutorial hint is up.
    pub tutorial_step: usize,
}

impl App {
    /// Selections point into the groups, the mark set is sound, and the
    /// flat file indexing cannot overflow.
    pub open spec fn wf(self) -> bool {
        let n = self.duplicate_groups@.len();
        &&& self.marked_files.wf()
        &&& total_files(self.duplicate_groups@) <= usize::MAX
        &&& (n == 0 ==> self.selected_group == 0)
        &&& (n > 0 ==> self.selected_group < n)
        &&& (n > 0 ==> {
            let cnt = self.duplicate_groups@[self.selected_group as int].files@.len();
            &&& (cnt == 0 ==> self.selected_file == 0)
            &&& (cnt > 0 ==> self.selected_file < cnt)
        })
        &&& (n == 0 ==> self.selected_file == 0)
    }

    /// A browser over the given groups; the tutorial is up when there is
    /// anything to review.
    pub fn new(duplicate_groups: Vec<DuplicateGroup>) -> (r: App)
        requires
            total_files(duplicate_groups@) <= usize::MAX,
        ensures
            r.wf(),
            !r.should_quit,
            r.duplicate_groups == duplicate_groups,
            r.selected_group == 0,
            r.selected_file == 0,
            r.marked_files@ == Set::<usize>::empty(),
            r.show_tutorial == (duplicate_groups@.len() > 0),
            r.mode == (if duplicate_groups@.len() > 0 {
                Mode::Tutorial
            } else {
                Mode::Normal
            }),
            r.tutorial_step == 0,
    {
        let show_tutorial = !duplicate_groups.is_empty();
        App {
            should_quit: false,
            mode: if show_tutorial {
                Mode::Tutorial
            } else {
                Mode::Normal
            },
            duplicate_groups,
            selected_group: 0,
            selected_file: 0,
            marked_files: Marks::new(),
            show_tutorial,
            tutorial_step: 0,
        }
    }

    /// The group in view, if any.
    pub fn current_group(&self) -> (r: Option<&DuplicateGroup>)
        requires
            self.wf(),
        ensures
            self.duplicate_groups@.len() > 0 ==> (r matches Some(g) && *g
                == self.duplicate_groups@[self.selected_group as int]),
            self.duplicate_groups@.len() == 0 ==> r is None,
    {
        if self.selected_group < self.duplicate_groups.len() {
            Some(&self.duplicate_groups[self.selected_group])
        } else {
            None
        }
    }

    /// How many groups are under review.
    pub fn group_count(&self) -> (r: usize)
        ensures
            r == self.duplicate_groups@.len(),
    {
        self.duplicate_groups.len()
    }

    /// How many files the group in view holds; zero without a group.
    pub fn file_count(&self) -> (r: usize)
        requires
            self.wf(),
        ensures
            r == (if self.duplicate_groups@.len() > 0 {
                self.duplicate_groups@[self.selected_group as int].files@.len()
            } else {
                0
            }),
    {
        match self.current_group() {
            Some(g) => g.file_count(),
            None => 0,
        }
    }

    /// Step to the next group, starting at its first file; at the last
    /// group nothing moves.
    pub fn next_group(&mut self)
        requires
            old(self).wf(),
        ensures
            final(self).wf(),
            next_group_rel(*old(self), *final(self)),
    {
        if self.selected_group < self.group_count().saturating_sub(1) {
            self.selected_group = self.selected_group + 1;
            self.selected_file = 0;
        }
    }

    /// Step to the previous group, starting at its first file; at the
    /// first group nothing moves.
    pub fn previous_group(&mut self)
        requires
            old(self).wf(),
        ensures
            final(self).wf(),
            previous_group_rel(*old(self), *final(self)),
    {
        if self.selected_group > 0 {
            self.selected_group = self.selected_group - 1;
            self.selected_file = 0;
        }
    }

    /// Step to the next file of the group in view, wrapping to the first.
    pub fn next_file(&mut self)
        requires
            old(self).wf(),
        ensures
            final(self).wf(),
            next_file_rel(*old(self), *final(self)),
    {
        let cnt = self.file_count();
        if cnt > 0 {
            self.selected_file = (self.selected_file + 1) % cnt;
        }
    }

    /// Step to the previous file of the group in view, wrapping to the
    /// last.
    pub fn previous_file(&mut self)
        requires
            old(self).wf(),
        ensures
            final(self).wf(),
            previous_file_rel(*old(self), *final(self)),
    {
        let cnt = self.file_count();
        if cnt > 0 {
            if self.selected_file == 0 {
                self.selected_file = cnt - 1;
            } else {
                self.selected_file = self.selected_file - 1;
            }
        }
    }

    /// The flat index of file `file_idx` of group `group_idx`; the total
    /// file count for a group out of range.
    pub fn get_global_file_index(&self, group_idx: usize, file_idx: usize) -> (r: usize)
        requires
            self.wf(),
            group_idx < self.duplicate_groups@.len() ==> file_idx
                <= self.duplicate_groups@[group_idx as int].files@.len(),
        ensures
            r == global_index_spec(self.duplicate_groups@, group_idx as int, file_idx as int),
    {
        let n = self.duplicate_groups.len();
        let mut index: usize = 0;
        let mut i: usize = 0;
        while i < n
            invariant
                self.wf(),
                i <= n,
                n == self.duplicate_groups@.len(),
                index == prefix_files(self.duplicate_groups@, i as int),
                group_idx < n ==> file_idx <= self.duplicate_groups@[group_idx as int].files@.len(),
                i <= group_idx,
            decreases n - i,
        {
            proof {
                lemma_prefix_le(self.duplicate_groups@, i + 1, n as int);
            }
            if i == group_idx {
                proof {
                    lemma_prefix_le(self.duplicate_groups@, group_idx as int, n as int);
                }
                return index + file_idx;
            }
            index = index + self.duplicate_groups[i].file_count();
            i = i + 1;
        }
        index
    }

    /// Mark the file in view, or unmark it if it is marked; without a
    /// group in view nothing changes.
    pub fn toggle_mark(&mut self)
        requires
            old(self).wf(),
        ensures
            final(self).wf(),
            toggle_mark_rel(*old(self), *final(self)),
    {
        if self.selected_group < self.duplicate_groups.len() {
            let global_index = self.get_global_file_index(self.selected_group, self.selected_file);
            if self.marked_files.contains(global_index) {
                self.marked_files.remove(global_index);
            } else {
                self.marked_files.insert(global_index);
            }
        }
    }

    /// Whether the file in view is marked.
    pub fn is_current_file_marked(&self) -> (r: bool)
        requires
            self.wf(),
        ensures
            r == (self.duplicate_groups@.len() > 0 && self.marked_files@.contains(
                global_index_spec(
                    self.duplicate_groups@,
                    self.selected_group as int,
                    self.selected_file as int,
                ) as usize,
            )),
    {
        if self.selected_group < self.duplicate_groups.len() {
            let global_index = self.get_global_file_index(self.selected_group, self.selected_file);
            self.marked_files.contains(global_index)
        } else {
            false
        }
    }

    /// How many files are marked over all groups.
    pub fn marked_count(&self) -> (r: usize)
        requires
            self.wf(),
        ensures
            r == self.marked_files@.len(),
    {
        self.marked_files.len()
    }

    /// How many files of group `group_idx` are marked; zero for a group
    /// out of range.
    pub fn marked_count_in_group(&self, group_idx: usize) -> (r: usize)
        requires
            self.wf(),
        ensures
            group_idx < self.duplicate_groups@.len() ==> r == count_marked_in(
                self.marked_files@,
                prefix_files(self.duplicate_groups@, group_idx as int),
                prefix_files(self.duplicate_groups@, group_idx as int)
                    + self.duplicate_groups@[group_idx as int].files@.len(),
            ),
            group_idx >= self.duplicate_groups@.len() ==> r == 0,
    {
        if group_idx >= self.duplicate_groups.len() {
            return 0;
        }
        let lo = self.get_global_file_index(group_idx, 0);
        let cnt = self.duplicate_groups[group_idx].file_count();
        proof {
            lemma_prefix_le(self.duplicate_groups@, group_idx + 1, self.duplicate_groups@.len() as int);
        }
        let mut count: usize = 0;
        let mut t: usize = 0;
        while t < cnt
            invariant
                self.wf(),
                t <= cnt,
                group_idx < self.duplicate_groups@.len(),
                lo == prefix_files(self.duplicate_groups@, group_idx as int),
                cnt == self.duplicate_groups@[group_idx as int].files@.len(),
                lo + cnt <= usize::MAX,
                count <= t,
                count == count_marked_in(self.marked_files@, lo as int, lo + t),
            decreases cnt - t,
        {
            if self.marked_files.contains(lo + t) {
                count = count + 1;
            }
            t = t + 1;
        }
        count
    }

    /// Unmark everything.
    pub fn clear_marks(&mut self)
        requires
            old(self).wf(),
        ensures
            final(self).wf(),
            clear_marks_rel(*old(self), *final(self)),
    {
        self.marked_files.clear();
    }

    /// Show the help screen.
    pub fn show_help(&mut self)
        requires
            old(self).wf(),
        ensures
            final(self).wf(),
            *final(self) == (App { mode: Mode::Help, ..*old(self) }),
    {
        self.mode = Mode::Help;
    }

    /// Leave the help screen.
    pub fn hide_help(&mut self)
        requires
            old(self).wf(),
        ensures
            final(self).wf(),
            *final(self) == (App { mode: Mode::Normal, ..*old(self) }),
    {
        self.mode = Mode::Normal;
    }

    /// Leave the tutorial for the browser.
    pub fn exit_tutorial(&mut self)
        requires
            old(self).wf(),
        ensures
            final(self).wf(),
            exit_tutorial_rel(*old(self), *final(self)),
    {
        self.mode = Mode::Normal;
        self.show_tutorial = false;
    }

    /// Step to the next tutorial hint; past the last hint the tutorial
    /// closes.
    pub fn next_tutorial_step(&mut self)
        requires
            old(self).wf(),
            old(self).tutorial_step < usize::MAX,
        ensures
            final(self).wf(),
            next_tutorial_rel(*old(self), *final(self)),
    {
        self.tutorial_step = self.tutorial_step + 1;
        if self.tutorial_step > 3 {
            self.exit_tutorial();
        }
    }

    /// The tutorial hint for the current step.
    pub fn get_tutorial_hint(&self) -> (r: &'static str)
        ensures
            r@ == tutorial_hint_spec(self.tutorial_step as int),
    {
        if self.tutorial_step == 0 {
            "👋 欢迎！使用 ↑↓ 键选择重复文件组"
        } else if self.tutorial_step == 1 {
            "📌 按 Tab 键在文件之间切换（会循环）"
        } else if self.tutorial_step == 2 {
            "✅ 按 Space（空格）标记要删除的文件"
        } else if self.tutorial_step == 3 {
            "🗑️  按 d 键删除标记的文件，按 ? 查看帮助"
        } else {
            ""
        }
    }

    /// Ask to leave the browser.
    pub fn quit(&mut self)
        requires
            old(self).wf(),
        ensures
            final(self).wf(),
            *final(self) == (App { should_quit: true, ..*old(self) }),
    {
        self.should_quit = true;
    }

    /// A short hint on what marking action is available now.
    pub fn get_action_hint(&self) -> (r: &'static str)
        requires
            self.wf(),
        ensures
            r@ == action_hint_spec(*self),
    {
        if self.marked_count() > 0 {
            "已标记文件，按 D 删除全部"
        } else if self.is_current_file_marked() {
            "文件已标记，按 Space 取消"
        } else {
            "按 Space 标记文件"
        }
    }
}

/// The effect of stepping to the next group.
pub open spec fn next_group_rel(a: App, b: App) -> bool {
    if a.selected_group + 1 < a.duplicate_groups@.len() {
        b == (App {
            selected_group: (a.selected_group + 1) as usize,
            selected_file: 0usize,
            ..a
        })
    } else {
        b == a
    }
}

/// The effect of stepping to the previous group.
pub open spec fn previous_group_rel(a: App, b: App) -> bool {
    if a.selected_group > 0 {
        b == (App {
            selected_group: (a.selected_group - 1) as usize,
            selected_file: 0usize,
            ..a
        })
    } else {
        b == a
    }
}

/// The effect of stepping to the next file, wrapping within the group.
pub open spec fn next_file_rel(a: App, b: App) -> bool {
    if a.duplicate_groups@.len() > 0 {
        let cnt = a.duplicate_groups@[a.selected_group as int].files@.len() as int;
        if cnt > 0 {
            b == (App { selected_file: ((a.selected_file + 1) % cnt) as usize, ..a })
        } else {
            b == a
        }
    } else {
        b == a
    }
}

/// The effect of stepping to the previous file, wrapping within the
/// group.
pub open spec fn previous_file_rel(a: App, b: App) -> bool {
    if a.duplicate_groups@.len() > 0 {
        let cnt = a.duplicate_groups@[a.selected_group as int].files@.len() as int;
        if cnt > 0 {
            b == (App {
                selected_file: (if a.selected_file == 0 {
                    cnt - 1
                } else {
                    a.selected_file - 1
                }) as usize,
                ..a
            })
        } else {
            b == a
        }
    } else {
        b == a
    }
}

/// The effect of toggling the mark of the file in view.
pub open spec fn toggle_mark_rel(a: App, b: App) -> bool {
    if a.duplicate_groups@.len() > 0 {
        let g = global_index_spec(
            a.duplicate_groups@,
            a.selected_group as int,
            a.selected_file as int,
        ) as usize;
        &&& b.marked_files@ == (if a.marked_files@.contains(g) {
            a.marked_files@.remove(g)
        } else {
            a.marked_files@.insert(g)
        })
        &&& b == (App { marked_files: b.marked_files, ..a })
    } else {
        b == a
    }
}

/// The effect of clearing every mark.
pub open spec fn clear_marks_rel(a: App, b: App) -> bool {
    &&& b.marked_files@ == Set::<usize>::empty()
    &&& b == (App { marked_files: b.marked_files, ..a })
}

/// The effect of leaving the tutorial.
pub open spec fn exit_tutorial_rel(a: App, b: App) -> bool {
    b == (App { mode: Mode::Normal, show_tutorial: false, ..a })
}

/// The effect of stepping the tutorial: past the last hint the tutorial
/// closes.
pub open spec fn next_tutorial_rel(a: App, b: App) -> bool {
    if a.tutorial_step + 1 > 3 {
        b == (App {
            mode: Mode::Normal,
            show_tutorial: false,
            tutorial_step: (a.tutorial_step + 1) as usize,
            ..a
        })
    } else {
        b == (App { tutorial_step: (a.tutorial_step + 1) as usize, ..a })
    }
}

/// The tutorial hint text of each step.
pub open spec fn tutorial_hint_spec(step: int) -> Seq<char> {
    if step == 0 {
        "👋 欢迎！使用 ↑↓ 键选择重复文件组"@
    } else if step == 1 {
        "📌 按 Tab 键在文件之间切换（会循环）"@
    } else if step == 2 {
        "✅ 按 Space（空格）标记要删除的文件"@
    } else if step == 3 {
        "🗑️  按 d 键删除标记的文件，按 ? 查看帮助"@
    } else {
        ""@
    }
}

/// The marking hint: delete-all once anything is marked, else how to mark
/// or unmark the file in view.
pub open spec fn action_hint_spec(a: App) -> Seq<char> {
    if a.marked_files@.len() > 0 {
        "已标记文件，按 D 删除全部"@
    } else if a.duplicate_groups@.len() > 0 && a.marked_files@.contains(
        global_index_spec(
            a.duplicate_groups@,
            a.selected_group as int,
            a.selected_file as int,
        ) as usize,
    ) {
        "文件已标记，按 Space 取消"@
    } else {
        "按 Space 标记文件"@
    }
}

} // verus!
