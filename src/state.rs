//! The listed directory: its files in the chosen order, and which one is
//! selected. Keys move the selection; sort commands reorder the list and keep
//! the selected file selected.

use vstd::prelude::*;
use core::cmp::Ordering;
use crate::binding::Action;
use crate::sorting::{FileInfo, Sorting, file_order, sort_files, sorted, stable};

verus! {

broadcast use vstd::seq_lib::group_to_multiset_ensures;

/// No file of `fs` comes after the next one under `s`, or, when `reverse`
/// holds, before it.
pub open spec fn ordered(fs: Seq<FileInfo>, s: Sorting, reverse: bool) -> bool {
    if reverse {
        forall|k: int| 0 <= k < fs.len() - 1 ==> #[trigger] file_order(fs[k + 1], fs[k], s) != Ordering::Greater
    } else {
        sorted(fs, s)
    }
}

/// The larger of a count and 1: how far a move by a count goes.
pub open spec fn steps(count: int) -> int {
    if count == 0 {
        1
    } else {
        count
    }
}

/// The selection after moving down by `count` in a list of `len` files: the
/// first file when nothing was selected, else `count` files further (one
/// when no count was typed), stopping at the last file.
pub open spec fn down_to(len: int, sel: Option<int>, count: int) -> Option<int> {
    if len == 0 {
        sel
    } else {
        match sel {
            None => Some(0),
            Some(i) => Some(if i + steps(count) > len - 1 { len - 1 } else { i + steps(count) }),
        }
    }
}

/// The selection after moving up by `count`: the last file when nothing was
/// selected, else `count` files back (one when no count was typed), stopping
/// at the first file.
pub open spec fn up_to(len: int, sel: Option<int>, count: int) -> Option<int> {
    if len == 0 {
        sel
    } else {
        match sel {
            None => Some(len - 1),
            Some(i) => Some(if steps(count) > i { 0 } else { i - steps(count) }),
        }
    }
}

/// The selection after going to line `count` from the top (the first file
/// when no count was typed), stopping at the last file.
pub open spec fn top_to(len: int, sel: Option<int>, count: int) -> Option<int> {
    if len == 0 {
        sel
    } else {
        let n = if count == 0 { 0 } else { count - 1 };
        Some(if n > len - 1 { len - 1 } else { n })
    }
}

/// The selection after going to line `count` from the bottom (the last file
/// when no count was typed), stopping at the first file.
pub open spec fn bottom_to(len: int, sel: Option<int>, count: int) -> Option<int> {
    if len == 0 {
        sel
    } else {
        let n = if count == 0 { 0 } else { count - 1 };
        Some(if n > len - 1 { 0 } else { len - 1 - n })
    }
}

/// The selection as a mathematical value.
pub open spec fn sel_of(sel: Option<usize>) -> Option<int> {
    match sel {
        Some(i) => Some(i as int),
        None => None,
    }
}

/// `out` arranges the files of `orig` stably under `s` (see [`stable`]),
/// read from the end when `reverse` holds.
pub open spec fn arranged(orig: Seq<FileInfo>, out: Seq<FileInfo>, s: Sorting, reverse: bool) -> bool {
    if reverse {
        stable(orig, out.reverse(), s)
    } else {
        stable(orig, out, s)
    }
}

/// `after` lists the files of `before`, in its order (as far as that order
/// is total), with the file of the same path selected, if one was.
pub open spec fn relisted(before: State, after: State) -> bool {
    &&& after.files_spec().to_multiset() == before.files_spec().to_multiset()
    &&& after.sorting_spec() != Sorting::Natural ==> ordered(
        after.files_spec(),
        after.sorting_spec(),
        after.reversed_spec(),
    )
    &&& after.sorting_spec() != Sorting::Natural ==> arranged(
        before.files_spec(),
        after.files_spec(),
        after.sorting_spec(),
        after.reversed_spec(),
    )
    &&& (after.selected_spec() is Some) == (before.selected_spec() is Some)
    &&& before.selected_spec() is Some ==> after.files_spec()[after.selected_spec()->0 as int].path@
        == before.files_spec()[before.selected_spec()->0 as int].path@
}

/// The listed files, the selection among them, and the order of the list.
pub struct State {
    files: Vec<FileInfo>,
    selected: Option<usize>,
    sorting: Sorting,
    reverse_sort: bool,
}

impl State {
    #[verifier::type_invariant]
    spec fn inv(self) -> bool {
        self.selected matches Some(i) ==> i < self.files@.len()
    }

    /// The files, in the order listed.
    pub closed spec fn files_spec(&self) -> Seq<FileInfo> {
        self.files@
    }

    /// The index of the selected file, if any.
    pub closed spec fn selected_spec(&self) -> Option<usize> {
        self.selected
    }

    /// The order of the list.
    pub closed spec fn sorting_spec(&self) -> Sorting {
        self.sorting
    }

    /// Whether the list is in reverse order.
    pub closed spec fn reversed_spec(&self) -> bool {
        self.reverse_sort
    }

    /// An empty list with nothing selected.
    pub fn new(sorting: Sorting, reverse_sort: bool) -> (r: State)
        ensures
            r.files_spec().len() == 0,
            r.selected_spec() is None,
            r.sorting_spec() == sorting,
            r.reversed_spec() == reverse_sort,
    {
        State { files: Vec::new(), selected: None, sorting, reverse_sort }
    }

    /// The files, in the order listed.
    pub fn files(&self) -> (r: &Vec<FileInfo>)
        ensures
            r@ == self.files_spec(),
    {
        &self.files
    }

    /// The index of the selected file, if any; always within the list.
    pub fn selected(&self) -> (r: Option<usize>)
        ensures
            r == self.selected_spec(),
            r matches Some(i) ==> i < self.files_spec().len(),
    {
        proof {
            use_type_invariant(self);
        }
        self.selected
    }

    /// The order of the list.
    pub fn sorting(&self) -> (r: Sorting)
        ensures
            r == self.sorting_spec(),
    {
        self.sorting
    }

    /// Whether the list is in reverse order.
    pub fn reverse_sort(&self) -> (r: bool)
        ensures
            r == self.reversed_spec(),
    {
        self.reverse_sort
    }

    /// The selected file, if any.
    pub fn selected_file(&self) -> (r: Option<&FileInfo>)
        ensures
            r is Some == self.selected_spec() is Some,
            r is Some ==> *r->0 == self.files_spec()[self.selected_spec()->0 as int],
    {
        proof {
            use_type_invariant(self);
        }
        match self.selected {
            Some(i) => Some(&self.files[i]),
            None => None,
        }
    }

    /// The names of the files, in the order listed.
    pub fn file_names(&self) -> (r: Vec<String>)
        ensures
            r@.len() == self.files_spec().len(),
            forall|k: int| 0 <= k < r@.len() ==> #[trigger] r@[k]@ == self.files_spec()[k].name@,
    {
        let mut r: Vec<String> = Vec::new();
        let mut k: usize = 0;
        while k < self.files.len()
            invariant
                k <= self.files@.len(),
                r@.len() == k,
                forall|m: int| 0 <= m < k ==> #[trigger] r@[m]@ == self.files@[m].name@,
            decreases self.files@.len() - k,
        {
            r.push(self.files[k].name.clone());
            k += 1;
        }
        r
    }

    /// Selects the file at `index`, or nothing.
    pub fn update_selection(&mut self, index: Option<usize>)
        requires
            index matches Some(i) ==> i < old(self).files_spec().len(),
        ensures
            final(self).selected_spec() == index,
            final(self).files_spec() == old(self).files_spec(),
            final(self).sorting_spec() == old(self).sorting_spec(),
            final(self).reversed_spec() == old(self).reversed_spec(),
    {
        self.selected = index;
    }
}

/// The files of `v` in the opposite order.
fn reverse_files(v: &mut Vec<FileInfo>)
    ensures
        final(v)@.len() == old(v)@.len(),
        forall|k: int| 0 <= k < final(v)@.len() ==> #[trigger] final(v)@[k] == old(v)@[old(v)@.len() - 1 - k],
        final(v)@.to_multiset() == old(v)@.to_multiset(),
{
    let ghost orig = old(v)@;
    let mut out: Vec<FileInfo> = Vec::new();
    while v.len() > 0
        invariant
            out@.len() + v@.len() == orig.len(),
            v@ == orig.take(v@.len() as int),
            forall|k: int| 0 <= k < out@.len() ==> #[trigger] out@[k] == orig[orig.len() - 1 - k],
            out@.to_multiset().add(v@.to_multiset()) == orig.to_multiset(),
        decreases v@.len(),
    {
        let ghost before = v@;
        let x = v.pop().unwrap();
        proof {
            assert(before.drop_last() == v@);
            vstd::seq_lib::to_multiset_remove(before, before.len() - 1);
            assert(before.remove(before.len() - 1) =~= v@);
            assert(v@ =~= orig.take(v@.len() as int));
        }
        out.push(x);
        assert(out@.to_multiset().add(v@.to_multiset()) =~= orig.to_multiset());
    }
    assert(v@.to_multiset() =~= vstd::multiset::Multiset::empty());
    assert(out@.to_multiset() =~= orig.to_multiset());
    *v = out;
}

impl State {
    /// Puts the files in the order of the list, and keeps the selected file
    /// selected (the file with the same path).
    pub fn update_sort(&mut self)
        ensures
            relisted(*old(self), *final(self)),
            final(self).sorting_spec() == old(self).sorting_spec(),
            final(self).reversed_spec() == old(self).reversed_spec(),
    {
        proof {
            use_type_invariant(&*self);
        }
        let ghost old_files = self.files@;
        let ghost old_sel = self.selected;
        let previous = self.selected;
        self.selected = None;
        let mut files: Vec<FileInfo> = Vec::new();
        core::mem::swap(&mut files, &mut self.files);
        let target: Option<String> = match previous {
            Some(i) => Some(files[i].path.clone()),
            None => None,
        };
        let ghost picked = match previous {
            Some(i) => old_files[i as int],
            None => old_files[0],
        };
        sort_files(&mut files, &self.sorting);
        let ghost after_sort = files@;
        if self.reverse_sort {
            reverse_files(&mut files);
            proof {
                if self.sorting != Sorting::Natural {
                    assert forall|k: int| 0 <= k < files@.len() - 1 implies #[trigger] file_order(
                        files@[k + 1],
                        files@[k],
                        self.sorting,
                    ) != Ordering::Greater by {
                        let j = files@.len() - 2 - k;
                        assert(files@[k + 1] == after_sort[j]);
                        assert(files@[k] == after_sort[j + 1]);
                        assert(file_order(after_sort[j], after_sort[j + 1], self.sorting) != Ordering::Greater);
                    }
                }
                assert(files@.reverse() =~= after_sort);
            }
        }
        let mut found: Option<usize> = None;
        if let Some(path) = target {
            proof {
                assert(old_files.contains(picked));
                vstd::seq_lib::to_multiset_contains(old_files, picked);
                vstd::seq_lib::to_multiset_contains(files@, picked);
                assert(files@.contains(picked));
            }
            let mut k: usize = 0;
            while k < files.len()
                invariant_except_break
                    found is None,
                invariant
                    k <= files@.len(),
                    files@.contains(picked),
                    path@ == picked.path@,
                    forall|m: int| 0 <= m < k ==> #[trigger] files@[m].path@ != path@,
                    found matches Some(f) ==> f < files@.len() && files@[f as int].path@ == path@,
                ensures
                    found is None ==> forall|m: int| 0 <= m < files@.len() ==> #[trigger] files@[m].path@ != path@,
                    found matches Some(f) ==> f < files@.len() && files@[f as int].path@ == path@,
                decreases files@.len() - k,
            {
                if files[k].path == path {
                    found = Some(k);
                    break;
                }
                k += 1;
            }
            proof {
                if found is None {
                    let w = choose|w: int| 0 <= w < files@.len() && files@[w] == picked;
                    assert(files@[w].path@ == path@);
                }
            }
        }
        self.files = files;
        self.selected = found;
    }
}

impl State {
    /// Lists `files` in place of the current ones, in the order of the list.
    /// The selection stays at its index (the last file, if the list is now
    /// shorter) and then follows that file as it is sorted; an empty list
    /// has nothing selected.
    pub fn set_files(&mut self, files: Vec<FileInfo>)
        ensures
            final(self).files_spec().to_multiset() == files@.to_multiset(),
            final(self).sorting_spec() != Sorting::Natural ==> ordered(
                final(self).files_spec(),
                final(self).sorting_spec(),
                final(self).reversed_spec(),
            ),
            final(self).sorting_spec() != Sorting::Natural ==> arranged(
                files@,
                final(self).files_spec(),
                final(self).sorting_spec(),
                final(self).reversed_spec(),
            ),
            final(self).sorting_spec() == old(self).sorting_spec(),
            final(self).reversed_spec() == old(self).reversed_spec(),
            (final(self).selected_spec() is Some) == (files@.len() > 0 && old(self).selected_spec() is Some),
            files@.len() > 0 && old(self).selected_spec() is Some ==> {
                let i = old(self).selected_spec()->0 as int;
                let kept = if i < files@.len() { i } else { files@.len() - 1 };
                final(self).files_spec()[final(self).selected_spec()->0 as int].path@ == files@[kept].path@
            },
    {
        let len = files.len();
        let keep = match self.selected {
            Some(i) => if len == 0 {
                None
            } else if i < len {
                Some(i)
            } else {
                Some(len - 1)
            },
            None => None,
        };
        self.selected = None;
        self.files = files;
        self.selected = keep;
        self.update_sort();
    }

    /// Sets the order of the list to `sorting` and reorders it.
    pub fn sort_by(&mut self, sorting: Sorting)
        ensures
            final(self).sorting_spec() == sorting,
            final(self).reversed_spec() == old(self).reversed_spec(),
            relisted(*old(self), *final(self)),
    {
        proof {
            use_type_invariant(&*self);
        }
        self.sorting = sorting;
        self.update_sort();
    }
}

/// Moves the selection down by `count` (see [`down_to`]).
pub fn selection_down(state: &mut State, count: usize)
    ensures
        final(state).files_spec() == old(state).files_spec(),
        final(state).sorting_spec() == old(state).sorting_spec(),
        final(state).reversed_spec() == old(state).reversed_spec(),
        sel_of(final(state).selected_spec()) == down_to(
            old(state).files_spec().len() as int,
            sel_of(old(state).selected_spec()),
            count as int,
        ),
{
    proof {
        use_type_invariant(&*state);
    }
    let len = state.files.len();
    if len == 0 {
        return;
    }
    let last = len - 1;
    let c = if count == 0 { 1 } else { count };
    let target = match state.selected {
        None => 0,
        Some(i) => if c > last - i {
            last
        } else {
            i + c
        },
    };
    state.update_selection(Some(target));
}

/// Moves the selection up by `count` (see [`up_to`]).
pub fn selection_up(state: &mut State, count: usize)
    ensures
        final(state).files_spec() == old(state).files_spec(),
        final(state).sorting_spec() == old(state).sorting_spec(),
        final(state).reversed_spec() == old(state).reversed_spec(),
        sel_of(final(state).selected_spec()) == up_to(
            old(state).files_spec().len() as int,
            sel_of(old(state).selected_spec()),
            count as int,
        ),
{
    proof {
        use_type_invariant(&*state);
    }
    let len = state.files.len();
    if len == 0 {
        return;
    }
    let c = if count == 0 { 1 } else { count };
    let target = match state.selected {
        None => len - 1,
        Some(i) => if c > i {
            0
        } else {
            i - c
        },
    };
    state.update_selection(Some(target));
}

/// Selects line `count` from the top (see [`top_to`]).
pub fn selection_top(state: &mut State, count: usize)
    ensures
        final(state).files_spec() == old(state).files_spec(),
        final(state).sorting_spec() == old(state).sorting_spec(),
        final(state).reversed_spec() == old(state).reversed_spec(),
        sel_of(final(state).selected_spec()) == top_to(
            old(state).files_spec().len() as int,
            sel_of(old(state).selected_spec()),
            count as int,
        ),
{
    let len = state.files.len();
    if len == 0 {
        return;
    }
    let last = len - 1;
    let n = if count == 0 { 0 } else { count - 1 };
    let target = if n > last { last } else { n };
    state.update_selection(Some(target));
}

/// Selects line `count` from the bottom (see [`bottom_to`]).
pub fn selection_bottom(state: &mut State, count: usize)
    ensures
        final(state).files_spec() == old(state).files_spec(),
        final(state).sorting_spec() == old(state).sorting_spec(),
        final(state).reversed_spec() == old(state).reversed_spec(),
        sel_of(final(state).selected_spec()) == bottom_to(
            old(state).files_spec().len() as int,
            sel_of(old(state).selected_spec()),
            count as int,
        ),
{
    let len = state.files.len();
    if len == 0 {
        return;
    }
    let last = len - 1;
    let n = if count == 0 { 0 } else { count - 1 };
    let target = if n > last { 0 } else { last - n };
    state.update_selection(Some(target));
}

/// Lists the files by name.
pub fn sort_by_name(state: &mut State)
    ensures
        final(state).sorting_spec() == Sorting::Name,
        final(state).reversed_spec() == old(state).reversed_spec(),
        relisted(*old(state), *final(state)),
{
    state.sort_by(Sorting::Name);
}

/// Lists the files by creation time.
pub fn sort_by_ctime(state: &mut State)
    ensures
        final(state).sorting_spec() == Sorting::Ctime,
        final(state).reversed_spec() == old(state).reversed_spec(),
        relisted(*old(state), *final(state)),
{
    state.sort_by(Sorting::Ctime);
}

/// Lists the files by modification time.
pub fn sort_by_mtime(state: &mut State)
    ensures
        final(state).sorting_spec() == Sorting::Mtime,
        final(state).reversed_spec() == old(state).reversed_spec(),
        relisted(*old(state), *final(state)),
{
    state.sort_by(Sorting::Mtime);
}

/// Lists the files by size.
pub fn sort_by_size(state: &mut State)
    ensures
        final(state).sorting_spec() == Sorting::Size,
        final(state).reversed_spec() == old(state).reversed_spec(),
        relisted(*old(state), *final(state)),
{
    state.sort_by(Sorting::Size);
}

/// Lists the files by name in natural order.
pub fn sort_by_natural(state: &mut State)
    ensures
        final(state).sorting_spec() == Sorting::Natural,
        final(state).reversed_spec() == old(state).reversed_spec(),
        relisted(*old(state), *final(state)),
{
    state.sort_by(Sorting::Natural);
}

/// Turns the list around and flips its direction; the selected file stays
/// selected.
pub fn reverse_sort(state: &mut State)
    ensures
        final(state).sorting_spec() == old(state).sorting_spec(),
        final(state).reversed_spec() == !old(state).reversed_spec(),
        final(state).files_spec().len() == old(state).files_spec().len(),
        forall|k: int|
            0 <= k < final(state).files_spec().len() ==> #[trigger] final(state).files_spec()[k]
                == old(state).files_spec()[old(state).files_spec().len() - 1 - k],
        sel_of(final(state).selected_spec()) == match sel_of(old(state).selected_spec()) {
            Some(i) => Some(old(state).files_spec().len() - 1 - i),
            None => None::<int>,
        },
        ordered(old(state).files_spec(), old(state).sorting_spec(), old(state).reversed_spec())
            ==> ordered(final(state).files_spec(), final(state).sorting_spec(), final(state).reversed_spec()),
{
    proof {
        use_type_invariant(&*state);
    }
    let ghost before = state.files@;
    let previous = state.selected;
    state.selected = None;
    let mut files: Vec<FileInfo> = Vec::new();
    core::mem::swap(&mut files, &mut state.files);
    reverse_files(&mut files);
    let len = files.len();
    state.files = files;
    state.reverse_sort = !state.reverse_sort;
    match previous {
        Some(i) => state.selected = Some(len - 1 - i),
        None => {},
    }
    proof {
        let after = state.files@;
        let s = state.sorting;
        if ordered(before, s, !state.reverse_sort) {
            if state.reverse_sort {
                assert forall|k: int| 0 <= k < after.len() - 1 implies #[trigger] file_order(after[k + 1], after[k], s)
                    != Ordering::Greater by {
                    let j = after.len() - 2 - k;
                    assert(after[k + 1] == before[j] && after[k] == before[j + 1]);
                    assert(file_order(before[j], before[j + 1], s) != Ordering::Greater);
                }
            } else {
                assert forall|k: int| 0 <= k < after.len() - 1 implies #[trigger] file_order(after[k], after[k + 1], s)
                    != Ordering::Greater by {
                    let j = after.len() - 2 - k;
                    assert(after[k + 1] == before[j] && after[k] == before[j + 1]);
                    assert(file_order(before[j + 1], before[j], s) != Ordering::Greater);
                }
            }
        }
    }
}

/// What is left to do outside, after a command changed the state.
#[derive(PartialEq, Eq, Structural, Clone, Copy, Debug)]
pub enum Effect {
    /// Nothing.
    Nothing,
    /// Show the contents of the selected file, which may have changed.
    ShowSelected,
    /// Open the selected file, if any, in the editor, then list the directory
    /// again.
    OpenSelected,
    /// Open the note dated `offset` days from today in the editor, then list
    /// the directory again.
    OpenNote { offset: i64 },
}

/// Carries out `action` with the repeat count `count` (0 when none was
/// typed): moves the selection or reorders the list, and says what is left to
/// do outside.
pub fn apply(state: &mut State, action: Action, count: usize) -> (r: Effect)
    requires
        count <= i64::MAX,
    ensures
        final(state).reversed_spec() == (old(state).reversed_spec() != (action == Action::ReverseSort)),
        match action {
            Action::SelectionDown => r == Effect::ShowSelected && final(state).files_spec() == old(state).files_spec()
                && final(state).sorting_spec() == old(state).sorting_spec()
                && sel_of(final(state).selected_spec()) == down_to(
                old(state).files_spec().len() as int,
                sel_of(old(state).selected_spec()),
                count as int,
            ),
            Action::SelectionUp => r == Effect::ShowSelected && final(state).files_spec() == old(state).files_spec()
                && final(state).sorting_spec() == old(state).sorting_spec()
                && sel_of(final(state).selected_spec()) == up_to(
                old(state).files_spec().len() as int,
                sel_of(old(state).selected_spec()),
                count as int,
            ),
            Action::SelectionTop => r == Effect::ShowSelected && final(state).files_spec() == old(state).files_spec()
                && final(state).sorting_spec() == old(state).sorting_spec()
                && sel_of(final(state).selected_spec()) == top_to(
                old(state).files_spec().len() as int,
                sel_of(old(state).selected_spec()),
                count as int,
            ),
            Action::SelectionBottom => r == Effect::ShowSelected && final(state).files_spec() == old(state).files_spec()
                && final(state).sorting_spec() == old(state).sorting_spec()
                && sel_of(final(state).selected_spec()) == bottom_to(
                old(state).files_spec().len() as int,
                sel_of(old(state).selected_spec()),
                count as int,
            ),
            Action::SortByName => r == Effect::Nothing && final(state).sorting_spec() == Sorting::Name
                && relisted(*old(state), *final(state)),
            Action::SortByCtime => r == Effect::Nothing && final(state).sorting_spec() == Sorting::Ctime
                && relisted(*old(state), *final(state)),
            Action::SortByMtime => r == Effect::Nothing && final(state).sorting_spec() == Sorting::Mtime
                && relisted(*old(state), *final(state)),
            Action::SortBySize => r == Effect::Nothing && final(state).sorting_spec() == Sorting::Size
                && relisted(*old(state), *final(state)),
            Action::SortByNatural => r == Effect::Nothing && final(state).sorting_spec() == Sorting::Natural
                && relisted(*old(state), *final(state)),
            Action::ReverseSort => r == Effect::Nothing && final(state).sorting_spec() == old(state).sorting_spec()
                && final(state).files_spec().len() == old(state).files_spec().len()
                && (forall|k: int| 0 <= k < final(state).files_spec().len() ==> #[trigger] final(state).files_spec()[k]
                    == old(state).files_spec()[old(state).files_spec().len() - 1 - k]),
            Action::OpenSelected => r == Effect::OpenSelected && *final(state) == *old(state),
            Action::OpenRelDateFwd => r is OpenNote && r->offset == count as int && *final(state) == *old(state),
            Action::OpenRelDateBwd => r is OpenNote && r->offset == -(count as int) && *final(state) == *old(state),
            Action::Nothing => r == Effect::Nothing && *final(state) == *old(state),
        },
{
    match action {
        Action::SelectionDown => {
            selection_down(state, count);
            Effect::ShowSelected
        },
        Action::SelectionUp => {
            selection_up(state, count);
            Effect::ShowSelected
        },
        Action::SelectionTop => {
            selection_top(state, count);
            Effect::ShowSelected
        },
        Action::SelectionBottom => {
            selection_bottom(state, count);
            Effect::ShowSelected
        },
        Action::SortByName => {
            sort_by_name(state);
            Effect::Nothing
        },
        Action::SortByCtime => {
            sort_by_ctime(state);
            Effect::Nothing
        },
        Action::SortByMtime => {
            sort_by_mtime(state);
            Effect::Nothing
        },
        Action::SortBySize => {
            sort_by_size(state);
            Effect::Nothing
        },
        Action::SortByNatural => {
            sort_by_natural(state);
            Effect::Nothing
        },
        Action::ReverseSort => {
            reverse_sort(state);
            Effect::Nothing
        },
        Action::OpenSelected => Effect::OpenSelected,
        Action::OpenRelDateFwd => Effect::OpenNote { offset: count as i64 },
        Action::OpenRelDateBwd => Effect::OpenNote { offset: -(count as i64) },
        Action::Nothing => Effect::Nothing,
    }
}

} // verus!
