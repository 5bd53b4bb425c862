use vstd::prelude::*;
use crate::types::texts;

verus! {

broadcast use vstd::seq_lib::group_seq_properties;

/// A key press as the stack builder understands it.
#[derive(Debug, Clone, Copy, PartialEq, Eq, Structural)]
pub enum StackKey {
    Up,
    Down,
    ToggleMode,
    Remove,
    Add,
    Finalize,
    Cancel,
    Other,
}

/// What the stack builder asks for after a key.
#[derive(Debug)]
pub enum StackStep {
    Continue,
    Finished(Vec<String>),
    Cancelled,
}

/// The state of building a stack from a history (oldest first): a cursor, the
/// set of chosen indices as one flag per history entry, and whether moving
/// the cursor also chooses the entries it reaches.
pub struct StackBuilder {
    pub history: Vec<String>,
    pub cursor: usize,
    pub selected: Vec<bool>,
    pub selection_mode: bool,
}

/// The chosen indices of a flag list, in ascending order.
pub open spec fn picked_indices(mask: Seq<bool>) -> Seq<int>
    decreases mask.len(),
{
    if mask.len() == 0 {
        Seq::empty()
    } else {
        let r = picked_indices(mask.drop_last());
        if mask.last() {
            r.push(mask.len() - 1)
        } else {
            r
        }
    }
}

/// The history entries at the chosen indices, in history order.
pub open spec fn picked(history: Seq<String>, mask: Seq<bool>) -> Seq<String> {
    picked_indices(mask).map_values(|i: int| history[i])
}

/// `i` is the first index of the history holding its entry, and that entry
/// is one of `stack`.
pub open spec fn first_in_stack(history: Seq<String>, stack: Seq<String>, i: int) -> bool {
    &&& texts(stack).contains(history[i]@)
    &&& forall|j: int| 0 <= j < i ==> history[j]@ != history[i]@
}

/// The indices chosen when a builder starts: with a prior stack, the first
/// history index of each of its entries; if that is none, or without a prior
/// stack, the most recent entry.
pub open spec fn initial_choice(history: Seq<String>, initial_stack: Option<Vec<String>>) -> Set<int> {
    match initial_stack {
        Some(stack) => {
            let from_stack = Set::new(|i: int| 0 <= i < history.len() && first_in_stack(history, stack@, i));
            if from_stack.is_empty() {
                set![history.len() - 1]
            } else {
                from_stack
            }
        },
        None => set![history.len() - 1],
    }
}

impl StackBuilder {
    pub open spec fn wf(&self) -> bool {
        &&& self.history@.len() > 0
        &&& self.cursor < self.history@.len()
        &&& self.selected@.len() == self.history@.len()
    }

    /// The set of chosen indices.
    pub open spec fn chosen(&self) -> Set<int> {
        Set::new(|i: int| 0 <= i < self.selected@.len() && self.selected@[i])
    }

    /// Starts on the most recent entry, in selection mode. With a prior
    /// stack, the first history index of each of its entries is chosen; if
    /// that chooses nothing, or without one, the most recent entry is. An
    /// empty history gives no builder.
    pub fn new(history: Vec<String>, initial_stack: Option<Vec<String>>) -> (r: Option<StackBuilder>)
        ensures
            history@.len() == 0 <==> r is None,
            r matches Some(b) ==> b.wf() && b.history@ == history@ && b.selection_mode
                && b.cursor == history@.len() - 1,
            r matches Some(b) ==> b.chosen() == initial_choice(history@, initial_stack),
    {
        let n = history.len();
        if n == 0 {
            return None;
        }
        let cursor = n - 1;
        let mut selected: Vec<bool> = Vec::new();
        let mut any = false;
        let mut i: usize = 0;
        while i < n
            invariant
                n == history@.len(),
                i <= n,
                selected@.len() == i,
                forall|k: int| 0 <= k < i ==> selected@[k] == (initial_stack matches Some(stack)
                    && first_in_stack(history@, stack@, k)),
                any == exists|k: int| 0 <= k < i && #[trigger] selected@[k],
            decreases n - i,
        {
            let pick = match &initial_stack {
                Some(stack) => contains_string(stack, &history[i]) && first_occurrence(&history, i),
                None => false,
            };
            let ghost before = selected@;
            selected.push(pick);
            proof {
                assert(selected@[i as int] == pick);
                assert(forall|k: int| 0 <= k < i ==> selected@[k] == before[k]);
                if pick {
                    assert(selected@[i as int]);
                }
                if exists|k: int| 0 <= k < i + 1 && #[trigger] selected@[k] {
                    let k = choose|k: int| 0 <= k < i + 1 && #[trigger] selected@[k];
                    if k < i {
                        assert(before[k]);
                    }
                }
            }
            any = any || pick;
            i += 1;
        }
        if !any {
            selected[cursor] = true;
        }
        let b = StackBuilder { history, cursor, selected, selection_mode: true };
        proof {
            match initial_stack {
                Some(stack) => {
                    let from_stack = Set::new(|i: int| 0 <= i < b.history@.len()
                        && first_in_stack(b.history@, stack@, i));
                    assert(forall|k: int| 0 <= k < n && !(!any && k == cursor) ==>
                        b.selected@[k] == first_in_stack(history@, stack@, k));
                    if any {
                        let k = choose|k: int| 0 <= k < n && #[trigger] b.selected@[k];
                        assert(from_stack.contains(k));
                        assert(!from_stack.is_empty());
                        assert(b.chosen() =~= from_stack);
                    } else {
                        assert forall|k: int| !from_stack.contains(k) by {
                            if 0 <= k < b.history@.len() {
                                assert(!b.selected@[k] || k == cursor);
                            }
                        }
                        assert(from_stack =~= Set::empty());
                        assert(b.chosen() =~= set![cursor as int]);
                    }
                },
                None => {
                    assert(b.chosen() =~= set![cursor as int]);
                },
            }
        }
        Some(b)
    }

    /// Moves the cursor one entry up (towards older entries), if there is one;
    /// in selection mode the entry reached is chosen.
    pub fn move_up(&mut self)
        requires
            old(self).wf(),
        ensures
            final(self).wf(),
            final(self).history == old(self).history,
            final(self).selection_mode == old(self).selection_mode,
            final(self).cursor == if old(self).cursor > 0 { (old(self).cursor - 1) as usize } else { old(self).cursor },
            final(self).chosen() == if old(self).cursor > 0 && old(self).selection_mode {
                old(self).chosen().insert(old(self).cursor - 1)
            } else {
                old(self).chosen()
            },
    {
        if self.cursor > 0 {
            self.cursor -= 1;
            if self.selection_mode {
                self.choose_current();
            }
        }
        assert(final(self).chosen() =~= if old(self).cursor > 0 && old(self).selection_mode {
            old(self).chosen().insert(old(self).cursor - 1)
        } else {
            old(self).chosen()
        });
    }

    /// Moves the cursor one entry down (towards newer entries), if there is
    /// one; in selection mode the entry reached is chosen.
    pub fn move_down(&mut self)
        requires
            old(self).wf(),
        ensures
            final(self).wf(),
            final(self).history == old(self).history,
            final(self).selection_mode == old(self).selection_mode,
            final(self).cursor == if old(self).cursor + 1 < old(self).history@.len() {
                (old(self).cursor + 1) as usize
            } else {
                old(self).cursor
            },
            final(self).chosen() == if old(self).cursor + 1 < old(self).history@.len()
                && old(self).selection_mode {
                old(self).chosen().insert(old(self).cursor + 1)
            } else {
                old(self).chosen()
            },
    {
        if self.cursor < self.history.len() - 1 {
            self.cursor += 1;
            if self.selection_mode {
                self.choose_current();
            }
        }
        assert(final(self).chosen() =~= if old(self).cursor + 1 < old(self).history@.len()
            && old(self).selection_mode {
            old(self).chosen().insert(old(self).cursor + 1)
        } else {
            old(self).chosen()
        });
    }

    /// Flips selection mode; entering it chooses the entry under the cursor,
    /// leaving it drops that entry.
    pub fn toggle_mode(&mut self)
        requires
            old(self).wf(),
        ensures
            final(self).wf(),
            final(self).history == old(self).history,
            final(self).cursor == old(self).cursor,
            final(self).selection_mode == !old(self).selection_mode,
            final(self).chosen() == if final(self).selection_mode {
                old(self).chosen().insert(old(self).cursor as int)
            } else {
                old(self).chosen().remove(old(self).cursor as int)
            },
    {
        self.selection_mode = !self.selection_mode;
        if self.selection_mode {
            self.choose_current();
        } else {
            self.drop_current();
        }
    }

    /// Chooses the entry under the cursor, whatever the mode.
    pub fn choose_current(&mut self)
        requires
            old(self).wf(),
        ensures
            final(self).wf(),
            final(self).history == old(self).history,
            final(self).cursor == old(self).cursor,
            final(self).selection_mode == old(self).selection_mode,
            final(self).chosen() == old(self).chosen().insert(old(self).cursor as int),
    {
        let c = self.cursor;
        self.selected[c] = true;
        assert(final(self).chosen() =~= old(self).chosen().insert(old(self).cursor as int));
    }

    /// Drops the entry under the cursor from the choice, whatever the mode.
    pub fn drop_current(&mut self)
        requires
            old(self).wf(),
        ensures
            final(self).wf(),
            final(self).history == old(self).history,
            final(self).cursor == old(self).cursor,
            final(self).selection_mode == old(self).selection_mode,
            final(self).chosen() == old(self).chosen().remove(old(self).cursor as int),
    {
        let c = self.cursor;
        self.selected[c] = false;
        assert(final(self).chosen() =~= old(self).chosen().remove(old(self).cursor as int));
    }

    /// The chosen entries in history order, whatever order they were chosen in.
    pub fn finalize(&self) -> (r: Vec<String>)
        requires
            self.wf(),
        ensures
            r@ == picked(self.history@, self.selected@),
    {
        let mut r: Vec<String> = Vec::new();
        let mut i: usize = 0;
        while i < self.selected.len()
            invariant
                self.wf(),
                i <= self.selected@.len(),
                r@ == picked(self.history@, self.selected@.take(i as int)),
            decreases self.selected.len() - i,
        {
            assert(self.selected@.take(i + 1).drop_last() =~= self.selected@.take(i as int));
            if self.selected[i] {
                r.push(self.history[i].clone());
            }
            i += 1;
            proof {
                lemma_picked_indices_bound(self.selected@.take(i as int));
            }
            assert(r@ =~= picked(self.history@, self.selected@.take(i as int)));
        }
        assert(self.selected@.take(i as int) =~= self.selected@);
        r
    }

    /// Where the cursor stands after a key.
    pub open spec fn cursor_after(&self, key: StackKey) -> usize {
        if key == StackKey::Up && self.cursor > 0 {
            (self.cursor - 1) as usize
        } else if key == StackKey::Down && self.cursor + 1 < self.history@.len() {
            (self.cursor + 1) as usize
        } else {
            self.cursor
        }
    }

    /// Whether selection mode is on after a key.
    pub open spec fn mode_after(&self, key: StackKey) -> bool {
        if key == StackKey::ToggleMode {
            !self.selection_mode
        } else {
            self.selection_mode
        }
    }

    /// The chosen indices after a key.
    pub open spec fn chosen_after(&self, key: StackKey) -> Set<int> {
        let c = self.cursor as int;
        match key {
            StackKey::Up => if c > 0 && self.selection_mode {
                self.chosen().insert(c - 1)
            } else {
                self.chosen()
            },
            StackKey::Down => if c + 1 < self.history@.len() && self.selection_mode {
                self.chosen().insert(c + 1)
            } else {
                self.chosen()
            },
            StackKey::ToggleMode => if self.selection_mode {
                self.chosen().remove(c)
            } else {
                self.chosen().insert(c)
            },
            StackKey::Remove => self.chosen().remove(c),
            StackKey::Add => self.chosen().insert(c),
            _ => self.chosen(),
        }
    }

    /// Applies one key: moves, changes the choice, finishes with the chosen
    /// entries in history order, or cancels.
    pub fn handle(&mut self, key: StackKey) -> (step: StackStep)
        requires
            old(self).wf(),
        ensures
            final(self).wf(),
            final(self).history == old(self).history,
            key == StackKey::Finalize <==> step is Finished,
            key == StackKey::Cancel <==> step is Cancelled,
            step matches StackStep::Finished(s) ==> s@ == picked(old(self).history@, old(self).selected@),
            final(self).cursor == old(self).cursor_after(key),
            final(self).chosen() == old(self).chosen_after(key),
            final(self).selection_mode == old(self).mode_after(key),
    {
        match key {
            StackKey::Up => {
                self.move_up();
                StackStep::Continue
            },
            StackKey::Down => {
                self.move_down();
                StackStep::Continue
            },
            StackKey::ToggleMode => {
                self.toggle_mode();
                StackStep::Continue
            },
            StackKey::Remove => {
                self.drop_current();
                StackStep::Continue
            },
            StackKey::Add => {
                self.choose_current();
                StackStep::Continue
            },
            StackKey::Finalize => StackStep::Finished(self.finalize()),
            StackKey::Cancel => StackStep::Cancelled,
            StackKey::Other => StackStep::Continue,
        }
    }
}

proof fn lemma_picked_indices_bound(mask: Seq<bool>)
    ensures
        forall|k: int| 0 <= k < picked_indices(mask).len() ==> 0 <= #[trigger] picked_indices(mask)[k] < mask.len(),
    decreases mask.len(),
{
    if mask.len() > 0 {
        let r = picked_indices(mask.drop_last());
        lemma_picked_indices_bound(mask.drop_last());
        assert forall|k: int| 0 <= k < picked_indices(mask).len() implies 0 <= #[trigger] picked_indices(mask)[k] < mask.len() by {
            if k < r.len() {
                assert(picked_indices(mask)[k] == r[k]);
            }
        }
    }
}

/// Whether `s` is one of the strings of `v`.
pub fn contains_string(v: &Vec<String>, s: &String) -> (r: bool)
    ensures
        r == texts(v@).contains(s@),
{
    let mut i: usize = 0;
    while i < v.len()
        invariant
            i <= v.len(),
            forall|k: int| 0 <= k < i ==> v@[k]@ != s@,
        decreases v.len() - i,
    {
        if v[i] == *s {
            assert(texts(v@)[i as int] == s@);
            return true;
        }
        i += 1;
    }
    false
}

/// Whether no entry before `i` equals entry `i`.
fn first_occurrence(v: &Vec<String>, i: usize) -> (r: bool)
    requires
        i < v@.len(),
    ensures
        r == forall|j: int| 0 <= j < i ==> v@[j]@ != v@[i as int]@,
{
    let mut j: usize = 0;
    while j < i
        invariant
            i < v@.len(),
            j <= i,
            forall|k: int| 0 <= k < j ==> v@[k]@ != v@[i as int]@,
        decreases i - j,
    {
        if v[j] == v[i] {
            return false;
        }
        j += 1;
    }
    true
}

proof fn lemma_picked_indices(mask: Seq<bool>)
    ensures
        forall|a: int, b: int| 0 <= a < b < picked_indices(mask).len()
            ==> #[trigger] picked_indices(mask)[a] < #[trigger] picked_indices(mask)[b],
        forall|i: int| #[trigger] picked_indices(mask).contains(i) <==> 0 <= i < mask.len() && mask[i],
    decreases mask.len(),
{
    lemma_picked_indices_bound(mask);
    if mask.len() > 0 {
        let r = picked_indices(mask.drop_last());
        let p = picked_indices(mask);
        lemma_picked_indices(mask.drop_last());
        lemma_picked_indices_bound(mask.drop_last());
        assert forall|i: int| p.contains(i) <==> 0 <= i < mask.len() && mask[i] by {
            if p.contains(i) {
                let k = choose|k: int| 0 <= k < p.len() && p[k] == i;
                if k < r.len() {
                    assert(r[k] == i);
                    assert(r.contains(i));
                    assert(mask.drop_last()[i]);
                } else {
                    assert(mask.last());
                    assert(i == mask.len() - 1);
                }
            }
            if 0 <= i < mask.len() && mask[i] {
                if i < mask.len() - 1 {
                    assert(mask.drop_last()[i]);
                    let k = choose|k: int| 0 <= k < r.len() && r[k] == i;
                    assert(p[k] == i);
                } else {
                    assert(p[p.len() - 1] == i);
                }
            }
        }
        assert forall|a: int, b: int| 0 <= a < b < p.len() implies #[trigger] p[a] < #[trigger] p[b] by {
            if b < r.len() {
                assert(p[a] == r[a] && p[b] == r[b]);
            } else {
                assert(p[a] == r[a]);
            }
        }
    }
}

/// Finishing a stack yields the chosen entries in ascending history order,
/// whatever order they were chosen in: the result is the history entries at
/// a strictly increasing list of indices, and those indices are exactly the
/// chosen ones.
pub proof fn lemma_finalize_in_history_order(b: StackBuilder)
    requires
        b.wf(),
    ensures
        picked(b.history@, b.selected@) == picked_indices(b.selected@).map_values(|i: int| b.history@[i]),
        forall|x: int, y: int| 0 <= x < y < picked_indices(b.selected@).len()
            ==> #[trigger] picked_indices(b.selected@)[x] < #[trigger] picked_indices(b.selected@)[y],
        picked_indices(b.selected@).to_set() == b.chosen(),
{
    lemma_picked_indices(b.selected@);
    assert forall|i: int| picked_indices(b.selected@).to_set().contains(i) <==> b.chosen().contains(i) by {
        assert(picked_indices(b.selected@).contains(i) <==> 0 <= i < b.selected@.len() && b.selected@[i]);
    }
    assert(picked_indices(b.selected@).to_set() =~= b.chosen());
}

} // verus!
