use vstd::prelude::*;
use fuzzy_matcher::FuzzyMatcher;
use crate::store::{by_recency, sort_by_recency};
use crate::text::{pop_char, push_char};
use crate::types::{Combo, ComboView, views};

verus! {

/// Whether the skim fuzzy matcher, with its default settings, finds
/// `pattern` in `choice` (gives it a score at all).
pub uninterp spec fn skim_match(choice: Seq<char>, pattern: Seq<char>) -> bool;

/// Relies on fuzzy_matcher's `SkimMatcherV2::fuzzy_match` under the default
/// settings: whether it returns a score depends on the two strings alone, and
/// an empty pattern always gets one.
#[verifier::external_body]
fn fuzzy_matches(choice: &str, pattern: &str) -> (r: bool)
    ensures
        r == skim_match(choice@, pattern@),
        pattern@.len() == 0 ==> r,
{
    fuzzy_matcher::skim::SkimMatcherV2::default().fuzzy_match(choice, pattern).is_some()
}

/// The combos whose name the pattern matches, in their order.
pub open spec fn matching(cs: Seq<ComboView>, pattern: Seq<char>) -> Seq<ComboView> {
    cs.filter(|c: ComboView| skim_match(c.name, pattern))
}

/// Copies of the combos whose name the pattern fuzzily matches, in order.
pub fn filter_combos(combos: &Vec<Combo>, pattern: &str) -> (r: Vec<Combo>)
    ensures
        views(r@) == matching(views(combos@), pattern@),
        pattern@.len() == 0 ==> views(r@) == views(combos@),
{
    let mut r: Vec<Combo> = Vec::new();
    let mut i: usize = 0;
    while i < combos.len()
        invariant
            i <= combos@.len(),
            views(r@) == matching(views(combos@).take(i as int), pattern@),
            pattern@.len() == 0 ==> views(r@) == views(combos@).take(i as int),
        decreases combos.len() - i,
    {
        let ghost before = views(combos@).take(i as int);
        assert(views(combos@).take(i + 1) =~= before.push(combos@[i as int]@));
        proof {
            before.lemma_filter_push(combos@[i as int]@, |c: ComboView| skim_match(c.name, pattern@));
        }
        if fuzzy_matches(combos[i].name.as_str(), pattern) {
            r.push(combos[i].duplicate());
        }
        i += 1;
        assert(views(r@) =~= matching(views(combos@).take(i as int), pattern@));
    }
    assert(views(combos@).take(i as int) =~= views(combos@));
    r
}

/// A key press as the combo picker understands it.
#[derive(Debug, Clone, Copy, PartialEq, Eq, Structural)]
pub enum PickerKey {
    Up,
    Down,
    Char(char),
    Backspace,
    Enter,
    Escape,
    Other,
}

/// What the combo picker asks for after a key: go on, or stop with the name
/// picked, if any.
#[derive(Debug)]
pub enum PickerStep {
    Continue,
    Done(Option<String>),
}

/// Picking a combo: all combos most recent first, the filter typed so far,
/// those the filter matches, and the highlighted one among them.
pub struct ComboPicker {
    pub combos: Vec<Combo>,
    pub filter: String,
    pub filtered: Vec<Combo>,
    pub highlighted: usize,
}

impl ComboPicker {
    pub open spec fn wf(&self) -> bool {
        &&& views(self.filtered@) == matching(views(self.combos@), self.filter@)
        &&& (self.highlighted == 0 || self.highlighted < self.filtered@.len())
        &&& (self.filter@.len() == 0 ==> views(self.filtered@) == views(self.combos@))
    }

    /// Starts with an empty filter over all combos, most recent first, the
    /// first one highlighted.
    pub fn new(combos: Vec<Combo>) -> (r: ComboPicker)
        ensures
            r.wf(),
            r.combos@ == by_recency(combos@),
            r.filter@.len() == 0,
            views(r.filtered@) == views(r.combos@),
            r.highlighted == 0,
    {
        let sorted = sort_by_recency(combos);
        let filter = String::new();
        let filtered = filter_combos(&sorted, filter.as_str());
        ComboPicker { combos: sorted, filter, filtered, highlighted: 0 }
    }

    fn refilter(&mut self)
        ensures
            final(self).wf(),
            final(self).combos == old(self).combos,
            final(self).filter == old(self).filter,
            final(self).highlighted == 0,
    {
        self.filtered = filter_combos(&self.combos, self.filter.as_str());
        self.highlighted = 0;
    }

    /// The name of the highlighted combo; none when the filter matches none.
    pub fn selected_name(&self) -> (r: Option<String>)
        requires
            self.wf(),
        ensures
            self.filtered@.len() == 0 <==> r is None,
            r matches Some(n) ==> n@ == self.filtered@[self.highlighted as int].name@,
    {
        if self.highlighted < self.filtered.len() {
            Some(self.filtered[self.highlighted].name.clone())
        } else {
            None
        }
    }

    /// The commands of the highlighted combo; none when the filter matches none.
    pub fn preview(&self) -> (r: Option<&Vec<String>>)
        requires
            self.wf(),
        ensures
            self.filtered@.len() == 0 <==> r is None,
            r matches Some(c) ==> c@ == self.filtered@[self.highlighted as int].commands@,
    {
        if self.highlighted < self.filtered.len() {
            Some(&self.filtered[self.highlighted].commands)
        } else {
            None
        }
    }

    /// Applies one key: the highlight moves within the matching combos; a
    /// character or a backspace changes the filter, filters anew and
    /// highlights the first match; Enter stops with the highlighted name,
    /// Escape with none.
    pub fn handle(&mut self, key: PickerKey) -> (step: PickerStep)
        requires
            old(self).wf(),
        ensures
            final(self).wf(),
            final(self).combos == old(self).combos,
            final(self).filter@ == match key {
                PickerKey::Char(c) => old(self).filter@.push(c),
                PickerKey::Backspace => if old(self).filter@.len() > 0 {
                    old(self).filter@.drop_last()
                } else {
                    old(self).filter@
                },
                _ => old(self).filter@,
            },
            final(self).highlighted == match key {
                PickerKey::Up => if old(self).highlighted > 0 {
                    (old(self).highlighted - 1) as usize
                } else {
                    old(self).highlighted
                },
                PickerKey::Down => if old(self).highlighted + 1 < old(self).filtered@.len() {
                    (old(self).highlighted + 1) as usize
                } else {
                    old(self).highlighted
                },
                PickerKey::Char(_) => 0,
                PickerKey::Backspace => 0,
                _ => old(self).highlighted,
            },
            key == PickerKey::Enter || key == PickerKey::Escape <==> step is Done,
            key == PickerKey::Escape ==> step == PickerStep::Done(None),
            key == PickerKey::Enter ==> (step matches PickerStep::Done(r) && (r is None <==> old(self).filtered@.len() == 0)
                && (r matches Some(n) ==> n@ == old(self).filtered@[old(self).highlighted as int].name@)),
    {
        match key {
            PickerKey::Up => {
                if self.highlighted > 0 {
                    self.highlighted -= 1;
                }
                PickerStep::Continue
            },
            PickerKey::Down => {
                let n = self.filtered.len();
                if self.highlighted + 1 < n {
                    self.highlighted += 1;
                }
                PickerStep::Continue
            },
            PickerKey::Char(c) => {
                push_char(&mut self.filter, c);
                self.refilter();
                PickerStep::Continue
            },
            PickerKey::Backspace => {
                pop_char(&mut self.filter);
                self.refilter();
                PickerStep::Continue
            },
            PickerKey::Enter => PickerStep::Done(self.selected_name()),
            PickerKey::Escape => PickerStep::Done(None),
            PickerKey::Other => PickerStep::Continue,
        }
    }
}

proof fn lemma_filter_none(cs: Seq<ComboView>, pattern: Seq<char>)
    requires
        forall|k: int| 0 <= k < cs.len() ==> !skim_match(#[trigger] cs[k].name, pattern),
    ensures
        matching(cs, pattern).len() == 0,
    decreases cs.len(),
{
    if cs.len() > 0 {
        let init = cs.drop_last();
        assert(cs =~= init.push(cs.last()));
        init.lemma_filter_push(cs.last(), |c: ComboView| skim_match(c.name, pattern));
        lemma_filter_none(init, pattern);
    } else {
        reveal(Seq::filter);
    }
}

proof fn lemma_filter_weaker(cs: Seq<ComboView>, longer: Seq<char>, shorter: Seq<char>)
    requires
        forall|k: int| 0 <= k < cs.len() && skim_match(#[trigger] cs[k].name, longer) ==> skim_match(cs[k].name, shorter),
    ensures
        matching(cs, longer).len() <= matching(cs, shorter).len(),
    decreases cs.len(),
{
    if cs.len() > 0 {
        let init = cs.drop_last();
        assert(cs =~= init.push(cs.last()));
        init.lemma_filter_push(cs.last(), |c: ComboView| skim_match(c.name, longer));
        init.lemma_filter_push(cs.last(), |c: ComboView| skim_match(c.name, shorter));
        assert forall|k: int| 0 <= k < init.len() && skim_match(#[trigger] init[k].name, longer) implies skim_match(init[k].name, shorter) by {
            assert(init[k] == cs[k]);
        }
        lemma_filter_weaker(init, longer, shorter);
    } else {
        reveal(Seq::filter);
    }
}

/// Filtering for a pattern that matches no combo name leaves nothing.
pub proof fn lemma_unmatched_pattern_leaves_none(cs: Seq<ComboView>, pattern: Seq<char>)
    requires
        forall|k: int| 0 <= k < cs.len() ==> !skim_match(#[trigger] cs[k].name, pattern),
    ensures
        matching(cs, pattern) == Seq::<ComboView>::empty(),
{
    lemma_filter_none(cs, pattern);
    assert(matching(cs, pattern) =~= Seq::<ComboView>::empty());
}

/// Typing one more character into the filter never lets more combos through,
/// for combos whose names the matcher, given the longer pattern, matches only
/// where it matches the shorter one.
pub proof fn lemma_longer_filter_no_larger(cs: Seq<ComboView>, pattern: Seq<char>, c: char)
    requires
        forall|k: int| 0 <= k < cs.len() && skim_match(#[trigger] cs[k].name, pattern.push(c))
            ==> skim_match(cs[k].name, pattern),
    ensures
        matching(cs, pattern.push(c)).len() <= matching(cs, pattern).len(),
{
    lemma_filter_weaker(cs, pattern.push(c), pattern);
}

} // verus!
