use vstd::prelude::*;

verus! {

/// A named, ordered sequence of shell commands with the time it was last used
/// (seconds since the epoch).
#[derive(Debug)]
pub struct Combo {
    pub name: String,
    pub commands: Vec<String>,
    pub last_used: i64,
}

/// What a combo is: its name as characters, its commands, its time stamp.
pub struct ComboView {
    pub name: Seq<char>,
    pub commands: Seq<String>,
    pub last_used: i64,
}

impl View for Combo {
    type V = ComboView;

    open spec fn view(&self) -> ComboView {
        ComboView { name: self.name@, commands: self.commands@, last_used: self.last_used }
    }
}

/// The views of a list of combos.
pub open spec fn views(cs: Seq<Combo>) -> Seq<ComboView> {
    cs.map_values(|c: Combo| c@)
}

/// The characters of each string of a list.
pub open spec fn texts(v: Seq<String>) -> Seq<Seq<char>> {
    v.map_values(|s: String| s@)
}

/// The ways a finished stack of commands can be kept.
#[derive(Debug, Clone, Copy, PartialEq, Eq, Structural)]
pub enum SaveOption {
    Edit,
    SaveAsScript,
    SaveAsFunction,
    SaveAsCombo,
}

/// Copies a list of strings, keeping every element.
pub fn copy_strings(v: &Vec<String>) -> (r: Vec<String>)
    ensures
        r@ == v@,
{
    let mut r: Vec<String> = Vec::new();
    let mut i: usize = 0;
    while i < v.len()
        invariant
            i <= v.len(),
            r@ == v@.take(i as int),
        decreases v.len() - i,
    {
        r.push(v[i].clone());
        i += 1;
        assert(r@ =~= v@.take(i as int));
    }
    assert(v@.take(i as int) =~= v@);
    r
}

impl Combo {
    /// A field-for-field copy.
    pub fn duplicate(&self) -> (r: Combo)
        ensures
            r@ == self@,
    {
        Combo { name: self.name.clone(), commands: copy_strings(&self.commands), last_used: self.last_used }
    }
}

impl Clone for Combo {
    fn clone(&self) -> (r: Combo)
        ensures
            r@ == self@,
    {
        self.duplicate()
    }
}

} // verus!
