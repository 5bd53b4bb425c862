use vstd::prelude::*;
use crate::types::SaveOption;

verus! {

/// A key press as the save menu understands it.
#[derive(Debug, Clone, Copy, PartialEq, Eq, Structural)]
pub enum MenuKey {
    Up,
    Down,
    Enter,
    Escape,
    Other,
}

/// What the save menu asks for after a key.
#[derive(Debug, Clone, Copy, PartialEq, Eq, Structural)]
pub enum MenuStep {
    Continue,
    Chosen(SaveOption),
    Cancelled,
}

/// Number of entries of the save menu.
pub const MENU_LEN: usize = 4;

/// The entry of the save menu at a position, top first.
pub open spec fn option_at(i: int) -> SaveOption {
    if i == 0 {
        SaveOption::SaveAsCombo
    } else if i == 1 {
        SaveOption::SaveAsFunction
    } else if i == 2 {
        SaveOption::SaveAsScript
    } else {
        SaveOption::Edit
    }
}

/// The save menu: a cursor over its four entries.
pub struct SaveMenu {
    pub cursor: usize,
}

impl SaveMenu {
    pub open spec fn wf(&self) -> bool {
        self.cursor < MENU_LEN
    }

    /// A fresh menu, on its first entry.
    pub fn new() -> (r: SaveMenu)
        ensures
            r.wf(),
            r.cursor == 0,
    {
        SaveMenu { cursor: 0 }
    }

    /// The entry under the cursor.
    pub fn current(&self) -> (r: SaveOption)
        requires
            self.wf(),
        ensures
            r == option_at(self.cursor as int),
    {
        if self.cursor == 0 {
            SaveOption::SaveAsCombo
        } else if self.cursor == 1 {
            SaveOption::SaveAsFunction
        } else if self.cursor == 2 {
            SaveOption::SaveAsScript
        } else {
            SaveOption::Edit
        }
    }

    /// Applies one key: the cursor moves within the entries, Enter chooses
    /// the entry under it, Escape cancels.
    pub fn handle(&mut self, key: MenuKey) -> (step: MenuStep)
        requires
            old(self).wf(),
        ensures
            final(self).wf(),
            final(self).cursor == if key == MenuKey::Up && old(self).cursor > 0 {
                (old(self).cursor - 1) as usize
            } else if key == MenuKey::Down && old(self).cursor + 1 < MENU_LEN {
                (old(self).cursor + 1) as usize
            } else {
                old(self).cursor
            },
            step == match key {
                MenuKey::Enter => MenuStep::Chosen(option_at(old(self).cursor as int)),
                MenuKey::Escape => MenuStep::Cancelled,
                _ => MenuStep::Continue,
            },
    {
        match key {
            MenuKey::Up => {
                if self.cursor > 0 {
                    self.cursor -= 1;
                }
                MenuStep::Continue
            },
            MenuKey::Down => {
                if self.cursor + 1 < MENU_LEN {
                    self.cursor += 1;
                }
                MenuStep::Continue
            },
            MenuKey::Enter => MenuStep::Chosen(self.current()),
            MenuKey::Escape => MenuStep::Cancelled,
            MenuKey::Other => MenuStep::Continue,
        }
    }
}

} // verus!
