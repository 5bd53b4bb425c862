use vstd::prelude::*;
use crate::text::{pop_char, push_char};

verus! {

/// A key press as the text prompt understands it.
#[derive(Debug, Clone, Copy, PartialEq, Eq, Structural)]
pub enum PromptKey {
    Char(char),
    Backspace,
    Enter,
    Escape,
    Other,
}

/// What the text prompt asks for after a key. A blank entry and an escape
/// are told apart, so that a caller can read the first as "use the default"
/// and the second as "declined".
#[derive(Debug)]
pub enum PromptStep {
    Continue,
    Submitted(String),
    SubmittedBlank,
    Escaped,
}

/// A single line of text being typed.
pub struct TextPrompt {
    pub input: String,
}

impl TextPrompt {
    /// An empty prompt.
    pub fn new() -> (r: TextPrompt)
        ensures
            r.input@.len() == 0,
    {
        TextPrompt { input: String::new() }
    }

    /// Applies one key: a character is appended, Backspace takes the last one
    /// off, Enter submits what was typed (or reports a blank entry), Escape
    /// gives up.
    pub fn handle(&mut self, key: PromptKey) -> (step: PromptStep)
        ensures
            final(self).input@ == match key {
                PromptKey::Char(c) => old(self).input@.push(c),
                PromptKey::Backspace => if old(self).input@.len() > 0 {
                    old(self).input@.drop_last()
                } else {
                    old(self).input@
                },
                _ => old(self).input@,
            },
            key == PromptKey::Enter && old(self).input@.len() > 0 <==> step is Submitted,
            step matches PromptStep::Submitted(s) ==> s@ == old(self).input@,
            key == PromptKey::Enter && old(self).input@.len() == 0 <==> step is SubmittedBlank,
            key == PromptKey::Escape <==> step is Escaped,
    {
        match key {
            PromptKey::Char(c) => {
                push_char(&mut self.input, c);
                PromptStep::Continue
            },
            PromptKey::Backspace => {
                pop_char(&mut self.input);
                PromptStep::Continue
            },
            PromptKey::Enter => {
                if self.input.unicode_len() == 0 {
                    PromptStep::SubmittedBlank
                } else {
                    PromptStep::Submitted(self.input.clone())
                }
            },
            PromptKey::Escape => PromptStep::Escaped,
            PromptKey::Other => PromptStep::Continue,
        }
    }
}

} // verus!
