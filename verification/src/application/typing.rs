//! Formatting while typing.

use vstd::prelude::*;

use crate::text::same;

verus! {

/// The characters after which a language server formats.
#[derive(Debug)]
pub struct TypingTriggers {
    pub first: String,
    pub more: Option<Vec<String>>,
}

/// The character is one of those that formatting follows.
pub open spec fn is_trigger(triggers: TypingTriggers, c: char) -> bool {
    ||| triggers.first@ == seq![c]
    ||| triggers.more is Some && exists|i: int|
        0 <= i < triggers.more->0@.len() && (#[trigger] triggers.more->0@[i])@ == seq![c]
}

/// Whether formatting follows a character.
pub fn formats_after(triggers: &TypingTriggers, c: char) -> (b: bool)
    ensures
        b == is_trigger(*triggers, c),
{
    let mut typed = String::new();
    typed.push(c);
    assert(typed@ =~= seq![c]);
    if same(triggers.first.as_str(), typed.as_str()) {
        return true;
    }
    if let Some(more) = &triggers.more {
        let mut i: usize = 0;
        while i < more.len()
            invariant
                i <= more.len(),
                triggers.more == Some(*more),
                typed@ == seq![c],
                forall|k: int| 0 <= k < i ==> (#[trigger] more@[k])@ != seq![c],
            decreases more.len() - i,
        {
            if same(more[i].as_str(), typed.as_str()) {
                assert(triggers.more->0@[i as int]@ == seq![c]);
                return true;
            }
            i += 1;
        }
    }
    false
}

/// The edits that a server returns are made where there are any and the document is
/// still the one that they were made for.
pub fn applies(edits: Option<usize>, asked_version: i32, version: Option<i32>) -> (b: bool)
    ensures
        b == (edits is Some && edits->0 > 0 && version == Some(asked_version)),
{
    match edits {
        Some(n) => match version {
            Some(version) => n > 0 && version == asked_version,
            None => false,
        },
        None => false,
    }
}

} // verus!
