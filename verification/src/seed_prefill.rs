//! The seed-weight field on the sow sheet. A proposal fills the field until
//! the grower types in it; from then on the grower's value wins, also when
//! the tray count changes.

use vstd::prelude::*;
use crate::text::{trim, trim_seq};

verus! {

#[derive(Debug)]
pub struct SeedFieldState {
    pub value: String,
    pub dirty: bool,
}

impl SeedFieldState {
    /// A field showing a fresh proposal (empty when there is none).
    pub fn with_proposal(proposal: String) -> (r: SeedFieldState)
        ensures
            r.value@ == proposal@,
            !r.dirty,
    {
        SeedFieldState { value: proposal, dirty: false }
    }

    /// The proposal's inputs changed: the new proposal replaces the value only
    /// while the grower has not typed in the field.
    pub fn on_proposal_changed(&mut self, proposal: String)
        ensures
            old(self).dirty ==> final(self).value@ == old(self).value@ && final(self).dirty,
            !old(self).dirty ==> final(self).value@ == proposal@ && !final(self).dirty,
    {
        if self.dirty {
            return;
        }
        self.value = proposal;
        self.dirty = false;
    }

    /// The grower typed `next`. A blank entry clears the field and lets a
    /// proposal return; anything else is kept as typed and owns the field.
    pub fn on_operator_edit(&mut self, next: String)
        ensures
            trim_seq(next@).len() == 0 ==> final(self).value@.len() == 0 && !final(self).dirty,
            trim_seq(next@).len() > 0 ==> final(self).value@ == next@ && final(self).dirty,
    {
        let t = trim(next.as_str());
        if t.unicode_len() == 0 {
            self.value = String::new();
            self.dirty = false;
        } else {
            self.value = next;
            self.dirty = true;
        }
    }

    /// The text to confirm: the trimmed value, or none when blank (no seed
    /// record is made).
    pub fn confirm_text(&self) -> (r: Option<String>)
        ensures
            match r {
                Some(t) => t@ == trim_seq(self.value@) && t@.len() > 0,
                None => trim_seq(self.value@).len() == 0,
            },
    {
        let t = trim(self.value.as_str());
        if t.unicode_len() == 0 { None } else { Some(t) }
    }
}

} // verus!
