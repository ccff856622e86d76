//! The bar below the messages.
use crate::text;
use vstd::prelude::*;

verus! {

#[derive(Clone, Debug, PartialEq, Eq)]
pub struct EditBarState {
    pub mode: String,
    pub model: String,
    pub variant: String,
    pub input_state: String,
}

impl Default for EditBarState {
    fn default() -> (r: Self)
        ensures
            r.mode@.len() == 0,
            r.model@.len() == 0,
            r.variant@.len() == 0,
            r.input_state@.len() == 0,
    {
        EditBarState {
            mode: String::new(),
            model: String::new(),
            variant: String::new(),
            input_state: String::new(),
        }
    }
}

impl EditBarState {
    /// What the bar shows.
    pub fn text(&self) -> (r: String)
        ensures
            r@ == self.mode@ + "  "@ + self.model@ + "  "@ + self.variant@ + "  "@
                + self.input_state@,
    {
        let first = text::cat4(self.mode.as_str(), "  ", self.model.as_str(), "  ");
        let whole = text::cat4(
            first.as_str(),
            self.variant.as_str(),
            "  ",
            self.input_state.as_str(),
        );
        proof {
            assert(whole@ =~= self.mode@ + "  "@ + self.model@ + "  "@ + self.variant@ + "  "@
                + self.input_state@);
        }
        whole
    }
}

} // verus!
