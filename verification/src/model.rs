//! The language-model abstraction: anything that can turn a conversation
//! into a reply. Concrete clients speak to remote endpoints and live with
//! the embedding program.

use vstd::prelude::*;
use crate::memory::Message;

verus! {

/// A language model usable by an agent.
pub trait Model {
    /// One full completion over the conversation so far.
    fn generate(&self, messages: Vec<Message>) -> (r: String);
}

} // verus!
