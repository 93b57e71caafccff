//! Conversation memory: an append-only message log with point lookup by
//! role. The in-memory store is here; persistent stores live with the
//! embedding program.

use vstd::prelude::*;
use crate::workflow::state::{assoc_find, assoc_get};

verus! {

/// One chat message.
#[derive(Debug)]
pub struct Message {
    pub role: String,
    pub content: String,
}

pub struct MessageModel {
    pub role: Seq<char>,
    pub content: Seq<char>,
}

impl View for Message {
    type V = MessageModel;

    open spec fn view(&self) -> MessageModel {
        MessageModel { role: self.role@, content: self.content@ }
    }
}

impl DeepView for Message {
    type V = MessageModel;

    open spec fn deep_view(&self) -> MessageModel {
        self.view()
    }
}

/// A conversation store: an append-only log plus lookup of the newest
/// content stored under a role.
pub trait Memory {
    /// The newest content stored under this key, if any.
    fn recall(&self, key: &str) -> (r: Option<String>);

    /// Append one message.
    fn store(&mut self, role: &str, content: &str);

    /// The whole log, oldest first.
    fn load(&self) -> (r: Vec<Message>);

    /// Forget everything.
    fn clear(&mut self) -> (r: Result<(), String>);
}

/// A process-local conversation store.
pub struct InMemoryMemory {
    log: Vec<Message>,
    kv: Vec<(String, String)>,
}

pub struct InMemoryModel {
    pub log: Seq<MessageModel>,
    pub kv: Seq<(Seq<char>, Seq<char>)>,
}

impl View for InMemoryMemory {
    type V = InMemoryModel;

    closed spec fn view(&self) -> InMemoryModel {
        InMemoryModel { log: self.log.deep_view(), kv: self.kv.deep_view() }
    }
}

impl InMemoryMemory {
    /// An empty store.
    pub fn new() -> (r: InMemoryMemory)
        ensures
            r@.log.len() == 0,
            r@.kv.len() == 0,
    {
        let r = InMemoryMemory { log: Vec::new(), kv: Vec::new() };
        proof {
            assert(r@.log =~= Seq::<MessageModel>::empty());
            assert(r@.kv =~= Seq::<(Seq<char>, Seq<char>)>::empty());
        }
        r
    }
}

impl Memory for InMemoryMemory {
    /// The newest content stored under this key.
    fn recall(&self, key: &str) -> (r: Option<String>)
        ensures
            match r {
                Some(v) => assoc_get(self@.kv, key@) == Some(v@),
                None => assoc_get(self@.kv, key@) is None,
            },
    {
        match assoc_find(&self.kv, key) {
            Some(v) => Some(v.clone()),
            None => None,
        }
    }

    /// Append the message to the log and bind the role to the content.
    fn store(&mut self, role: &str, content: &str)
        ensures
            final(self)@.log == old(self)@.log.push(
                MessageModel { role: role@, content: content@ },
            ),
            final(self)@.kv == old(self)@.kv.push((role@, content@)),
    {
        self.log.push(Message { role: role.to_owned(), content: content.to_owned() });
        self.kv.push((role.to_owned(), content.to_owned()));
        proof {
            assert(self@.log =~= old(self)@.log.push(
                MessageModel { role: role@, content: content@ },
            ));
            assert(self@.kv =~= old(self)@.kv.push((role@, content@)));
        }
    }

    /// A copy of the whole log, oldest first.
    fn load(&self) -> (r: Vec<Message>)
        ensures
            r.deep_view() == self@.log,
    {
        let mut r: Vec<Message> = Vec::new();
        let mut i: usize = 0;
        proof {
            assert(self@.log.len() == self.log@.len());
        }
        while i < self.log.len()
            invariant
                self@.log.len() == self.log@.len(),
                i <= self.log@.len(),
                r.deep_view() =~= self@.log.take(i as int),
            decreases self.log@.len() - i,
        {
            proof {
                assert(self@.log[i as int] == self.log@[i as int]@);
            }
            let m = &self.log[i];
            let ghost rbefore = r.deep_view();
            r.push(Message { role: m.role.clone(), content: m.content.clone() });
            proof {
                assert(r.deep_view() =~= rbefore.push(self@.log[i as int]));
            }
            i += 1;
        }
        proof {
            assert(self@.log.take(self@.log.len() as int) =~= self@.log);
        }
        r
    }

    /// Forget everything; never fails for this store.
    fn clear(&mut self) -> (r: Result<(), String>)
        ensures
            r is Ok,
            final(self)@.log.len() == 0,
            final(self)@.kv.len() == 0,
    {
        self.log.clear();
        self.kv.clear();
        proof {
            assert(self@.log =~= Seq::<MessageModel>::empty());
            assert(self@.kv =~= Seq::<(Seq<char>, Seq<char>)>::empty());
        }
        Ok(())
    }
}

} // verus!
