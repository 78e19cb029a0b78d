use vstd::prelude::*;

verus! {

/// A chat message of the peer-to-peer messenger.
#[derive(Clone, Debug)]
pub struct Message {
    pub id: String,
    pub chat_id: String,
    pub text: String,
    pub timestamp: u64,
    pub incoming: bool,
}

impl Message {
    /// An equal copy.
    pub fn duplicate(&self) -> (m: Message)
        ensures
            m == *self,
    {
        Message {
            id: self.id.clone(),
            chat_id: self.chat_id.clone(),
            text: self.text.clone(),
            timestamp: self.timestamp,
            incoming: self.incoming,
        }
    }
}

/// Equal copies of all of `v`.
pub fn duplicate_all(v: &Vec<Message>) -> (w: Vec<Message>)
    ensures
        w@ == v@,
{
    let mut w: Vec<Message> = Vec::new();
    let mut i: usize = 0;
    while i < v.len()
        invariant
            i <= v@.len(),
            w@ == v@.subrange(0, i as int),
        decreases v@.len() - i,
    {
        w.push(v[i].duplicate());
        i = i + 1;
        assert(w@ =~= v@.subrange(0, i as int));
    }
    assert(w@ =~= v@);
    w
}

} // verus!
