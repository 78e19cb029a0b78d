use vstd::prelude::*;
use crate::chat_log::{append_spec, group_of, lemma_append_other_keys, lemma_append_then_group, ChatLog};
use crate::void::types::{duplicate_all, Message};

verus! {

/// Where the messenger keeps its chats.
pub trait Storage {
    /// The messages of each chat, by chat id, oldest first.
    spec fn contents(&self) -> Map<Seq<char>, Seq<Message>>;

    spec fn inv(&self) -> bool;

    /// Appends `msg` to the chat named by its `chat_id`.
    fn save(&mut self, msg: &Message)
        requires
            old(self).inv(),
        ensures
            final(self).inv(),
            final(self).contents() == append_spec(old(self).contents(), msg.chat_id@, *msg),
            forall|c: Seq<char>| #[trigger] group_of(final(self).contents(), c) == if c == msg.chat_id@ {
                group_of(old(self).contents(), c).push(*msg)
            } else {
                group_of(old(self).contents(), c)
            },
    ;

    /// The messages of one chat, oldest first; empty for an unknown chat.
    fn history(&self, chat_id: &str) -> (h: Vec<Message>)
        requires
            self.inv(),
        ensures
            h@ == group_of(self.contents(), chat_id@),
    ;

    /// The ids of the chats that hold messages, each once.
    fn chats(&self) -> (ids: Vec<String>)
        requires
            self.inv(),
        ensures
            ids@.len() == self.contents().dom().len(),
            forall|i: int, j: int| 0 <= i < j < ids@.len() ==> ids@[i]@ != ids@[j]@,
            forall|i: int| 0 <= i < ids@.len() ==> self.contents().contains_key(#[trigger] ids@[i]@),
    ;
}

/// Chats kept in memory.
pub struct MemStorage {
    data: ChatLog<Message>,
}

impl MemStorage {
    /// An empty store.
    pub fn new() -> (s: Self)
        ensures
            s.inv(),
            s.contents() == Map::<Seq<char>, Seq<Message>>::empty(),
    {
        MemStorage { data: ChatLog::new() }
    }
}

impl Storage for MemStorage {
    closed spec fn contents(&self) -> Map<Seq<char>, Seq<Message>> {
        self.data@
    }

    closed spec fn inv(&self) -> bool {
        self.data.wf()
    }

    fn save(&mut self, msg: &Message) {
        let m = msg.duplicate();
        self.data.append(msg.chat_id.as_str(), m);
        proof {
            assert forall|c: Seq<char>| #[trigger] group_of(self.contents(), c) == if c == msg.chat_id@ {
                group_of(old(self).contents(), c).push(*msg)
            } else {
                group_of(old(self).contents(), c)
            } by {
                lemma_append_then_group(old(self).contents(), msg.chat_id@, *msg);
                if c != msg.chat_id@ {
                    lemma_append_other_keys(old(self).contents(), msg.chat_id@, *msg, c);
                }
            }
        }
    }

    fn history(&self, chat_id: &str) -> (h: Vec<Message>) {
        match self.data.get(chat_id) {
            Some(v) => duplicate_all(v),
            None => Vec::new(),
        }
    }

    fn chats(&self) -> (ids: Vec<String>) {
        self.data.keys()
    }
}

/// The chats after saving each message of `ms` in turn.
pub open spec fn saves_spec(m: Map<Seq<char>, Seq<Message>>, ms: Seq<Message>) -> Map<Seq<char>, Seq<Message>>
    decreases ms.len(),
{
    if ms.len() == 0 {
        m
    } else {
        append_spec(saves_spec(m, ms.drop_last()), ms.last().chat_id@, ms.last())
    }
}

/// Saving messages one after another: the history of a chat is what it held
/// before, followed by the saved messages of that chat in the order they
/// were saved; no message of another chat shows up in it.
pub proof fn lemma_saves_then_history(m: Map<Seq<char>, Seq<Message>>, ms: Seq<Message>, chat_id: Seq<char>)
    ensures
        group_of(saves_spec(m, ms), chat_id) == group_of(m, chat_id) + ms.filter(
            |x: Message| x.chat_id@ == chat_id,
        ),
    decreases ms.len(),
{
    reveal(Seq::filter);
    let pred = |x: Message| x.chat_id@ == chat_id;
    if ms.len() == 0 {
        assert(group_of(m, chat_id) + ms.filter(pred) =~= group_of(m, chat_id));
    } else {
        lemma_saves_then_history(m, ms.drop_last(), chat_id);
        let prev = saves_spec(m, ms.drop_last());
        if ms.last().chat_id@ == chat_id {
            lemma_append_then_group(prev, chat_id, ms.last());
            assert(group_of(m, chat_id) + ms.drop_last().filter(pred).push(ms.last()) =~= (group_of(m, chat_id)
                + ms.drop_last().filter(pred)).push(ms.last()));
        } else {
            lemma_append_other_keys(prev, ms.last().chat_id@, ms.last(), chat_id);
        }
    }
}

/// The chats that saving `ms` after `m` leaves: those of `m`, and the chat
/// of every saved message.
pub proof fn lemma_saves_chats(m: Map<Seq<char>, Seq<Message>>, ms: Seq<Message>, c: Seq<char>)
    ensures
        saves_spec(m, ms).contains_key(c) <==> (m.contains_key(c) || exists|i: int| 0 <= i < ms.len() && #[trigger] ms[i].chat_id@ == c),
    decreases ms.len(),
{
    if ms.len() > 0 {
        lemma_saves_chats(m, ms.drop_last(), c);
        if exists|i: int| 0 <= i < ms.len() && #[trigger] ms[i].chat_id@ == c {
            let i = choose|i: int| 0 <= i < ms.len() && #[trigger] ms[i].chat_id@ == c;
            if i < ms.len() - 1 {
                assert(ms.drop_last()[i] == ms[i]);
            }
        }
        if exists|i: int| 0 <= i < ms.drop_last().len() && #[trigger] ms.drop_last()[i].chat_id@ == c {
            let i = choose|i: int| 0 <= i < ms.drop_last().len() && #[trigger] ms.drop_last()[i].chat_id@ == c;
            assert(ms[i] == ms.drop_last()[i]);
        }
    }
}

/// A new store after a run of saves: the history of each chat is exactly
/// the saved messages of that chat, in the order they were saved (nothing
/// merged, dropped or reordered), and the chats are exactly those of the
/// saved messages.
pub proof fn lemma_new_store_after_saves(ms: Seq<Message>, c: Seq<char>)
    ensures
        group_of(saves_spec(Map::empty(), ms), c) == ms.filter(|x: Message| x.chat_id@ == c),
        saves_spec(Map::empty(), ms).contains_key(c) <==> exists|i: int| 0 <= i < ms.len() && #[trigger] ms[i].chat_id@ == c,
{
    lemma_saves_then_history(Map::empty(), ms, c);
    assert(group_of(Map::<Seq<char>, Seq<Message>>::empty(), c) == Seq::<Message>::empty());
    assert(Seq::<Message>::empty() + ms.filter(|x: Message| x.chat_id@ == c) =~= ms.filter(|x: Message| x.chat_id@ == c));
    lemma_saves_chats(Map::empty(), ms, c);
}

} // verus!
