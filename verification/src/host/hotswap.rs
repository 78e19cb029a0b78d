use vstd::prelude::*;
use crate::host::event::{Event, EventMeta, SYS_SHUTDOWN};
use crate::host::send_log::ShutdownLog;
use crate::str_map::StrMap;
use crate::text::str_eq;

verus! {

/// How long a plugin gets to stop before its module is read again.
pub struct HotSwapConfig {
    pub graceful_timeout_ms: u64,
}

impl Default for HotSwapConfig {
    fn default() -> (c: Self)
        ensures
            c.graceful_timeout_ms == 500,
    {
        HotSwapConfig { graceful_timeout_ms: 500 }
    }
}

/// `tokio::sync::mpsc::Sender::try_send` for the shutdown notice: whether
/// the queue took it.  Nothing is stated of the answer.
#[verifier::external_body]
pub(crate) fn offer(tx: &tokio::sync::mpsc::Sender<Event>, ev: Event) -> bool {
    tx.try_send(ev).is_ok()
}

/// The modules to watch, and the queue of the worker of each.
pub struct HotSwapper {
    config: HotSwapConfig,
    watchers: StrMap<String>,
    plugin_txs: StrMap<tokio::sync::mpsc::Sender<Event>>,
    log: ShutdownLog,
}

/// One shutdown notice offered to a worker: the plugin's id, the event's
/// topic and payload, and whether the worker's queue took it.
pub type ShutdownOffer = (Seq<char>, Seq<char>, Seq<u8>, bool);

/// The notice that tells a worker to stop: a fresh `SYS_SHUTDOWN` event
/// with no payload.
pub fn shutdown_event() -> (e: Event)
    ensures
        e.meta.topic@ == SYS_SHUTDOWN@,
        e.meta.version == 1,
        e.payload@.len() == 0,
{
    Event { meta: EventMeta::new(SYS_SHUTDOWN), payload: Vec::new() }
}

impl HotSwapper {
    pub closed spec fn wf(&self) -> bool {
        &&& self.watchers.wf()
        &&& self.plugin_txs.wf()
        &&& self.watchers@.dom() == self.plugin_txs@.dom()
    }

    /// How long a plugin gets to stop, in milliseconds.
    pub closed spec fn timeout_ms(&self) -> u64 {
        self.config.graceful_timeout_ms
    }

    /// How long a plugin gets to stop, in milliseconds.
    pub fn graceful_timeout_ms(&self) -> (t: u64)
        ensures
            t == self.timeout_ms(),
    {
        self.config.graceful_timeout_ms
    }

    /// The watched module path of each plugin.
    pub closed spec fn paths(&self) -> Map<Seq<char>, Seq<char>> {
        Map::new(|k: Seq<char>| self.watchers@.contains_key(k), |k: Seq<char>| self.watchers@[k]@)
    }

    /// Some plugin's module is watched at `path`.
    pub open spec fn is_watched(&self, path: Seq<char>) -> bool {
        exists|id: Seq<char>| #[trigger] self.paths().contains_key(id) && self.paths()[id] == path
    }

    /// Nothing watched.
    pub fn new(config: HotSwapConfig) -> (h: Self)
        ensures
            h.wf(),
            h.paths() == Map::<Seq<char>, Seq<char>>::empty(),
            h.timeout_ms() == config.graceful_timeout_ms,
    {
        let h = HotSwapper { config, watchers: StrMap::new(), plugin_txs: StrMap::new(), log: ShutdownLog::new() };
        assert(h.paths() =~= Map::<Seq<char>, Seq<char>>::empty());
        h
    }

    /// Watches `wasm_path` for plugin `id`, whose worker listens on `tx`
    /// (replacing an earlier registration of `id`).
    pub fn register(&mut self, id: &str, wasm_path: String, tx: tokio::sync::mpsc::Sender<Event>)
        requires
            old(self).wf(),
        ensures
            final(self).wf(),
            final(self).paths() == old(self).paths().insert(id@, wasm_path@),
            final(self).timeout_ms() == old(self).timeout_ms(),
    {
        let _ = self.watchers.insert(String::from_str(id), wasm_path);
        let _ = self.plugin_txs.insert(String::from_str(id), tx);
        assert(self.paths() =~= old(self).paths().insert(id@, wasm_path@));
    }

    /// The paths to watch: one entry for each registered plugin, its path.
    pub fn watched_paths(&self) -> (ps: Vec<String>)
        requires
            self.wf(),
        ensures
            forall|i: int| 0 <= i < ps@.len() ==> #[trigger] self.is_watched(ps@[i]@),
            ps@.len() == self.paths().dom().len(),
            exists|ids: Seq<Seq<char>>| #[trigger] ids.len() == ps@.len()
                && (forall|i: int, j: int| 0 <= i < j < ids.len() ==> ids[i] != ids[j])
                && (forall|i: int| 0 <= i < ids.len() ==> self.paths().contains_key(#[trigger] ids[i])
                    && self.paths()[ids[i]] == ps@[i]@)
                && (forall|id: Seq<char>| #[trigger] self.paths().contains_key(id) ==> exists|i: int|
                    0 <= i < ids.len() && ids[i] == id),
    {
        let entries = self.watchers.entries();
        proof {
            self.watchers.lemma_seq();
        }
        let mut out: Vec<String> = Vec::new();
        let mut i: usize = 0;
        while i < entries.len()
            invariant
                self.wf(),
                entries@ == self.watchers.seq(),
                i <= entries@.len(),
                out@.len() == i,
                forall|j: int| 0 <= j < i ==> #[trigger] out@[j]@ == entries@[j].1@,
            decreases entries@.len() - i,
        {
            out.push(entries[i].1.clone());
            i = i + 1;
        }
        proof {
            self.watchers.lemma_seq();
            assert(self.paths().dom() =~= self.watchers@.dom());
            assert forall|i: int| 0 <= i < out@.len() implies #[trigger] self.is_watched(out@[i]@) by {
                let k = entries@[i].0@;
                assert(self.watchers.seq()[i].0@ == k);
                assert(self.watchers@.contains_key(k));
                assert(self.watchers@[k] == entries@[i].1);
                assert(self.paths().contains_key(k));
                assert(self.paths()[k] == out@[i]@);
            }
            assert(out@.len() == self.paths().dom().len());
            let ids = Seq::new(entries@.len(), |i: int| entries@[i].0@);
            assert forall|i: int| 0 <= i < ids.len() implies self.paths().contains_key(#[trigger] ids[i])
                && self.paths()[ids[i]] == out@[i]@ by {
                assert(self.watchers.seq()[i].0@ == ids[i]);
                assert(self.watchers@.contains_key(ids[i]));
            }
            assert forall|id: Seq<char>| #[trigger] self.paths().contains_key(id) implies exists|i: int|
                0 <= i < ids.len() && ids[i] == id by {
                assert(self.watchers@.contains_key(id));
                let i = choose|i: int| 0 <= i < self.watchers.seq().len() && #[trigger] self.watchers.seq()[i].0@ == id;
                assert(ids[i] == id);
            }
            assert(ids.len() == out@.len());
        }
        out
    }

    /// The plugin whose module is at `path`, if one is watched there.
    pub fn id_for_path(&self, path: &str) -> (r: Option<String>)
        requires
            self.wf(),
        ensures
            r matches Some(id) ==> self.paths().contains_key(id@) && self.paths()[id@] == path@,
            r is None ==> forall|id: Seq<char>| self.paths().contains_key(id) ==> self.paths()[id] != path@,
    {
        let entries = self.watchers.entries();
        proof {
            self.watchers.lemma_seq();
        }
        let mut i: usize = 0;
        while i < entries.len()
            invariant
                self.wf(),
                entries@ == self.watchers.seq(),
                i <= entries@.len(),
                forall|j: int| 0 <= j < i ==> #[trigger] entries@[j].1@ != path@,
            decreases entries@.len() - i,
        {
            if str_eq(entries[i].1.as_str(), path) {
                proof {
                    self.watchers.lemma_seq();
                    assert(self.watchers@.contains_key(entries@[i as int].0@));
                }
                return Some(entries[i].0.clone());
            }
            i = i + 1;
        }
        proof {
            self.watchers.lemma_seq();
            assert forall|id: Seq<char>| self.paths().contains_key(id) implies self.paths()[id] != path@ by {
                let j = choose|j: int| 0 <= j < self.watchers.seq().len() && #[trigger] self.watchers.seq()[j].0@ == id;
                assert(entries@[j].1@ != path@);
            }
        }
        None
    }

    /// The shutdown notices offered so far, oldest first.
    pub closed spec fn offers(&self) -> Seq<ShutdownOffer> {
        self.log.records()
    }

    /// Tells the worker of plugin `id` to stop: `shutdown_event` is offered,
    /// without waiting, to the queue registered for `id`.  Whether it was
    /// taken; `false`, offering nothing, for an unknown id.
    pub fn signal_shutdown(&mut self, id: &str) -> (sent: bool)
        requires
            old(self).wf(),
        ensures
            final(self).wf(),
            final(self).paths() == old(self).paths(),
            final(self).timeout_ms() == old(self).timeout_ms(),
            !old(self).paths().contains_key(id@) ==> !sent && final(self).offers() == old(self).offers(),
            old(self).paths().contains_key(id@) ==> final(self).offers() == old(self).offers().push(
                (id@, SYS_SHUTDOWN@, Seq::<u8>::empty(), sent),
            ),
    {
        match self.plugin_txs.get(id) {
            Some(tx) => {
                let ev = shutdown_event();
                let ghost payload = ev.payload@;
                let sent = self.log.offer(tx, id, ev);
                assert(payload =~= Seq::<u8>::empty());
                sent
            },
            None => false,
        }
    }
}

} // verus!
