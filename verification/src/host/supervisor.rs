use vstd::prelude::*;
use crate::host::event::Event;
use crate::host::hotswap::{HotSwapConfig, HotSwapper};
use crate::host::manifest::PluginManifest;
use crate::host::registry::{PluginRecord, Registry};
use crate::host::router::{register_spec, Router, RouterTable, SubscriberTx};
use crate::host::signing::{signing_error_text, verify_wasm_spec, SigningError, VerifyingKey};
use crate::str_map::StrMap;

verus! {

/// `Clone::clone` of a bounded sender: another handle to the same queue.
#[verifier::external_body]
fn clone_sender(tx: &tokio::sync::mpsc::Sender<Event>) -> tokio::sync::mpsc::Sender<Event> {
    tx.clone()
}

/// The id under which the host itself subscribes.
pub const HOST_ID: &'static str = "__host__";

/// Why a changed module was not taken.
pub enum ReloadError {
    /// No plugin runs under the id.
    UnknownPlugin,
    /// The module failed the signature check.
    Rejected(SigningError),
}

impl ReloadError {
    /// The error's text.
    pub fn message(&self) -> (s: String)
        ensures
            self is UnknownPlugin ==> s@ == "unknown plugin"@,
            self matches ReloadError::Rejected(e) ==> s@ == signing_error_text(*e),
    {
        match self {
            ReloadError::UnknownPlugin => String::from_str("unknown plugin"),
            ReloadError::Rejected(e) => e.message(),
        }
    }
}

struct Supervised {
    manifest: PluginManifest,
    tx: tokio::sync::mpsc::Sender<Event>,
}

/// The plugins a host runs: what was admitted, who listens to which topic,
/// and the queue of each plugin's worker.
pub struct Supervisor {
    registry: Registry,
    router: Router,
    plugins: StrMap<Supervised>,
}

impl Supervisor {
    pub closed spec fn wf(&self) -> bool {
        &&& self.registry.wf()
        &&& self.router.wf()
        &&& self.plugins.wf()
    }

    /// The admitted plugins, by id.
    pub closed spec fn records(&self) -> Map<Seq<char>, PluginRecord> {
        self.registry.records()
    }

    /// Subscriber ids per topic.
    pub closed spec fn subs(&self) -> Map<Seq<char>, Seq<Seq<char>>> {
        self.router.subs()
    }

    /// The ids of the running plugins.
    pub closed spec fn running(&self) -> Set<Seq<char>> {
        self.plugins@.dom()
    }

    /// The module path of each running plugin.
    pub closed spec fn wasm_paths(&self) -> Map<Seq<char>, Seq<char>> {
        Map::new(|k: Seq<char>| self.plugins@.contains_key(k), |k: Seq<char>| self.plugins@[k].manifest.plugin.wasm_path@)
    }

    /// The manifest each running plugin was started with, by id.
    pub closed spec fn manifests(&self) -> Map<Seq<char>, PluginManifest> {
        Map::new(|k: Seq<char>| self.plugins@.contains_key(k), |k: Seq<char>| self.plugins@[k].manifest)
    }

    /// The key modules are checked against, if any.
    pub closed spec fn key(&self) -> Option<VerifyingKey> {
        self.registry.key()
    }

    /// A supervisor with no plugins; with a key, modules must be signed.
    pub fn new(key: Option<VerifyingKey>) -> (s: Self)
        ensures
            s.wf(),
            s.records() == Map::<Seq<char>, PluginRecord>::empty(),
            s.subs() == Map::<Seq<char>, Seq<Seq<char>>>::empty(),
            s.running() == Set::<Seq<char>>::empty(),
            s.key() == key,
    {
        let registry = match key {
            Some(k) => Registry::new().with_verifying_key(k),
            None => Registry::new(),
        };
        Supervisor { registry, router: Router::new(), plugins: StrMap::new() }
    }

    /// Admits a plugin whose worker listens on `tx`: the module is checked
    /// and recorded, the plugin subscribed to its manifest's topics, and
    /// its queue kept.  A module that fails the check changes nothing.
    pub fn load_plugin(&mut self, manifest: PluginManifest, wasm_bytes: Vec<u8>, tx: tokio::sync::mpsc::Sender<Event>) -> (r: Result<(), SigningError>)
        requires
            old(self).wf(),
        ensures
            final(self).wf(),
            final(self).key() == old(self).key(),
            old(self).key() is None ==> r is Ok,
            old(self).key() matches Some(k) ==> (r is Err <==> verify_wasm_spec(
                wasm_bytes@,
                manifest.plugin.sha256@,
                manifest.plugin.signature@,
                k.bytes_view(),
            ) is Some),
            r is Err ==> final(self).records() == old(self).records() && final(self).subs() == old(self).subs()
                && final(self).running() == old(self).running(),
            r is Ok ==> {
                &&& final(self).records() == old(self).records().insert(
                    manifest.plugin.id@,
                    PluginRecord { manifest: final(self).records()[manifest.plugin.id@].manifest, wasm_bytes },
                )
                &&& final(self).records()[manifest.plugin.id@].manifest.plugin == manifest.plugin
                &&& final(self).subs() == register_spec(
                    old(self).subs(),
                    manifest.plugin.id@,
                    manifest.events.subscriptions@.map_values(|t: String| t@),
                )
                &&& final(self).running() == old(self).running().insert(manifest.plugin.id@)
                &&& final(self).wasm_paths() == old(self).wasm_paths().insert(
                    manifest.plugin.id@,
                    manifest.plugin.wasm_path@,
                )
            },
    {
        let copy = manifest.duplicate();
        let ghost copy_v = copy;
        match self.registry.load(copy, wasm_bytes) {
            Ok(()) => {},
            Err(e) => {
                return Err(e);
            },
        }
        let id = manifest.plugin.id.clone();
        let handle = SubscriberTx::Bounded(clone_sender(&tx));
        self.router.register(id.as_str(), manifest.events.subscriptions.as_slice(), handle);
        let ghost before = self.plugins@;
        let _ = self.plugins.insert(id, Supervised { manifest, tx });
        proof {
            assert(self.plugins@.dom() =~= before.dom().insert(manifest.plugin.id@));
            assert(self.wasm_paths() =~= old(self).wasm_paths().insert(manifest.plugin.id@, manifest.plugin.wasm_path@));
        }
        Ok(())
    }

    /// Subscribes the host itself, through `tx`, to `topics`.
    pub fn subscribe_host(&mut self, topics: &[String], tx: tokio::sync::mpsc::UnboundedSender<Event>)
        requires
            old(self).wf(),
        ensures
            final(self).wf(),
            final(self).subs() == register_spec(old(self).subs(), HOST_ID@, topics@.map_values(|t: String| t@)),
            final(self).records() == old(self).records(),
            final(self).running() == old(self).running(),
            final(self).key() == old(self).key(),
    {
        self.router.register(HOST_ID, topics, SubscriberTx::Unbounded(tx));
    }

    /// The routing table for the routing task (the same queues).
    pub fn routing_table(&self) -> (t: RouterTable)
        requires
            self.wf(),
        ensures
            t.wf(),
            t.subs() == self.subs(),
            t.sends() == Seq::<crate::host::router::RouteRecord>::empty(),
    {
        self.router.clone_table()
    }

    /// Takes a changed module for the running plugin `id`: with a key, it
    /// must pass the check against the manifest the plugin was started
    /// with, and is then recorded in place of the old one.  The plugin
    /// keeps its subscriptions and its queue; its manifest is given back so
    /// that a worker can be started on the new module.  An unknown id or a
    /// module that fails the check changes nothing.
    pub fn reload_module(&mut self, id: &str, wasm_bytes: Vec<u8>) -> (r: Result<PluginManifest, ReloadError>)
        requires
            old(self).wf(),
        ensures
            final(self).wf(),
            final(self).key() == old(self).key(),
            final(self).subs() == old(self).subs(),
            final(self).running() == old(self).running(),
            final(self).manifests() == old(self).manifests(),
            final(self).wasm_paths() == old(self).wasm_paths(),
            r is Err ==> final(self).records() == old(self).records(),
            !old(self).running().contains(id@) ==> r matches Err(ReloadError::UnknownPlugin),
            old(self).running().contains(id@) ==> ({
                let m = old(self).manifests()[id@];
                &&& old(self).key() is None ==> r is Ok
                &&& old(self).key() matches Some(k) ==> (r is Err <==> verify_wasm_spec(
                    wasm_bytes@,
                    m.plugin.sha256@,
                    m.plugin.signature@,
                    k.bytes_view(),
                ) is Some)
                &&& r matches Err(e) ==> (e matches ReloadError::Rejected(se) && old(self).key() matches Some(k)
                    && verify_wasm_spec(wasm_bytes@, m.plugin.sha256@, m.plugin.signature@, k.bytes_view()) == Some(
                    se.kind(),
                ))
                &&& r matches Ok(mm) ==> {
                    &&& mm.plugin == m.plugin
                    &&& mm.events.subscriptions@ == m.events.subscriptions@
                    &&& mm.events.max_queue_size == m.events.max_queue_size
                    &&& mm.supervisor == m.supervisor
                    &&& mm.permissions.network == m.permissions.network
                    &&& mm.permissions.filesystem == m.permissions.filesystem
                    &&& mm.permissions.allowed_dirs@ == m.permissions.allowed_dirs@
                    &&& final(self).records() == old(self).records().insert(
                        m.plugin.id@,
                        PluginRecord { manifest: final(self).records()[m.plugin.id@].manifest, wasm_bytes },
                    )
                    &&& final(self).records()[m.plugin.id@].manifest.plugin == m.plugin
                }
            }),
    {
        let (for_record, for_worker) = match self.plugins.get(id) {
            Some(s) => (s.manifest.duplicate(), s.manifest.duplicate()),
            None => {
                return Err(ReloadError::UnknownPlugin);
            },
        };
        match self.registry.load(for_record, wasm_bytes) {
            Ok(()) => Ok(for_worker),
            Err(e) => Err(ReloadError::Rejected(e)),
        }
    }

    /// A hot swapper watching every running plugin's module.
    pub fn hot_swapper(&self, config: HotSwapConfig) -> (h: HotSwapper)
        requires
            self.wf(),
        ensures
            h.wf(),
            h.paths() == self.wasm_paths(),
            h.timeout_ms() == config.graceful_timeout_ms,
    {
        let ghost timeout = config.graceful_timeout_ms;
        let mut h = HotSwapper::new(config);
        let entries = self.plugins.entries();
        proof {
            self.plugins.lemma_seq();
        }
        let mut i: usize = 0;
        while i < entries.len()
            invariant
                self.wf(),
                h.wf(),
                h.timeout_ms() == timeout,
                entries@ == self.plugins.seq(),
                i <= entries@.len(),
                h.paths() == Map::new(
                    |k: Seq<char>| exists|j: int| 0 <= j < i && #[trigger] entries@[j].0@ == k,
                    |k: Seq<char>| self.wasm_paths()[k],
                ),
            decreases entries@.len() - i,
        {
            let ghost before = h.paths();
            let path = entries[i].1.manifest.plugin.wasm_path.clone();
            let tx = clone_sender(&entries[i].1.tx);
            h.register(entries[i].0.as_str(), path, tx);
            proof {
                self.plugins.lemma_seq();
                let k = entries@[i as int].0@;
                assert(self.plugins@.contains_key(k));
                assert(self.wasm_paths()[k] == entries@[i as int].1.manifest.plugin.wasm_path@);
                assert(h.paths() =~= Map::new(
                    |k: Seq<char>| exists|j: int| 0 <= j < i + 1 && #[trigger] entries@[j].0@ == k,
                    |k: Seq<char>| self.wasm_paths()[k],
                )) by {
                    assert forall|k2: Seq<char>| (exists|j: int| 0 <= j < i + 1 && #[trigger] entries@[j].0@ == k2) implies h.paths().contains_key(k2) by {
                        let j = choose|j: int| 0 <= j < i + 1 && #[trigger] entries@[j].0@ == k2;
                        if j < i {
                            assert(before.contains_key(k2));
                        }
                    }
                    assert forall|k2: Seq<char>| #[trigger] h.paths().contains_key(k2) implies (exists|j: int| 0 <= j < i + 1 && #[trigger] entries@[j].0@ == k2) && h.paths()[k2] == self.wasm_paths()[k2] by {
                        if k2 != k {
                            assert(before.contains_key(k2));
                            let j = choose|j: int| 0 <= j < i && #[trigger] entries@[j].0@ == k2;
                            assert(0 <= j < i + 1 && entries@[j].0@ == k2);
                        } else {
                            assert(entries@[i as int].0@ == k2);
                        }
                    }
                }
            }
            i = i + 1;
        }
        proof {
            self.plugins.lemma_seq();
            assert(h.paths() =~= self.wasm_paths()) by {
                assert forall|k: Seq<char>| #[trigger] self.plugins@.contains_key(k) implies h.paths().contains_key(k) by {
                    let j = choose|j: int| 0 <= j < self.plugins.seq().len() && #[trigger] self.plugins.seq()[j].0@ == k;
                    assert(entries@[j].0@ == k);
                }
                assert forall|k: Seq<char>| #[trigger] h.paths().contains_key(k) implies self.plugins@.contains_key(k) by {
                    let j = choose|j: int| 0 <= j < i && #[trigger] entries@[j].0@ == k;
                    assert(self.plugins@.contains_key(entries@[j].0@));
                }
            }
        }
        h
    }
}

} // verus!
