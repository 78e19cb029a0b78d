use vstd::prelude::*;
use crate::host::manifest::PluginManifest;
use crate::host::signing::{verify_wasm, verify_wasm_spec, SigningError, VerifyingKey};
use crate::str_map::StrMap;

verus! {

/// A plugin's manifest with its module.
pub struct PluginRecord {
    pub manifest: PluginManifest,
    pub wasm_bytes: Vec<u8>,
}

/// The plugins known to the supervisor, by id; with a key, only modules
/// whose digest and signature check are admitted.
pub struct Registry {
    verifying_key: Option<VerifyingKey>,
    plugins: StrMap<PluginRecord>,
}

impl Registry {
    pub closed spec fn wf(&self) -> bool {
        self.plugins.wf()
    }

    /// The records, by id.
    pub closed spec fn records(&self) -> Map<Seq<char>, PluginRecord> {
        self.plugins@
    }

    /// The key modules are checked against, if any.
    pub closed spec fn key(&self) -> Option<VerifyingKey> {
        self.verifying_key
    }

    /// An empty registry that checks nothing.
    pub fn new() -> (r: Self)
        ensures
            r.wf(),
            r.records() == Map::<Seq<char>, PluginRecord>::empty(),
            r.key() is None,
    {
        Registry { verifying_key: None, plugins: StrMap::new() }
    }

    /// The same registry, checking modules against `key` from now on.
    pub fn with_verifying_key(self, key: VerifyingKey) -> (r: Self)
        requires
            self.wf(),
        ensures
            r.wf(),
            r.records() == self.records(),
            r.key() == Some(key),
    {
        Registry { verifying_key: Some(key), plugins: self.plugins }
    }

    /// Admits a plugin under its manifest's id, replacing any earlier one;
    /// with a key, the module must first pass `verify_wasm`.
    pub fn load(&mut self, manifest: PluginManifest, wasm_bytes: Vec<u8>) -> (r: Result<(), SigningError>)
        requires
            old(self).wf(),
        ensures
            final(self).wf(),
            final(self).key() == old(self).key(),
            old(self).key() matches Some(k) ==> (r is Err <==> verify_wasm_spec(
                wasm_bytes@,
                manifest.plugin.sha256@,
                manifest.plugin.signature@,
                k.bytes_view(),
            ) is Some),
            old(self).key() matches Some(k) ==> (r matches Err(e) ==> verify_wasm_spec(
                wasm_bytes@,
                manifest.plugin.sha256@,
                manifest.plugin.signature@,
                k.bytes_view(),
            ) == Some(e.kind())),
            old(self).key() is None ==> r is Ok,
            r is Err ==> final(self).records() == old(self).records(),
            r is Ok ==> final(self).records() == old(self).records().insert(
                manifest.plugin.id@,
                PluginRecord { manifest, wasm_bytes },
            ),
    {
        match &self.verifying_key {
            Some(key) => {
                match verify_wasm(wasm_bytes.as_slice(), manifest.plugin.sha256.as_str(), manifest.plugin.signature.as_str(), key) {
                    Ok(()) => {},
                    Err(e) => {
                        return Err(e);
                    },
                }
            },
            None => {},
        }
        let id = manifest.plugin.id.clone();
        let _ = self.plugins.insert(id, PluginRecord { manifest, wasm_bytes });
        Ok(())
    }

    /// The record of `id`, if any.
    pub fn get(&self, id: &str) -> (r: Option<&PluginRecord>)
        requires
            self.wf(),
        ensures
            r matches Some(x) ==> self.records().contains_key(id@) && self.records()[id@] == *x,
            r is None ==> !self.records().contains_key(id@),
    {
        self.plugins.get(id)
    }

    /// Takes the record of `id` out, if any.
    pub fn remove(&mut self, id: &str) -> (r: Option<PluginRecord>)
        requires
            old(self).wf(),
        ensures
            final(self).wf(),
            final(self).key() == old(self).key(),
            final(self).records() == old(self).records().remove(id@),
            r matches Some(x) ==> old(self).records().contains_key(id@) && old(self).records()[id@] == x,
            r is None ==> !old(self).records().contains_key(id@),
    {
        self.plugins.remove(id)
    }

    /// The ids, each once.
    pub fn ids(&self) -> (ks: Vec<String>)
        requires
            self.wf(),
        ensures
            ks@.len() == self.records().dom().len(),
            forall|i: int, j: int| 0 <= i < j < ks@.len() ==> ks@[i]@ != ks@[j]@,
            forall|i: int| 0 <= i < ks@.len() ==> self.records().contains_key(#[trigger] ks@[i]@),
            forall|k: Seq<char>| self.records().contains_key(k) ==> exists|i: int|
                0 <= i < ks@.len() && #[trigger] ks@[i]@ == k,
    {
        self.plugins.keys()
    }
}

} // verus!
