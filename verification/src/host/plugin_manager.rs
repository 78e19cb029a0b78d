use vstd::prelude::*;
use crate::host::call_log::PluginCallLog;
use crate::host::engine::{answer_view, PluginCallRecord};
use crate::host::errors::CoreError;
use crate::host::models::PluginInfo;
use crate::json::{json_text, lemma_members_push, members_text, str_member, str_pair, to_json_string, JsonValue};
use crate::messenger::manifest::{declares_hook, has_hook, info_of, manifest_to_plugin_info, PluginManifest};
use crate::str_map::StrMap;
use crate::text::str_eq;

verus! {

/// A running plugin instance that exports functions taking and giving text.
pub trait PluginCall {
    /// Calls the exported function `func` with `input`.
    fn call(&mut self, func: &str, input: &str) -> Result<String, String>;
}

/// A plugin with its description and manifest.
pub struct LoadedPlugin<P> {
    pub plugin: P,
    pub info: PluginInfo,
    pub manifest_data: PluginManifest,
}

/// The loaded plugins, by id.
pub struct PluginTable<P> {
    plugins: StrMap<LoadedPlugin<P>>,
    log: PluginCallLog,
}

impl<P> PluginTable<P> {
    pub closed spec fn wf(&self) -> bool {
        self.plugins.wf() && forall|k: Seq<char>| #[trigger] self.plugins@.contains_key(k) ==> self.plugins@[k].info.id@ == k
    }

    /// The descriptions of the loaded plugins, by id.
    pub closed spec fn infos(&self) -> Map<Seq<char>, PluginInfo> {
        Map::new(|k: Seq<char>| self.plugins@.contains_key(k), |k: Seq<char>| self.plugins@[k].info)
    }

    /// The manifests of the loaded plugins, by id.
    pub closed spec fn manifests(&self) -> Map<Seq<char>, PluginManifest> {
        Map::new(|k: Seq<char>| self.plugins@.contains_key(k), |k: Seq<char>| self.plugins@[k].manifest_data)
    }

    /// The plugin calls made so far, oldest first.
    pub closed spec fn calls(&self) -> Seq<PluginCallRecord> {
        self.log.records()
    }

    /// A plugin is loaded exactly when it has a manifest.
    pub proof fn lemma_manifests_dom(&self)
        ensures
            self.manifests().dom() == self.infos().dom(),
    {
        assert(self.manifests().dom() =~= self.infos().dom());
    }

    /// No plugins.
    pub fn new() -> (t: Self)
        ensures
            t.wf(),
            t.infos() == Map::<Seq<char>, PluginInfo>::empty(),
            t.manifests() == Map::<Seq<char>, PluginManifest>::empty(),
            t.calls() == Seq::<PluginCallRecord>::empty(),
    {
        let t = PluginTable { plugins: StrMap::new(), log: PluginCallLog::new() };
        assert(t.infos() =~= Map::<Seq<char>, PluginInfo>::empty());
        assert(t.manifests() =~= Map::<Seq<char>, PluginManifest>::empty());
        t
    }
}

/// The largest module, in bytes, a manifest's memory limit admits.
pub open spec fn wasm_limit(m: PluginManifest) -> u64 {
    (m.limits.max_memory_mb as u64 * 1048576) as u64
}

/// Memory pages (64 KiB each) for a limit in MiB, at least one.
pub fn memory_pages(max_memory_mb: u32) -> (p: u64)
    ensures
        p == if max_memory_mb as nat * 16 > 0 { max_memory_mb as nat * 16 } else { 1 },
{
    let p = max_memory_mb as u64 * 1024 / 64;
    if p > 0 { p } else { 1 }
}

/// Checks a manifest before its module is instantiated: the id must be new
/// and the module within the manifest's memory limit.
pub fn check_load<P>(table: &PluginTable<P>, manifest: &PluginManifest, wasm_len: usize) -> (r: Result<PluginInfo, CoreError>)
    requires
        table.wf(),
    ensures
        table.infos().contains_key(manifest.plugin.id@) ==> (r matches Err(CoreError::PluginAlreadyLoaded(id))
            && id@ == manifest.plugin.id@),
        !table.infos().contains_key(manifest.plugin.id@) && wasm_len > wasm_limit(*manifest) ==> (r matches Err(
            CoreError::WasmSizeExceeded { size, limit },
        ) && size == wasm_len && limit == wasm_limit(*manifest)),
        !table.infos().contains_key(manifest.plugin.id@) && wasm_len <= wasm_limit(*manifest) ==> (r matches Ok(info)
            && info_of(*manifest, info)),
{
    let info = manifest_to_plugin_info(manifest);
    if table.plugins.contains_key(info.id.as_str()) {
        return Err(CoreError::PluginAlreadyLoaded(info.id.clone()));
    }
    let limit: u64 = manifest.limits.max_memory_mb as u64 * 1048576;
    if wasm_len as u64 > limit {
        return Err(CoreError::WasmSizeExceeded { size: wasm_len as u64, limit });
    }
    Ok(info)
}

/// `{"plugin_id": id, "version": version}`.
pub open spec fn on_load_text(id: Seq<char>, version: Seq<char>) -> Seq<char> {
    seq!['{'] + str_pair("plugin_id"@, id) + seq![','] + str_pair("version"@, version) + seq!['}']
}

/// The `on_load` argument: `{"plugin_id": id, "version": version}`.
pub fn on_load_config(info: &PluginInfo) -> (s: String)
    ensures
        s@ == on_load_text(info.id@, info.version@),
{
    let mut fs: Vec<(String, JsonValue)> = Vec::new();
    let m0 = str_member("plugin_id", info.id.as_str());
    proof {
        lemma_members_push(fs@, m0);
    }
    fs.push(m0);
    let m1 = str_member("version", info.version.as_str());
    proof {
        lemma_members_push(fs@, m1);
    }
    fs.push(m1);
    let ghost ms = fs@;
    let s = to_json_string(&JsonValue::Object(fs));
    assert(s@ =~= seq!['{'] + members_text(ms) + seq!['}']);
    s
}

/// Loads a plugin whose module was instantiated as `instance` (an `Err`
/// carries the instantiation error).  Checks as `check_load` does; on
/// success the plugin is in the table, and when its manifest declares
/// `on_load` that hook has been called; its outcome comes back beside the
/// description (a failing hook does not undo the load).
pub fn load_plugin<P: PluginCall>(
    table: &mut PluginTable<P>,
    manifest: PluginManifest,
    wasm_len: usize,
    instance: Result<P, String>,
) -> (r: Result<(PluginInfo, Option<Result<String, CoreError>>), CoreError>)
    requires
        old(table).wf(),
    ensures
        final(table).wf(),
        old(table).infos().contains_key(manifest.plugin.id@) ==> (r matches Err(CoreError::PluginAlreadyLoaded(id))
            && id@ == manifest.plugin.id@),
        !old(table).infos().contains_key(manifest.plugin.id@) && wasm_len > wasm_limit(manifest) ==> (r matches Err(
            CoreError::WasmSizeExceeded { size, limit },
        ) && size == wasm_len && limit == wasm_limit(manifest)),
        !old(table).infos().contains_key(manifest.plugin.id@) && wasm_len <= wasm_limit(manifest) && instance is Err
            ==> (r matches Err(CoreError::PluginCallFailed { func, reason }) && func@ == "Plugin::new"@
            && reason@ == instance->Err_0@),
        r is Err ==> final(table).infos() == old(table).infos(),
        r matches Ok((info, hook)) ==> !old(table).infos().contains_key(manifest.plugin.id@) && wasm_len
            <= wasm_limit(manifest) && instance is Ok && info_of(manifest, info)
            && final(table).infos().dom() == old(table).infos().dom().insert(info.id@)
            && (hook is Some <==> has_hook(manifest, "on_load"@)),
        r is Ok ==> instance is Ok && !old(table).infos().contains_key(manifest.plugin.id@)
            && wasm_len <= wasm_limit(manifest),
        !old(table).infos().contains_key(manifest.plugin.id@) && wasm_len <= wasm_limit(manifest) && instance is Ok
            ==> (r matches Ok((info, _)) && info_of(manifest, info) && final(table).infos() == old(table).infos().insert(
            manifest.plugin.id@,
            info,
        ) && final(table).manifests() == old(table).manifests().insert(manifest.plugin.id@, manifest)),
        r is Err ==> final(table).calls() == old(table).calls(),
        (r matches Ok((info, h)) && h is None) ==> final(table).calls() == old(table).calls(),
        r matches Ok((info, Some(hook))) ==> {
            &&& final(table).calls().len() == old(table).calls().len() + 1
            &&& final(table).calls().drop_last() == old(table).calls()
            &&& final(table).calls().last().0 == info.id@
            &&& final(table).calls().last().1 == "on_load"@
            &&& final(table).calls().last().2 == on_load_text(info.id@, info.version@)
            &&& (final(table).calls().last().3 matches Ok(o) ==> (hook matches Ok(s) && s@ == o))
            &&& (final(table).calls().last().3 matches Err(reason) ==> (hook matches Err(CoreError::PluginCallFailed {
                func: f,
                reason: x,
            }) && f@ == "on_load"@ && x@ == reason))
        },
{
    let info = check_load(table, &manifest, wasm_len)?;
    let plugin = match instance {
        Ok(p) => p,
        Err(e) => {
            return Err(CoreError::PluginCallFailed { func: String::from_str("Plugin::new"), reason: e });
        },
    };
    let wants_on_load = declares_hook(&manifest, "on_load");
    let ghost m = manifest;
    let ghost before = table.plugins@;
    let id = info.id.clone();
    let entry = LoadedPlugin { plugin, info: info.duplicate(), manifest_data: manifest };
    table.plugins.insert(id, entry);
    proof {
        assert forall|k: Seq<char>| #[trigger] table.plugins@.contains_key(k) implies table.plugins@[k].info.id@ == k by {
            if k != info.id@ {
                assert(before.contains_key(k));
            }
        }
        assert(table.infos().dom() =~= old(table).infos().dom().insert(info.id@));
        assert(table.infos() =~= old(table).infos().insert(info.id@, info));
        assert(table.manifests() =~= old(table).manifests().insert(info.id@, m));
    }
    let hook = if wants_on_load {
        let config = on_load_config(&info);
        let res = call_plugin_fn(table, info.id.as_str(), "on_load", config.as_str());
        Some(res)
    } else {
        None
    };
    Ok((info, hook))
}

/// Calls `func` of the plugin `plugin_id`.
pub fn call_plugin_fn<P: PluginCall>(table: &mut PluginTable<P>, plugin_id: &str, func: &str, input: &str) -> (r: Result<String, CoreError>)
    requires
        old(table).wf(),
    ensures
        final(table).wf(),
        final(table).infos() == old(table).infos(),
        final(table).manifests() == old(table).manifests(),
        !old(table).infos().contains_key(plugin_id@) <==> (r matches Err(CoreError::PluginNotFound(id))),
        r matches Err(CoreError::PluginNotFound(id)) ==> id@ == plugin_id@,
        r matches Err(e) ==> (e is PluginNotFound || (e matches CoreError::PluginCallFailed { func: f, .. } && f@ == func@)),
        !old(table).infos().contains_key(plugin_id@) ==> final(table).calls() == old(table).calls(),
        old(table).infos().contains_key(plugin_id@) ==> {
            &&& final(table).calls().len() == old(table).calls().len() + 1
            &&& final(table).calls().drop_last() == old(table).calls()
            &&& final(table).calls().last().0 == plugin_id@
            &&& final(table).calls().last().1 == func@
            &&& final(table).calls().last().2 == input@
            &&& (final(table).calls().last().3 matches Ok(o) ==> (r matches Ok(s) && s@ == o))
            &&& (final(table).calls().last().3 matches Err(reason) ==> (r matches Err(CoreError::PluginCallFailed {
                func: f,
                reason: x,
            }) && f@ == func@ && x@ == reason))
        },
{
    let ghost before = table.plugins@;
    match table.plugins.remove(plugin_id) {
        None => {
            assert(table.plugins@ =~= before);
            Err(CoreError::PluginNotFound(String::from_str(plugin_id)))
        },
        Some(mut lp) => {
            let ghost lp0 = lp;
            let res = table.log.call(&mut lp.plugin, plugin_id, func, input);
            assert(table.calls().drop_last() =~= old(table).calls());
            let key = lp.info.id.clone();
            table.plugins.insert(key, lp);
            proof {
                assert(table.plugins@.dom() =~= before.dom());
                assert forall|k: Seq<char>| #[trigger] table.plugins@.contains_key(k) implies table.plugins@[k].info.id@ == k by {
                    if k != plugin_id@ {
                        assert(table.plugins@[k] == before[k]);
                    }
                }
                assert(table.infos() =~= old(table).infos());
                assert(table.manifests() =~= old(table).manifests());
            }
            match res {
                Ok(s) => Ok(s),
                Err(reason) => Err(CoreError::PluginCallFailed { func: String::from_str(func), reason }),
            }
        },
    }
}

/// Unloads a plugin, calling its `on_unload` hook first when its manifest
/// declares one (the hook's outcome is ignored).  Unknown ids change nothing.
pub fn unload_plugin<P: PluginCall>(table: &mut PluginTable<P>, id: &str)
    requires
        old(table).wf(),
    ensures
        final(table).wf(),
        final(table).infos() == old(table).infos().remove(id@),
        final(table).manifests() == old(table).manifests().remove(id@),
        !old(table).infos().contains_key(id@) ==> final(table).calls() == old(table).calls(),
        old(table).manifests().contains_key(id@) && has_hook(old(table).manifests()[id@], "on_unload"@) ==> {
            &&& final(table).calls().len() == old(table).calls().len() + 1
            &&& final(table).calls().drop_last() == old(table).calls()
            &&& final(table).calls().last().0 == id@
            &&& final(table).calls().last().1 == "on_unload"@
            &&& final(table).calls().last().2 == "{}"@
        },
        !(old(table).manifests().contains_key(id@) && has_hook(old(table).manifests()[id@], "on_unload"@))
            ==> final(table).calls() == old(table).calls(),
{
    let wants = match table.plugins.get(id) {
        Some(lp) => declares_hook(&lp.manifest_data, "on_unload"),
        None => false,
    };
    if wants {
        let _ = call_plugin_fn(table, id, "on_unload", "{}");
    }
    let ghost before = table.plugins@;
    let ghost infos_before = table.infos();
    let ghost manifests_before = table.manifests();
    let _ = table.plugins.remove(id);
    proof {
        assert forall|k: Seq<char>| #[trigger] table.plugins@.contains_key(k) implies table.plugins@[k].info.id@ == k by {
            assert(before.contains_key(k));
        }
        assert(table.infos() =~= infos_before.remove(id@));
        assert(table.manifests() =~= manifests_before.remove(id@));
        assert(manifests_before.dom() =~= old(table).manifests().dom());
    }
}

/// Whether a network permission lets a plugin reach any host: every host
/// (`*`) when it has one, none otherwise.
pub fn allowed_hosts(network: bool) -> (r: Option<Vec<String>>)
    ensures
        network ==> (r matches Some(hs) && hs@.len() == 1 && hs@[0]@ == "*"@),
        !network ==> r is None,
{
    if network {
        let mut hs: Vec<String> = Vec::new();
        hs.push(String::from_str("*"));
        Some(hs)
    } else {
        None
    }
}

/// `r` lists the loaded plugins `infos`: each once, nothing else.
pub open spec fn lists_exactly(r: Seq<PluginInfo>, infos: Map<Seq<char>, PluginInfo>) -> bool {
    &&& r.len() == infos.dom().len()
    &&& forall|i: int| 0 <= i < r.len() ==> infos.contains_key(#[trigger] r[i].id@) && infos[r[i].id@] == r[i]
    &&& forall|i: int, j: int| 0 <= i < j < r.len() ==> r[i].id@ != r[j].id@
    &&& forall|k: Seq<char>| #[trigger] infos.contains_key(k) ==> exists|i: int| 0 <= i < r.len() && r[i] == infos[k]
}

/// The loaded plugins after a run of calls that each succeeded: a load of a
/// plugin described by `.2`, or (when `.0` is false) an unload of the id `.1`.
pub open spec fn after_calls(infos: Map<Seq<char>, PluginInfo>, ops: Seq<(bool, Seq<char>, PluginInfo)>) -> Map<
    Seq<char>,
    PluginInfo,
>
    decreases ops.len(),
{
    if ops.len() == 0 {
        infos
    } else {
        let m = after_calls(infos, ops.drop_last());
        let op = ops.last();
        if op.0 {
            m.insert(op.2.id@, op.2)
        } else {
            m.remove(op.1)
        }
    }
}

/// Each load in `ops` succeeded: its id was not loaded at the time.
pub open spec fn loads_succeeded(infos: Map<Seq<char>, PluginInfo>, ops: Seq<(bool, Seq<char>, PluginInfo)>) -> bool {
    forall|j: int| 0 <= j < ops.len() && #[trigger] ops[j].0 ==> !after_calls(infos, ops.take(j)).contains_key(ops[j].2.id@)
}

proof fn lemma_still_loaded(
    infos: Map<Seq<char>, PluginInfo>,
    ops: Seq<(bool, Seq<char>, PluginInfo)>,
    k: int,
    info: PluginInfo,
)
    requires
        0 <= k < ops.len(),
        ops[k].0 && ops[k].2 == info,
        loads_succeeded(infos, ops),
        forall|j: int| k < j < ops.len() ==> !(!(#[trigger] ops[j]).0 && ops[j].1 == info.id@),
    ensures
        after_calls(infos, ops).contains_key(info.id@),
        after_calls(infos, ops)[info.id@] == info,
    decreases ops.len(),
{
    let last = ops.len() - 1;
    assert(ops.drop_last() =~= ops.take(last));
    if k == last {
    } else {
        let pre = ops.drop_last();
        assert forall|j: int| 0 <= j < pre.len() && #[trigger] pre[j].0 implies !after_calls(infos, pre.take(j)).contains_key(
            pre[j].2.id@,
        ) by {
            assert(pre.take(j) =~= ops.take(j));
            assert(pre[j] == ops[j]);
        }
        assert forall|j: int| k < j < pre.len() implies !(!(#[trigger] pre[j]).0 && pre[j].1 == info.id@) by {
            assert(pre[j] == ops[j]);
        }
        lemma_still_loaded(infos, pre, k, info);
        if ops[last].0 {
            assert(!after_calls(infos, ops.take(last)).contains_key(ops[last].2.id@));
        }
    }
}

/// The plugin list after loads and unloads: a plugin that was loaded with
/// description `info`, and not unloaded since, is listed exactly once, as
/// `info`; the list holds one entry for each loaded plugin and its ids are
/// distinct.
pub proof fn lemma_listed_once_after_calls(
    infos: Map<Seq<char>, PluginInfo>,
    ops: Seq<(bool, Seq<char>, PluginInfo)>,
    k: int,
    info: PluginInfo,
    r: Seq<PluginInfo>,
)
    requires
        0 <= k < ops.len(),
        ops[k].0 && ops[k].2 == info,
        loads_succeeded(infos, ops),
        forall|j: int| k < j < ops.len() ==> !(!(#[trigger] ops[j]).0 && ops[j].1 == info.id@),
        lists_exactly(r, after_calls(infos, ops)),
    ensures
        exists|i: int| 0 <= i < r.len() && r[i] == info && forall|j: int| 0 <= j < r.len() && #[trigger] r[j].id@ == info.id@ ==> j == i,
        r.len() == after_calls(infos, ops).dom().len(),
        forall|i: int, j: int| 0 <= i < j < r.len() ==> r[i].id@ != r[j].id@,
{
    lemma_still_loaded(infos, ops, k, info);
    let m = after_calls(infos, ops);
    assert(m.contains_key(info.id@));
    let i = choose|i: int| 0 <= i < r.len() && r[i] == m[info.id@];
    assert forall|j: int| 0 <= j < r.len() && #[trigger] r[j].id@ == info.id@ implies j == i by {
        if j != i {
            assert(r[i].id@ == info.id@);
        }
    }
}

/// The descriptions of all loaded plugins, each once.
pub fn list_plugins<P>(table: &PluginTable<P>) -> (r: Vec<PluginInfo>)
    requires
        table.wf(),
    ensures
        lists_exactly(r@, table.infos()),
{
    let entries = table.plugins.entries();
    proof {
        table.plugins.lemma_seq();
    }
    let mut out: Vec<PluginInfo> = Vec::new();
    let mut i: usize = 0;
    while i < entries.len()
        invariant
            table.wf(),
            entries@ == table.plugins.seq(),
            i <= entries@.len(),
            out@.len() == i,
            forall|j: int| 0 <= j < i ==> #[trigger] out@[j] == entries@[j].1.info,
        decreases entries@.len() - i,
    {
        out.push(entries[i].1.info.duplicate());
        i = i + 1;
    }
    proof {
        assert(table.infos().dom() =~= table.plugins@.dom());
        assert forall|i: int| 0 <= i < out@.len() implies table.infos().contains_key(#[trigger] out@[i].id@)
            && table.infos()[out@[i].id@] == out@[i] by {
            assert(table.plugins@.contains_key(entries@[i].0@));
            assert(table.plugins@[entries@[i].0@].info.id@ == entries@[i].0@);
        }
        assert forall|i: int, j: int| 0 <= i < j < out@.len() implies out@[i].id@ != out@[j].id@ by {
            assert(table.plugins@[entries@[i].0@].info.id@ == entries@[i].0@);
            assert(table.plugins@[entries@[j].0@].info.id@ == entries@[j].0@);
        }
        assert forall|k: Seq<char>| #[trigger] table.infos().contains_key(k) implies exists|i: int|
            0 <= i < out@.len() && out@[i] == table.infos()[k] by {
            assert(table.plugins@.contains_key(k));
            let i = choose|i: int| 0 <= i < table.plugins.seq().len() && #[trigger] table.plugins.seq()[i].0@ == k;
            assert(out@[i] == entries@[i].1.info);
        }
    }
    out
}

/// The plugin serving `category`: an active plugin whose manifest names
/// that category, if there is one.
pub open spec fn serves(t: Map<Seq<char>, PluginManifest>, infos: Map<Seq<char>, PluginInfo>, id: Seq<char>, category: Seq<char>) -> bool {
    t.contains_key(id) && t[id].plugin.category@ == category && infos[id].active
}

/// The id of an active plugin of `category`, or `None` when there is none.
pub fn find_plugin_by_category<P>(table: &PluginTable<P>, category: &str) -> (r: Option<String>)
    requires
        table.wf(),
    ensures
        r matches Some(id) ==> serves(table.manifests(), table.infos(), id@, category@) && table.infos().contains_key(id@),
        r is None ==> forall|id: Seq<char>| !serves(table.manifests(), table.infos(), id, category@),
{
    let entries = table.plugins.entries();
    proof {
        table.plugins.lemma_seq();
    }
    let mut i: usize = 0;
    while i < entries.len()
        invariant
            table.wf(),
            entries@ == table.plugins.seq(),
            i <= entries@.len(),
            forall|j: int| 0 <= j < i ==> !(#[trigger] entries@[j].1.manifest_data.plugin.category@ == category@
                && entries@[j].1.info.active),
        decreases entries@.len() - i,
    {
        let lp = &entries[i].1;
        if str_eq(lp.manifest_data.plugin.category.as_str(), category) && lp.info.active {
            proof {
                table.plugins.lemma_seq();
                let k = entries@[i as int].0@;
                assert(table.plugins@.contains_key(k));
                assert(table.plugins@[k] == entries@[i as int].1);
                assert(lp.info.id@ == k);
                assert(table.manifests().contains_key(k));
                assert(table.manifests()[k] == lp.manifest_data);
                assert(table.infos()[k] == lp.info);
            }
            return Some(lp.info.id.clone());
        }
        i = i + 1;
    }
    proof {
        table.plugins.lemma_seq();
        assert forall|id: Seq<char>| !serves(table.manifests(), table.infos(), id, category@) by {
            if serves(table.manifests(), table.infos(), id, category@) {
                let j = choose|j: int| 0 <= j < table.plugins.seq().len() && #[trigger] table.plugins.seq()[j].0@ == id;
                assert(entries@[j].1.manifest_data.plugin.category@ == category@ && entries@[j].1.info.active);
            }
        }
    }
    None
}

} // verus!
