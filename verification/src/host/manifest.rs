use vstd::prelude::*;

verus! {

/// A plugin's manifest as the supervisor reads it.
pub struct PluginManifest {
    pub plugin: PluginInfo,
    pub events: EventsConfig,
    pub supervisor: SupervisorConfig,
    pub permissions: PermissionsConfig,
}

/// The `[plugin]` section: identity and the integrity data of the module.
pub struct PluginInfo {
    pub id: String,
    pub version: String,
    pub sha256: String,
    pub signature: String,
    pub wasm_path: String,
}

/// The `[events]` section: topics the plugin listens to and its queue bound.
pub struct EventsConfig {
    pub subscriptions: Vec<String>,
    pub max_queue_size: usize,
}

/// The `[supervisor]` section.
pub struct SupervisorConfig {
    pub restart_policy: RestartPolicy,
    pub max_retries: u32,
}

/// What the supervisor does when a plugin's handler fails.
#[derive(Clone, Copy, Debug, PartialEq, Eq, Structural)]
pub enum RestartPolicy {
    Always,
    OnFailure,
    Never,
}

/// The `[permissions]` section; every field defaults to "nothing granted".
pub struct PermissionsConfig {
    pub network: bool,
    pub filesystem: bool,
    pub allowed_dirs: Vec<String>,
}

impl Default for PermissionsConfig {
    fn default() -> (res: Self)
        ensures
            !res.network,
            !res.filesystem,
            res.allowed_dirs@.len() == 0,
    {
        PermissionsConfig { network: false, filesystem: false, allowed_dirs: Vec::new() }
    }
}

/// Equal copies of the strings.
pub fn copy_strings(v: &Vec<String>) -> (w: Vec<String>)
    ensures
        w@ == v@,
{
    let mut w: Vec<String> = Vec::new();
    let mut i: usize = 0;
    while i < v.len()
        invariant
            i <= v@.len(),
            w@ == v@.subrange(0, i as int),
        decreases v@.len() - i,
    {
        w.push(v[i].clone());
        i = i + 1;
        assert(w@ =~= v@.subrange(0, i as int));
    }
    assert(w@ =~= v@);
    w
}

impl PluginManifest {
    /// An equal copy.
    pub fn duplicate(&self) -> (m: PluginManifest)
        ensures
            m.plugin == self.plugin,
            m.events.subscriptions@ == self.events.subscriptions@,
            m.events.max_queue_size == self.events.max_queue_size,
            m.supervisor == self.supervisor,
            m.permissions.network == self.permissions.network,
            m.permissions.filesystem == self.permissions.filesystem,
            m.permissions.allowed_dirs@ == self.permissions.allowed_dirs@,
    {
        PluginManifest {
            plugin: PluginInfo {
                id: self.plugin.id.clone(),
                version: self.plugin.version.clone(),
                sha256: self.plugin.sha256.clone(),
                signature: self.plugin.signature.clone(),
                wasm_path: self.plugin.wasm_path.clone(),
            },
            events: EventsConfig {
                subscriptions: copy_strings(&self.events.subscriptions),
                max_queue_size: self.events.max_queue_size,
            },
            supervisor: SupervisorConfig {
                restart_policy: self.supervisor.restart_policy,
                max_retries: self.supervisor.max_retries,
            },
            permissions: PermissionsConfig {
                network: self.permissions.network,
                filesystem: self.permissions.filesystem,
                allowed_dirs: copy_strings(&self.permissions.allowed_dirs),
            },
        }
    }
}

impl RestartPolicy {
    /// Whether a failed handler may be restarted under this policy.
    pub open spec fn allows_restart(self) -> bool {
        self == RestartPolicy::Always || self == RestartPolicy::OnFailure
    }
}

} // verus!
