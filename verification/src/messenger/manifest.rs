use vstd::prelude::*;
use crate::host::models::{PluginInfo, PluginPermissions};
use crate::text::str_eq;

verus! {

/// A plugin's manifest as the plugin manager reads it.
pub struct PluginManifest {
    pub plugin: PluginSection,
    pub capabilities: CapabilitiesSection,
    pub permissions: PermissionsSection,
    pub limits: LimitsSection,
}

/// The `[plugin]` section.
pub struct PluginSection {
    pub id: String,
    pub name: String,
    pub version: String,
    pub category: String,
    pub description: String,
}

/// The `[capabilities]` section; `lifecycle` names the hooks
/// (`on_load`, `on_unload`) the plugin exports.
pub struct CapabilitiesSection {
    pub provides: Vec<String>,
    pub subscribes_to: Vec<String>,
    pub emits: Vec<String>,
    pub lifecycle: Vec<String>,
}

/// The `[permissions]` section.
pub struct PermissionsSection {
    pub network: bool,
    pub filesystem: bool,
    pub contacts: bool,
    pub clipboard: bool,
    pub notifications: bool,
}

/// The `[limits]` section.
pub struct LimitsSection {
    pub max_memory_mb: u32,
    pub timeout_ms: u32,
}

/// The description of a freshly loaded plugin: the manifest's identity and
/// permissions, marked active.
pub open spec fn info_of(m: PluginManifest, p: PluginInfo) -> bool {
    &&& p.id@ == m.plugin.id@
    &&& p.name@ == m.plugin.name@
    &&& p.version@ == m.plugin.version@
    &&& p.category@ == m.plugin.category@
    &&& p.description@ == m.plugin.description@
    &&& p.active
    &&& p.permissions == PluginPermissions {
        network: m.permissions.network,
        filesystem: m.permissions.filesystem,
        contacts: m.permissions.contacts,
        clipboard: m.permissions.clipboard,
        notifications: m.permissions.notifications,
    }
}

/// The description of the plugin a manifest declares.
pub fn manifest_to_plugin_info(m: &PluginManifest) -> (p: PluginInfo)
    ensures
        info_of(*m, p),
{
    PluginInfo {
        id: m.plugin.id.clone(),
        name: m.plugin.name.clone(),
        version: m.plugin.version.clone(),
        category: m.plugin.category.clone(),
        description: m.plugin.description.clone(),
        active: true,
        permissions: PluginPermissions {
            network: m.permissions.network,
            filesystem: m.permissions.filesystem,
            contacts: m.permissions.contacts,
            clipboard: m.permissions.clipboard,
            notifications: m.permissions.notifications,
        },
    }
}

/// Whether the manifest declares the lifecycle hook `hook`.
pub open spec fn has_hook(m: PluginManifest, hook: Seq<char>) -> bool {
    exists|i: int| 0 <= i < m.capabilities.lifecycle@.len() && #[trigger] m.capabilities.lifecycle@[i]@ == hook
}

/// Whether the manifest declares the lifecycle hook `hook`.
pub fn declares_hook(m: &PluginManifest, hook: &str) -> (r: bool)
    ensures
        r == has_hook(*m, hook@),
{
    let hooks = &m.capabilities.lifecycle;
    let mut i: usize = 0;
    while i < hooks.len()
        invariant
            i <= hooks@.len(),
            hooks@ == m.capabilities.lifecycle@,
            forall|j: int| 0 <= j < i ==> hooks@[j]@ != hook@,
        decreases hooks@.len() - i,
    {
        if str_eq(hooks[i].as_str(), hook) {
            return true;
        }
        i = i + 1;
    }
    false
}

} // verus!
