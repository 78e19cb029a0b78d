use vstd::prelude::*;

verus! {

/// A chat message as the host's API hands it out.
#[derive(Debug)]
pub struct Message {
    pub from: String,
    pub to: String,
    pub text: String,
    pub timestamp: u64,
}

/// A loaded plugin as the host's API describes it.
#[derive(Debug)]
pub struct PluginInfo {
    pub id: String,
    pub name: String,
    pub version: String,
    pub category: String,
    pub description: String,
    pub active: bool,
    pub permissions: PluginPermissions,
}

/// What a plugin may touch.
#[derive(Clone, Copy, Debug, PartialEq, Eq, Structural)]
pub struct PluginPermissions {
    pub network: bool,
    pub filesystem: bool,
    pub contacts: bool,
    pub clipboard: bool,
    pub notifications: bool,
}

impl PluginInfo {
    /// An equal copy.
    pub fn duplicate(&self) -> (p: PluginInfo)
        ensures
            p == *self,
    {
        PluginInfo {
            id: self.id.clone(),
            name: self.name.clone(),
            version: self.version.clone(),
            category: self.category.clone(),
            description: self.description.clone(),
            active: self.active,
            permissions: self.permissions,
        }
    }
}

} // verus!
