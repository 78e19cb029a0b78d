use vstd::prelude::*;
use crate::json::{json_text, str_member, to_json_string, JsonValue};
use crate::text::{concat, decimal, decimal_string};

verus! {

/// What the plugin manager reports.
#[derive(Debug)]
pub enum CoreError {
    PluginNotFound(String),
    PluginAlreadyLoaded(String),
    PluginCallFailed { func: String, reason: String },
    ManifestParse(String),
    WasmSizeExceeded { size: u64, limit: u64 },
    LifecycleError { plugin: String, func: String, reason: String },
    NoCategoryHandler(String),
}

/// The text of an error.
pub open spec fn error_text(e: CoreError) -> Seq<char> {
    match e {
        CoreError::PluginNotFound(id) => "plugin not found: "@ + id@,
        CoreError::PluginAlreadyLoaded(id) => "plugin '"@ + id@ + "' already loaded \u{2014} unload it first"@,
        CoreError::PluginCallFailed { func, reason } => "plugin call '"@ + func@ + "' failed: "@ + reason@,
        CoreError::ManifestParse(m) => "manifest parse error: "@ + m@,
        CoreError::WasmSizeExceeded { size, limit } => "wasm size "@ + decimal(size as nat) + " bytes exceeds limit "@
            + decimal(limit as nat) + " bytes"@,
        CoreError::LifecycleError { plugin, func, reason } => "lifecycle error in '"@ + plugin@ + "' fn '"@ + func@
            + "': "@ + reason@,
        CoreError::NoCategoryHandler(c) => "no plugin handles category '"@ + c@ + "'"@,
    }
}

/// `v` is `{"error": text, "ok": false}` (members in key order).
pub open spec fn is_error_reply(v: JsonValue, text: Seq<char>) -> bool {
    &&& v matches JsonValue::Object(fs)
    &&& fs@.len() == 2
    &&& fs@[0].0@ == "error"@ && (fs@[0].1 matches JsonValue::Str(s) && s@ == text)
    &&& fs@[1].0@ == "ok"@ && fs@[1].1 == JsonValue::Bool(false)
}

impl CoreError {
    /// The error's text.
    pub fn message(&self) -> (s: String)
        ensures
            s@ == error_text(*self),
    {
        match self {
            CoreError::PluginNotFound(id) => concat("plugin not found: ", id.as_str()),
            CoreError::PluginAlreadyLoaded(id) => {
                let a = concat("plugin '", id.as_str());
                concat(a.as_str(), "' already loaded \u{2014} unload it first")
            },
            CoreError::PluginCallFailed { func, reason } => {
                let a = concat("plugin call '", func.as_str());
                let b = concat(a.as_str(), "' failed: ");
                concat(b.as_str(), reason.as_str())
            },
            CoreError::ManifestParse(m) => concat("manifest parse error: ", m.as_str()),
            CoreError::WasmSizeExceeded { size, limit } => {
                let a = concat("wasm size ", decimal_string(*size).as_str());
                let b = concat(a.as_str(), " bytes exceeds limit ");
                let c = concat(b.as_str(), decimal_string(*limit).as_str());
                concat(c.as_str(), " bytes")
            },
            CoreError::LifecycleError { plugin, func, reason } => {
                let a = concat("lifecycle error in '", plugin.as_str());
                let b = concat(a.as_str(), "' fn '");
                let c = concat(b.as_str(), func.as_str());
                let d = concat(c.as_str(), "': ");
                concat(d.as_str(), reason.as_str())
            },
            CoreError::NoCategoryHandler(c) => {
                let a = concat("no plugin handles category '", c.as_str());
                concat(a.as_str(), "'")
            },
        }
    }

    /// `{"error": <text>, "ok": false}`.
    pub fn to_json(&self) -> (s: String)
        ensures
            exists|v: JsonValue| is_error_reply(v, error_text(*self)) && s@ == json_text(v),
    {
        let msg = self.message();
        let mut fs: Vec<(String, JsonValue)> = Vec::new();
        fs.push(str_member("error", msg.as_str()));
        fs.push((String::from_str("ok"), JsonValue::Bool(false)));
        let v = JsonValue::Object(fs);
        let s = to_json_string(&v);
        assert(is_error_reply(v, error_text(*self)));
        s
    }
}

} // verus!
