//! Package plugins: what they are and which ones a project has.

pub mod discovery;
pub mod protocol;

use vstd::prelude::*;
use crate::paths::{join_path, joined};
use crate::plugin::discovery::DiscoveredPlugin;
use crate::text::{debug_text, decimal, format_debug_text, push_decimal, str_eq};
use crate::types::{CommandPluginCapability, NetworkScope, PluginCapability, PluginPermission};

verus! {

/// What can go wrong with a plugin.
#[derive(Debug)]
pub enum PluginError {
    NotFound(String),
    CompilationFailed(String),
    ExecutionFailed(String),
    ProtocolError(String),
    PermissionDenied(String),
    SandboxError(String),
    IoError(String),
    JsonError(String),
    ManifestError(String),
}

/// The message of an error.
pub open spec fn plugin_error_text(e: PluginError) -> Seq<char> {
    match e {
        PluginError::NotFound(m) => "Plugin not found: "@ + m@,
        PluginError::CompilationFailed(m) => "Plugin compilation failed: "@ + m@,
        PluginError::ExecutionFailed(m) => "Plugin execution failed: "@ + m@,
        PluginError::ProtocolError(m) => "Plugin protocol error: "@ + m@,
        PluginError::PermissionDenied(m) => "Permission denied: "@ + m@,
        PluginError::SandboxError(m) => "Sandbox error: "@ + m@,
        PluginError::IoError(m) => "IO error: "@ + m@,
        PluginError::JsonError(m) => "JSON error: "@ + m@,
        PluginError::ManifestError(m) => "Manifest error: "@ + m@,
    }
}

impl PluginError {
    /// The message of the error.
    pub fn to_string(&self) -> (out: String)
        ensures
            out@ == plugin_error_text(*self),
    {
        match self {
            PluginError::NotFound(m) => crate::text::concat("Plugin not found: ", m.as_str()),
            PluginError::CompilationFailed(m) => crate::text::concat(
                "Plugin compilation failed: ",
                m.as_str(),
            ),
            PluginError::ExecutionFailed(m) => crate::text::concat(
                "Plugin execution failed: ",
                m.as_str(),
            ),
            PluginError::ProtocolError(m) => crate::text::concat(
                "Plugin protocol error: ",
                m.as_str(),
            ),
            PluginError::PermissionDenied(m) => crate::text::concat(
                "Permission denied: ",
                m.as_str(),
            ),
            PluginError::SandboxError(m) => crate::text::concat("Sandbox error: ", m.as_str()),
            PluginError::IoError(m) => crate::text::concat("IO error: ", m.as_str()),
            PluginError::JsonError(m) => crate::text::concat("JSON error: ", m.as_str()),
            PluginError::ManifestError(m) => crate::text::concat("Manifest error: ", m.as_str()),
        }
    }
}

/// A plugin that is ready to run.
#[derive(Debug)]
pub struct Plugin {
    pub name: String,
    pub capability: PluginCapability,
    /// Path to the compiled plugin.
    pub executable: String,
    pub permissions: Vec<PluginPermission>,
    /// The package that provides the plugin.
    pub source_package: String,
}

impl Plugin {
    /// Whether this plugin runs during the build.
    pub fn is_build_tool(&self) -> (r: bool)
        ensures
            r == (self.capability is BuildTool),
    {
        match &self.capability {
            PluginCapability::BuildTool => true,
            PluginCapability::Command(_) => false,
        }
    }

    /// Whether this plugin adds a command.
    pub fn is_command(&self) -> (r: bool)
        ensures
            r == (self.capability is Command),
    {
        match &self.capability {
            PluginCapability::BuildTool => false,
            PluginCapability::Command(_) => true,
        }
    }

    /// What the command is for, if this plugin adds one.
    pub fn command_intent(&self) -> (r: Option<&CommandPluginCapability>)
        ensures
            match r {
                Some(c) => self.capability == PluginCapability::Command(*c),
                None => self.capability is BuildTool,
            },
    {
        match &self.capability {
            PluginCapability::Command(cap) => Some(cap),
            PluginCapability::BuildTool => None,
        }
    }
}

/// Whether two capabilities are of the same kind, and for commands have
/// the same intent and permissions.
pub open spec fn same_capability(a: PluginCapability, b: PluginCapability) -> bool {
    match (a, b) {
        (PluginCapability::BuildTool, PluginCapability::BuildTool) => true,
        (PluginCapability::Command(x), PluginCapability::Command(y)) => x.intent == y.intent
            && x.permissions@ == y.permissions@,
        _ => false,
    }
}

/// A copy of a permission.
pub fn clone_permission(p: &PluginPermission) -> (r: PluginPermission)
    ensures
        r == *p,
{
    match p {
        PluginPermission::WriteToPackageDirectory { reason } => {
            PluginPermission::WriteToPackageDirectory { reason: reason.clone() }
        },
        PluginPermission::AllowNetworkConnections { scope, reason } => {
            PluginPermission::AllowNetworkConnections { scope: *scope, reason: reason.clone() }
        },
    }
}

/// Keeps the plugins of a project.
#[derive(Debug)]
pub struct PluginManager {
    cache_dir: String,
    plugins: Vec<Plugin>,
    use_sandbox: bool,
}

impl PluginManager {
    /// The directory of the compiled plugins.
    pub closed spec fn cache_dir(&self) -> Seq<char> {
        self.cache_dir@
    }

    /// The plugins that are loaded, in the order in which they were found.
    pub closed spec fn loaded(&self) -> Seq<Plugin> {
        self.plugins@
    }

    /// Whether plugins run in a sandbox.
    pub closed spec fn sandboxed(&self) -> bool {
        self.use_sandbox
    }

    /// A manager without plugins, whose plugins are to run in a sandbox.
    pub fn new(cache_dir: &str) -> (r: Self)
        ensures
            r.cache_dir() == cache_dir@,
            r.loaded().len() == 0,
            r.sandboxed(),
    {
        PluginManager { cache_dir: String::from_str(cache_dir), plugins: Vec::new(), use_sandbox: true }
    }

    /// The same manager, with plugins running outside a sandbox.
    pub fn without_sandbox(self) -> (r: Self)
        ensures
            r.cache_dir() == self.cache_dir(),
            r.loaded() == self.loaded(),
            !r.sandboxed(),
    {
        let mut r = self;
        r.use_sandbox = false;
        r
    }

    /// The plugin that a discovered plugin becomes: its executable lives
    /// under its name in the directory of the compiled plugins.
    pub fn load_plugin(&self, info: &DiscoveredPlugin) -> (r: Plugin)
        ensures
            r.name@ == info.name@,
            same_capability(r.capability, info.capability),
            r.executable@ == joined(self.cache_dir(), info.name@),
            r.permissions@ == info.permissions@,
            r.source_package@ == info.source_package@,
    {
        let capability = match &info.capability {
            PluginCapability::BuildTool => PluginCapability::BuildTool,
            PluginCapability::Command(cap) => PluginCapability::Command(
                CommandPluginCapability {
                    intent: clone_intent(&cap.intent),
                    permissions: clone_permissions(&cap.permissions),
                },
            ),
        };
        Plugin {
            name: info.name.clone(),
            capability,
            executable: join_path(self.cache_dir.as_str(), info.name.as_str()),
            permissions: clone_permissions(&info.permissions),
            source_package: info.source_package.clone(),
        }
    }

    /// Loads the plugins that were found and keeps them, behind those that
    /// are there.
    pub fn discover(&mut self, found: &Vec<DiscoveredPlugin>)
        ensures
            final(self).cache_dir() == old(self).cache_dir(),
            final(self).sandboxed() == old(self).sandboxed(),
            final(self).loaded().len() == old(self).loaded().len() + found@.len(),
            forall|i: int|
                0 <= i < old(self).loaded().len() ==> final(self).loaded()[i] == old(
                    self,
                ).loaded()[i],
            forall|i: int|
                0 <= i < found@.len() ==> {
                    let p = #[trigger] final(self).loaded()[old(self).loaded().len() + i];
                    &&& p.name@ == found@[i].name@
                    &&& same_capability(p.capability, found@[i].capability)
                    &&& p.executable@ == joined(old(self).cache_dir(), found@[i].name@)
                    &&& p.permissions@ == found@[i].permissions@
                    &&& p.source_package@ == found@[i].source_package@
                },
    {
        let ghost before = self.plugins@;
        let mut i: usize = 0;
        while i < found.len()
            invariant
                i <= found@.len(),
                self.cache_dir == old(self).cache_dir,
                self.use_sandbox == old(self).use_sandbox,
                before == old(self).plugins@,
                self.plugins@.len() == before.len() + i,
                forall|k: int| 0 <= k < before.len() ==> self.plugins@[k] == before[k],
                forall|k: int|
                    0 <= k < i ==> {
                        let p = #[trigger] self.plugins@[before.len() + k];
                        &&& p.name@ == found@[k].name@
                        &&& same_capability(p.capability, found@[k].capability)
                        &&& p.executable@ == joined(old(self).cache_dir(), found@[k].name@)
                        &&& p.permissions@ == found@[k].permissions@
                        &&& p.source_package@ == found@[k].source_package@
                    },
            decreases found@.len() - i,
        {
            let plugin = self.load_plugin(&found[i]);
            self.plugins.push(plugin);
            i = i + 1;
        }
    }

    /// The plugins that are loaded.
    pub fn plugins(&self) -> (r: &Vec<Plugin>)
        ensures
            r@ == self.loaded(),
    {
        &self.plugins
    }

    /// The plugins that add a command, in order.
    pub fn command_plugins(&self) -> (r: Vec<&Plugin>)
        ensures
            r@.map_values(|p: &Plugin| *p) == self.loaded().filter(
                |p: Plugin| p.capability is Command,
            ),
    {
        let mut out: Vec<&Plugin> = Vec::new();
        let mut i: usize = 0;
        let ghost pred = |p: Plugin| p.capability is Command;
        proof {
            reveal(Seq::filter);
            assert(self.plugins@.take(0).filter(pred) =~= Seq::<Plugin>::empty());
            assert(out@.map_values(|p: &Plugin| *p) =~= Seq::<Plugin>::empty());
        }
        while i < self.plugins.len()
            invariant
                i <= self.plugins@.len(),
                pred == (|p: Plugin| p.capability is Command),
                out@.map_values(|p: &Plugin| *p) == self.plugins@.take(i as int).filter(pred),
            decreases self.plugins@.len() - i,
        {
            proof {
                reveal(Seq::filter);
                let t = self.plugins@.take(i + 1);
                assert(t.drop_last() =~= self.plugins@.take(i as int));
                assert(t.last() == self.plugins@[i as int]);
            }
            if self.plugins[i].is_command() {
                let ghost before = out@;
                out.push(&self.plugins[i]);
                assert(out@.map_values(|p: &Plugin| *p) =~= before.map_values(
                    |p: &Plugin| *p,
                ).push(self.plugins@[i as int]));
            }
            i = i + 1;
        }
        assert(self.plugins@.take(i as int) =~= self.plugins@);
        out
    }

    /// The plugins that run during the build, in order.
    pub fn build_tool_plugins(&self) -> (r: Vec<&Plugin>)
        ensures
            r@.map_values(|p: &Plugin| *p) == self.loaded().filter(
                |p: Plugin| p.capability is BuildTool,
            ),
    {
        let mut out: Vec<&Plugin> = Vec::new();
        let mut i: usize = 0;
        let ghost pred = |p: Plugin| p.capability is BuildTool;
        proof {
            reveal(Seq::filter);
            assert(self.plugins@.take(0).filter(pred) =~= Seq::<Plugin>::empty());
            assert(out@.map_values(|p: &Plugin| *p) =~= Seq::<Plugin>::empty());
        }
        while i < self.plugins.len()
            invariant
                i <= self.plugins@.len(),
                pred == (|p: Plugin| p.capability is BuildTool),
                out@.map_values(|p: &Plugin| *p) == self.plugins@.take(i as int).filter(pred),
            decreases self.plugins@.len() - i,
        {
            proof {
                reveal(Seq::filter);
                let t = self.plugins@.take(i + 1);
                assert(t.drop_last() =~= self.plugins@.take(i as int));
                assert(t.last() == self.plugins@[i as int]);
            }
            if self.plugins[i].is_build_tool() {
                let ghost before = out@;
                out.push(&self.plugins[i]);
                assert(out@.map_values(|p: &Plugin| *p) =~= before.map_values(
                    |p: &Plugin| *p,
                ).push(self.plugins@[i as int]));
            }
            i = i + 1;
        }
        assert(self.plugins@.take(i as int) =~= self.plugins@);
        out
    }

    /// The first plugin called `name`.
    pub fn find(&self, name: &str) -> (r: Option<&Plugin>)
        ensures
            match r {
                Some(p) => exists|i: int|
                    0 <= i < self.loaded().len() && #[trigger] self.loaded()[i] == *p && p.name@
                        == name@ && forall|j: int| 0 <= j < i ==> self.loaded()[j].name@ != name@,
                None => forall|i: int| 0 <= i < self.loaded().len() ==> self.loaded()[i].name@
                    != name@,
            },
    {
        let mut i: usize = 0;
        while i < self.plugins.len()
            invariant
                i <= self.plugins@.len(),
                forall|j: int| 0 <= j < i ==> self.plugins@[j].name@ != name@,
            decreases self.plugins@.len() - i,
        {
            if str_eq(self.plugins[i].name.as_str(), name) {
                assert(self.loaded()[i as int] == self.plugins@[i as int]);
                return Some(&self.plugins[i]);
            }
            i = i + 1;
        }
        None
    }

    /// The position of the first permission of the plugin that is not
    /// among those that were granted.
    fn first_ungranted(plugin: &Plugin, granted: &Vec<PluginPermission>) -> (r: Option<usize>)
        ensures
            match r {
                Some(i) => is_first_ungranted(plugin.permissions@, granted@, i as int),
                None => forall|i: int|
                    0 <= i < plugin.permissions@.len() ==> is_granted(
                        granted@,
                        #[trigger] plugin.permissions@[i],
                    ),
            },
    {
        let mut i: usize = 0;
        while i < plugin.permissions.len()
            invariant
                i <= plugin.permissions@.len(),
                forall|k: int|
                    0 <= k < i ==> is_granted(granted@, #[trigger] plugin.permissions@[k]),
            decreases plugin.permissions@.len() - i,
        {
            let mut found = false;
            let mut j: usize = 0;
            while j < granted.len() && !found
                invariant
                    j <= granted@.len(),
                    i < plugin.permissions@.len(),
                    found ==> is_granted(granted@, plugin.permissions@[i as int]),
                    !found ==> forall|k: int|
                        0 <= k < j ==> !permission_eq(
                            #[trigger] granted@[k],
                            plugin.permissions@[i as int],
                        ),
                decreases granted@.len() - j, (if found { 0int } else { 1int }),
            {
                if same_permission(&granted[j], &plugin.permissions[i]) {
                    found = true;
                } else {
                    j = j + 1;
                }
            }
            if !found {
                assert(!is_granted(granted@, plugin.permissions@[i as int]));
                return Some(i);
            }
            i = i + 1;
        }
        None
    }

    /// Whether a command plugin may run with the permissions that were
    /// granted: it must add a command, and everything it asks for must be
    /// among what was granted.
    pub fn may_run(plugin: &Plugin, granted: &Vec<PluginPermission>) -> (r: bool)
        ensures
            r == (plugin.capability is Command && forall|i: int|
                0 <= i < plugin.permissions@.len() ==> is_granted(
                    granted@,
                    #[trigger] plugin.permissions@[i],
                )),
    {
        if !plugin.is_command() {
            return false;
        }
        match PluginManager::first_ungranted(plugin, granted) {
            Some(_) => false,
            None => true,
        }
    }

    /// Decides whether a plugin may be run as a command with the
    /// permissions that were granted. A plugin that adds no command is
    /// refused; so is one that asks for a permission that was not granted,
    /// with the first such permission in the message.
    pub fn authorize(plugin: &Plugin, granted: &Vec<PluginPermission>) -> (r: Result<
        (),
        PluginError,
    >)
        ensures
            match r {
                Ok(_) => plugin.capability is Command && forall|i: int|
                    0 <= i < plugin.permissions@.len() ==> is_granted(
                        granted@,
                        #[trigger] plugin.permissions@[i],
                    ),
                Err(e) => if plugin.capability is Command {
                    exists|i: int|
                        {
                            &&& #[trigger] is_first_ungranted(plugin.permissions@, granted@, i)
                            &&& e matches PluginError::PermissionDenied(m)
                            &&& m@ == "Plugin requires permission: "@ + permission_text(
                                plugin.permissions@[i],
                            )
                        }
                } else {
                    e matches PluginError::ExecutionFailed(m) && m@ == "Not a command plugin"@
                },
            },
    {
        if !plugin.is_command() {
            return Err(PluginError::ExecutionFailed(String::from_str("Not a command plugin")));
        }
        match PluginManager::first_ungranted(plugin, granted) {
            Some(i) => {
                let mut m = String::from_str("Plugin requires permission: ");
                m.append(write_permission(&plugin.permissions[i]).as_str());
                Err(PluginError::PermissionDenied(m))
            },
            None => Ok(()),
        }
    }
}

/// Whether the permission at position `i` is the first one that is not
/// among those that were granted.
pub open spec fn is_first_ungranted(
    wanted: Seq<PluginPermission>,
    granted: Seq<PluginPermission>,
    i: int,
) -> bool {
    &&& 0 <= i < wanted.len()
    &&& !is_granted(granted, wanted[i])
    &&& forall|k: int| 0 <= k < i ==> is_granted(granted, #[trigger] wanted[k])
}

/// How a network scope is written in a message.
pub open spec fn scope_text(scope: NetworkScope) -> Seq<char> {
    match scope {
        NetworkScope::Denied => "None"@,
        NetworkScope::Local(port) => "Local("@ + decimal(port as nat) + ")"@,
        NetworkScope::All => "All"@,
        NetworkScope::Docker => "Docker"@,
    }
}

/// How a permission is written in a message: its kind, and between braces
/// what it says, the reason in debug notation.
pub open spec fn permission_text(p: PluginPermission) -> Seq<char> {
    match p {
        PluginPermission::WriteToPackageDirectory { reason } => "WriteToPackageDirectory { reason: "@
            + debug_text(reason@) + " }"@,
        PluginPermission::AllowNetworkConnections { scope, reason } =>
            "AllowNetworkConnections { scope: "@ + scope_text(scope) + ", reason: "@ + debug_text(
                reason@,
            ) + " }"@,
    }
}

fn write_permission(p: &PluginPermission) -> (out: String)
    ensures
        out@ == permission_text(*p),
{
    match p {
        PluginPermission::WriteToPackageDirectory { reason } => {
            let mut out = String::from_str("WriteToPackageDirectory { reason: ");
            out.append(format_debug_text(reason.as_str()).as_str());
            out.append(" }");
            out
        },
        PluginPermission::AllowNetworkConnections { scope, reason } => {
            let mut out = String::from_str("AllowNetworkConnections { scope: ");
            match scope {
                NetworkScope::Denied => {
                    out.append("None");
                },
                NetworkScope::Local(port) => {
                    out.append("Local(");
                    push_decimal(&mut out, *port as u64);
                    out.append(")");
                },
                NetworkScope::All => {
                    out.append("All");
                },
                NetworkScope::Docker => {
                    out.append("Docker");
                },
            }
            out.append(", reason: ");
            out.append(format_debug_text(reason.as_str()).as_str());
            out.append(" }");
            out
        },
    }
}

/// Whether two permissions are of the same kind and say the same.
pub open spec fn permission_eq(a: PluginPermission, b: PluginPermission) -> bool {
    match (a, b) {
        (
            PluginPermission::WriteToPackageDirectory { reason: x },
            PluginPermission::WriteToPackageDirectory { reason: y },
        ) => x@ == y@,
        (
            PluginPermission::AllowNetworkConnections { scope: s, reason: x },
            PluginPermission::AllowNetworkConnections { scope: t, reason: y },
        ) => s == t && x@ == y@,
        _ => false,
    }
}

/// Whether `p` is among the permissions that were granted.
pub open spec fn is_granted(granted: Seq<PluginPermission>, p: PluginPermission) -> bool {
    exists|j: int| 0 <= j < granted.len() && permission_eq(#[trigger] granted[j], p)
}

/// Whether two permissions are of the same kind and say the same.
pub fn same_permission(a: &PluginPermission, b: &PluginPermission) -> (r: bool)
    ensures
        r == permission_eq(*a, *b),
{
    match (a, b) {
        (
            PluginPermission::WriteToPackageDirectory { reason: x },
            PluginPermission::WriteToPackageDirectory { reason: y },
        ) => str_eq(x.as_str(), y.as_str()),
        (
            PluginPermission::AllowNetworkConnections { scope: s, reason: x },
            PluginPermission::AllowNetworkConnections { scope: t, reason: y },
        ) => same_scope(s, t) && str_eq(x.as_str(), y.as_str()),
        _ => false,
    }
}

/// Whether two network scopes are the same.
pub fn same_scope(a: &crate::types::NetworkScope, b: &crate::types::NetworkScope) -> (r: bool)
    ensures
        r == (*a == *b),
{
    *a == *b
}

/// A copy of a list of permissions.
pub fn clone_permissions(v: &Vec<PluginPermission>) -> (r: Vec<PluginPermission>)
    ensures
        r@ == v@,
{
    let mut r: Vec<PluginPermission> = Vec::new();
    let mut i: usize = 0;
    while i < v.len()
        invariant
            i <= v@.len(),
            r@ == v@.take(i as int),
        decreases v@.len() - i,
    {
        r.push(clone_permission(&v[i]));
        assert(v@.take(i + 1) =~= v@.take(i as int).push(v@[i as int]));
        i = i + 1;
    }
    assert(v@.take(i as int) =~= v@);
    r
}

/// A copy of an intent.
pub fn clone_intent(c: &crate::types::CommandIntent) -> (r: crate::types::CommandIntent)
    ensures
        r == *c,
{
    match c {
        crate::types::CommandIntent::DocumentationGeneration => {
            crate::types::CommandIntent::DocumentationGeneration
        },
        crate::types::CommandIntent::SourceCodeFormatting => {
            crate::types::CommandIntent::SourceCodeFormatting
        },
        crate::types::CommandIntent::Custom { verb, description } => {
            crate::types::CommandIntent::Custom {
                verb: verb.clone(),
                description: description.clone(),
            }
        },
    }
}

} // verus!
