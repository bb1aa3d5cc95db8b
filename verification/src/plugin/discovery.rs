//! Finding the plugins that a package provides.

use vstd::prelude::*;
use crate::paths::{join_path, joined};
use crate::types::{Manifest, PluginCapability, PluginPermission, TargetType};

verus! {

/// The kind of a plugin.
#[derive(Debug, Clone, Copy, PartialEq, Eq, Structural)]
pub enum PluginKind {
    /// Runs during the build.
    BuildTool,
    /// Adds a command.
    Command,
}

/// A plugin found in a package.
#[derive(Debug)]
pub struct DiscoveredPlugin {
    /// The name of the plugin, which is that of its target.
    pub name: String,
    pub kind: PluginKind,
    pub capability: PluginCapability,
    pub permissions: Vec<PluginPermission>,
    /// Where the sources of the plugin are.
    pub source_path: String,
    /// The package that provides the plugin.
    pub source_package: String,
}

/// What is found out about a plugin, as mathematical values. A plugin that
/// is found is a build tool without permissions.
pub struct DiscoveredModel {
    pub name: Seq<char>,
    pub source_path: Seq<char>,
    pub source_package: Seq<char>,
}

/// Whether `found` is the plugin that `model` describes.
pub open spec fn is_discovered(found: DiscoveredPlugin, model: DiscoveredModel) -> bool {
    &&& found.name@ == model.name
    &&& found.kind == PluginKind::BuildTool
    &&& found.capability is BuildTool
    &&& found.permissions@.len() == 0
    &&& found.source_path@ == model.source_path
    &&& found.source_package@ == model.source_package
}

/// The plugins among the first `upto` targets of a manifest: one for each
/// plugin target. The sources of a plugin are where its target says, else
/// under `Plugins` in a directory of the target's name.
pub open spec fn plugins_of(package_dir: Seq<char>, manifest: Manifest, upto: int) -> Seq<
    DiscoveredModel,
>
    decreases upto,
{
    if upto <= 0 {
        Seq::<DiscoveredModel>::empty()
    } else {
        let rest = plugins_of(package_dir, manifest, upto - 1);
        let target = manifest.targets@[upto - 1];
        if target.target_type == TargetType::Plugin {
            rest.push(
                DiscoveredModel {
                    name: target.name@,
                    source_path: match target.path {
                        Some(p) => p@,
                        None => joined(joined(package_dir, "Plugins"@), target.name@),
                    },
                    source_package: manifest.package.name@,
                },
            )
        } else {
            rest
        }
    }
}

/// Whether the plugins `found` are those that `models` describe, in order.
pub open spec fn are_discovered(found: Seq<DiscoveredPlugin>, models: Seq<DiscoveredModel>) -> bool {
    &&& found.len() == models.len()
    &&& forall|i: int| 0 <= i < found.len() ==> is_discovered(#[trigger] found[i], models[i])
}

/// The plugins that the package in `package_dir` provides according to its
/// manifest: see `plugins_of`.
pub fn discover_plugins(package_dir: &str, manifest: &Manifest) -> (out: Vec<DiscoveredPlugin>)
    ensures
        are_discovered(out@, plugins_of(package_dir@, *manifest, manifest.targets@.len() as int)),
{
    let mut out: Vec<DiscoveredPlugin> = Vec::new();
    let mut i: usize = 0;
    while i < manifest.targets.len()
        invariant
            i <= manifest.targets@.len(),
            are_discovered(out@, plugins_of(package_dir@, *manifest, i as int)),
        decreases manifest.targets@.len() - i,
    {
        let target = &manifest.targets[i];
        let ghost before = out@;
        let is_plugin = match target.target_type {
            TargetType::Plugin => true,
            _ => false,
        };
        if is_plugin {
            let source_path = match &target.path {
                Some(p) => p.clone(),
                None => join_path(join_path(package_dir, "Plugins").as_str(), target.name.as_str()),
            };
            out.push(
                DiscoveredPlugin {
                    name: target.name.clone(),
                    kind: PluginKind::BuildTool,
                    capability: PluginCapability::BuildTool,
                    permissions: Vec::new(),
                    source_path,
                    source_package: manifest.package.name.clone(),
                },
            );
        }
        proof {
            let later = plugins_of(package_dir@, *manifest, i + 1);
            assert forall|k: int| 0 <= k < out@.len() implies is_discovered(
                #[trigger] out@[k],
                later[k],
            ) by {
                if k < before.len() {
                    assert(out@[k] == before[k]);
                }
            }
        }
        i = i + 1;
    }
    out
}

/// The plugins of the first `upto` packages, those of the first package
/// first.
pub open spec fn all_plugins_of(packages: Seq<(String, Manifest)>, upto: int) -> Seq<
    DiscoveredModel,
>
    decreases upto,
{
    if upto <= 0 {
        Seq::<DiscoveredModel>::empty()
    } else {
        all_plugins_of(packages, upto - 1) + plugins_of(
            packages[upto - 1].0@,
            packages[upto - 1].1,
            packages[upto - 1].1.targets@.len() as int,
        )
    }
}

/// The plugins of several packages, each given by its directory and its
/// manifest, those of the first package first.
pub fn discover_all_plugins(packages: &Vec<(String, Manifest)>) -> (out: Vec<DiscoveredPlugin>)
    ensures
        are_discovered(out@, all_plugins_of(packages@, packages@.len() as int)),
{
    let mut out: Vec<DiscoveredPlugin> = Vec::new();
    let mut i: usize = 0;
    while i < packages.len()
        invariant
            i <= packages@.len(),
            are_discovered(out@, all_plugins_of(packages@, i as int)),
        decreases packages@.len() - i,
    {
        let ghost before = out@;
        let mut found = discover_plugins(packages[i].0.as_str(), &packages[i].1);
        let ghost added = found@;
        out.append(&mut found);
        proof {
            let sofar = all_plugins_of(packages@, i as int);
            let more = plugins_of(
                packages@[i as int].0@,
                packages@[i as int].1,
                packages@[i as int].1.targets@.len() as int,
            );
            assert(out@ =~= before + added);
            assert forall|k: int| 0 <= k < out@.len() implies is_discovered(
                #[trigger] out@[k],
                (sofar + more)[k],
            ) by {
                if k < before.len() {
                    assert(out@[k] == before[k]);
                } else {
                    assert(out@[k] == added[k - before.len()]);
                }
            }
        }
        i = i + 1;
    }
    out
}

} // verus!
