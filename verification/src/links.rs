//! Linking and unlinking component overrides.
//!
//! Each operation takes the loaded configuration, records or removes an
//! override, and leaves persisting the result to the caller.  Build roots
//! arrive already resolved to canonical absolute paths, together with the
//! filesystem probes the derivations need.

use vstd::prelude::*;
use vstd::string::*;
use crate::config::{ComponentConfig, ComponentConfigV, ComponentMode, DevConfig};
use crate::paths;
use crate::strutil;

verus! {

/// The override a plugin link stores for build root `root`.
pub open spec fn spec_plugin_component(root: Seq<char>, plugins_mpf_exists: bool)
    -> ComponentConfigV {
    ComponentConfigV {
        mode: ComponentMode::Source,
        lib: Option::Some(paths::spec_plugin_lib(root, plugins_mpf_exists)),
        qml: Option::Some(root + "/qml"@),
        plugin: Option::Some(root),
        headers: Option::None,
        bin: Option::None,
    }
}

/// Link a plugin: derive its paths from the build root and store them
/// under the plugin-prefixed key, which is returned.
pub fn link_plugin(config: &mut DevConfig, name: &str, root: &str, plugins_mpf_exists: bool) -> (r:
    String)
    requires
        old(config)@.wf(),
    ensures
        r@ == crate::config::spec_plugin_key(name@),
        final(config)@.wf(),
        final(config)@.sdk_version == old(config)@.sdk_version,
        final(config)@.components =~= old(config)@.spec_set_entry(
            crate::config::spec_plugin_key(name@),
            spec_plugin_component(root@, plugins_mpf_exists),
        ),
        final(config)@.has_component(crate::config::spec_plugin_key(name@)),
        final(config)@.component(crate::config::spec_plugin_key(name@)) == spec_plugin_component(
            root@,
            plugins_mpf_exists,
        ),
{
    let derived = paths::derive_plugin_paths(root, plugins_mpf_exists);
    let key = crate::config::plugin_key(name);
    let entry = ComponentConfig {
        mode: ComponentMode::Source,
        lib: Some(derived.lib),
        qml: Some(derived.qml),
        plugin: Some(derived.plugin),
        headers: None,
        bin: None,
    };
    let out = key.clone();
    config.set_component(key, entry);
    out
}

/// The override a host link stores for build root `root`.
pub open spec fn spec_host_component(
    root: Seq<char>,
    bin_has_exe: bool,
    root_has_exe: bool,
    qml_exists: bool,
) -> ComponentConfigV {
    ComponentConfigV {
        mode: ComponentMode::Source,
        lib: Option::None,
        qml: Option::Some(paths::spec_host_qml(root, qml_exists)),
        plugin: Option::None,
        headers: Option::None,
        bin: Option::Some(paths::spec_host_bin(root, bin_has_exe, root_has_exe)),
    }
}

/// Link the host: derive its binary and UI-resource paths from the build
/// root and store them under the reserved key `host`.
pub fn link_host(
    config: &mut DevConfig,
    root: &str,
    bin_has_exe: bool,
    root_has_exe: bool,
    qml_exists: bool,
)
    requires
        old(config)@.wf(),
    ensures
        final(config)@.wf(),
        final(config)@.sdk_version == old(config)@.sdk_version,
        final(config)@.components =~= old(config)@.spec_set_entry(
            "host"@,
            spec_host_component(root@, bin_has_exe, root_has_exe, qml_exists),
        ),
        final(config)@.has_component("host"@),
        final(config)@.component("host"@) == spec_host_component(
            root@,
            bin_has_exe,
            root_has_exe,
            qml_exists,
        ),
{
    let derived = paths::derive_host_paths(root, bin_has_exe, root_has_exe, qml_exists);
    let entry = ComponentConfig {
        mode: ComponentMode::Source,
        lib: None,
        qml: Some(derived.qml),
        plugin: None,
        headers: None,
        bin: Some(derived.bin),
    };
    config.set_component(String::from_str("host"), entry);
}

/// The override a generic library link stores for build root `root`.
pub open spec fn spec_library_component(
    root: Seq<char>,
    lib_exists: bool,
    bin_exists: bool,
    qml_exists: bool,
    include_exists: bool,
) -> ComponentConfigV {
    ComponentConfigV {
        mode: ComponentMode::Source,
        lib: Option::Some(paths::spec_library_lib(root, lib_exists, bin_exists)),
        qml: if qml_exists {
            Option::Some(root + "/qml"@)
        } else {
            Option::None
        },
        plugin: Option::None,
        headers: if include_exists {
            Option::Some(root + "/include"@)
        } else {
            Option::None
        },
        bin: Option::None,
    }
}

/// Link a generic library component: derive its paths from the build root
/// and store them under the given name.
pub fn link_component(
    config: &mut DevConfig,
    name: &str,
    root: &str,
    lib_exists: bool,
    bin_exists: bool,
    qml_exists: bool,
    include_exists: bool,
)
    requires
        old(config)@.wf(),
    ensures
        final(config)@.wf(),
        final(config)@.sdk_version == old(config)@.sdk_version,
        final(config)@.components =~= old(config)@.spec_set_entry(
            name@,
            spec_library_component(root@, lib_exists, bin_exists, qml_exists, include_exists),
        ),
        final(config)@.has_component(name@),
        final(config)@.component(name@) == spec_library_component(
            root@,
            lib_exists,
            bin_exists,
            qml_exists,
            include_exists,
        ),
{
    let derived = paths::derive_library_paths(root, lib_exists, bin_exists, qml_exists,
        include_exists);
    let entry = ComponentConfig {
        mode: ComponentMode::Source,
        lib: Some(derived.lib),
        qml: derived.qml,
        plugin: None,
        headers: derived.headers,
        bin: None,
    };
    config.set_component(name.to_owned(), entry);
}

/// The first of two optional values that is present.
pub open spec fn spec_or(a: Option<Seq<char>>, b: Option<Seq<char>>) -> Option<Seq<char>> {
    match a {
        Option::Some(_) => a,
        Option::None => b,
    }
}

/// The override a manual link stores.  Explicit field values win over
/// host-derived values, which win over plugin-derived values, field by
/// field.
pub open spec fn spec_manual_component(
    lib: Option<Seq<char>>,
    qml: Option<Seq<char>>,
    plugin: Option<Seq<char>>,
    headers: Option<Seq<char>>,
    bin: Option<Seq<char>>,
    host: Option<Seq<char>>,
    plugin_mpf_exists: bool,
    host_bin_has_exe: bool,
    host_root_has_exe: bool,
    host_qml_exists: bool,
) -> ComponentConfigV {
    let derived_lib = match plugin {
        Option::Some(p) => Option::Some(paths::spec_plugin_lib(p, plugin_mpf_exists)),
        Option::None => Option::None,
    };
    let derived_plugin_qml = match plugin {
        Option::Some(p) => Option::Some(p + "/qml"@),
        Option::None => Option::None,
    };
    let derived_bin = match host {
        Option::Some(h) => Option::Some(
            paths::spec_host_bin(h, host_bin_has_exe, host_root_has_exe),
        ),
        Option::None => Option::None,
    };
    let derived_host_qml = match host {
        Option::Some(h) => Option::Some(paths::spec_host_qml(h, host_qml_exists)),
        Option::None => Option::None,
    };
    ComponentConfigV {
        mode: ComponentMode::Source,
        lib: spec_or(lib, derived_lib),
        qml: spec_or(qml, spec_or(derived_host_qml, derived_plugin_qml)),
        plugin,
        headers,
        bin: spec_or(bin, derived_bin),
    }
}

/// What a manual link found worth pointing out.
#[derive(Clone, Copy, Debug, PartialEq, Eq, Structural)]
pub struct LinkWarnings {
    /// The component name is not one of the recognized names.
    pub unknown_component: bool,
    /// A binary path was given for a component other than the host.
    pub bin_outside_host: bool,
}

/// Link a component with manually specified paths, combined with paths
/// derived from an optional plugin or host build root.  Every path
/// arrives already resolved; the probe flags describe the derivation
/// roots as on disk.  Stores under the literal `component` name and
/// reports the non-fatal conditions the caller may surface.
pub fn link(
    config: &mut DevConfig,
    component: &str,
    lib: Option<String>,
    qml: Option<String>,
    plugin: Option<String>,
    headers: Option<String>,
    bin: Option<String>,
    host: Option<String>,
    plugin_mpf_exists: bool,
    host_bin_has_exe: bool,
    host_root_has_exe: bool,
    host_qml_exists: bool,
) -> (r: LinkWarnings)
    requires
        old(config)@.wf(),
    ensures
        r.unknown_component == !crate::config::spec_is_known_component(component@),
        r.bin_outside_host == (bin is Some && component@ != "host"@),
        final(config)@.wf(),
        final(config)@.sdk_version == old(config)@.sdk_version,
        final(config)@.components =~= old(config)@.spec_set_entry(
            component@,
            spec_manual_component(
                crate::config::view_opt(lib),
                crate::config::view_opt(qml),
                crate::config::view_opt(plugin),
                crate::config::view_opt(headers),
                crate::config::view_opt(bin),
                crate::config::view_opt(host),
                plugin_mpf_exists,
                host_bin_has_exe,
                host_root_has_exe,
                host_qml_exists,
            ),
        ),
        final(config)@.has_component(component@),
        final(config)@.component(component@) == spec_manual_component(
            crate::config::view_opt(lib),
            crate::config::view_opt(qml),
            crate::config::view_opt(plugin),
            crate::config::view_opt(headers),
            crate::config::view_opt(bin),
            crate::config::view_opt(host),
            plugin_mpf_exists,
            host_bin_has_exe,
            host_root_has_exe,
            host_qml_exists,
        ),
{
    let warnings = LinkWarnings {
        unknown_component: !crate::config::is_known_component(component),
        bin_outside_host: bin.is_some() && !strutil::str_eq(component, "host"),
    };
    let (derived_lib, derived_plugin_qml) = match &plugin {
        Some(p) => {
            let d = paths::derive_plugin_paths(p.as_str(), plugin_mpf_exists);
            (Some(d.lib), Some(d.qml))
        },
        None => (None, None),
    };
    let (derived_bin, derived_host_qml) = match &host {
        Some(h) => {
            let d = paths::derive_host_paths(
                h.as_str(),
                host_bin_has_exe,
                host_root_has_exe,
                host_qml_exists,
            );
            (Some(d.bin), Some(d.qml))
        },
        None => (None, None),
    };
    let final_lib = or_string(lib, derived_lib);
    let final_qml = or_string(qml, or_string(derived_host_qml, derived_plugin_qml));
    let final_bin = or_string(bin, derived_bin);
    let entry = ComponentConfig {
        mode: ComponentMode::Source,
        lib: final_lib,
        qml: final_qml,
        plugin,
        headers,
        bin: final_bin,
    };
    config.set_component(component.to_owned(), entry);
    warnings
}

/// The first of two optional strings that is present.
fn or_string(a: Option<String>, b: Option<String>) -> (r: Option<String>)
    ensures
        crate::config::view_opt(r) == spec_or(
            crate::config::view_opt(a),
            crate::config::view_opt(b),
        ),
{
    match a {
        Some(s) => Some(s),
        None => b,
    }
}

/// What an unlink did.
#[derive(Clone, Copy, Debug, PartialEq, Eq, Structural)]
pub enum UnlinkOutcome {
    /// The wildcard emptied the whole mapping; holds how many entries
    /// were removed.
    ClearedAll { removed: usize },
    /// The entry stored under the given name was removed.
    RemovedExact,
    /// The entry stored under the plugin-prefixed form of the given name
    /// was removed.
    RemovedPrefixed,
    /// Nothing was stored under either name; the configuration is
    /// unchanged.
    NotLinked,
}

/// Remove a component override.  The reserved name `all` empties the
/// mapping; otherwise the exact name is tried first and then the
/// plugin-prefixed form, so a plugin can be unlinked by its short name.
pub fn unlink(config: &mut DevConfig, name: &str) -> (r: UnlinkOutcome)
    requires
        old(config)@.wf(),
    ensures
        final(config)@.wf(),
        final(config)@.sdk_version == old(config)@.sdk_version,
        name@ == "all"@ ==> r == (UnlinkOutcome::ClearedAll {
            removed: old(config)@.components.len() as usize,
        }) && final(config)@.components =~= Seq::<(Seq<char>, ComponentConfigV)>::empty(),
        name@ != "all"@ && old(config)@.has_component(name@) ==> r == UnlinkOutcome::RemovedExact
            && final(config)@.components =~= old(config)@.components.remove(
            old(config)@.spec_index_of(name@),
        ) && !final(config)@.has_component(name@),
        name@ != "all"@ && !old(config)@.has_component(name@) && old(config)@.has_component(
            "plugin-"@ + name@,
        ) ==> r == UnlinkOutcome::RemovedPrefixed && final(config)@.components =~= old(config)@.components.remove(old(config)@.spec_index_of("plugin-"@ + name@)) && !final(config)@.has_component("plugin-"@ + name@),
        name@ != "all"@ && !old(config)@.has_component(name@) && !old(config)@.has_component(
            "plugin-"@ + name@,
        ) ==> r == UnlinkOutcome::NotLinked && final(config)@.components =~= old(config)@.components,
{
    if strutil::str_eq(name, "all") {
        let removed = config.clear_components();
        return UnlinkOutcome::ClearedAll { removed };
    }
    if config.remove_component(name) {
        return UnlinkOutcome::RemovedExact;
    }
    let mut prefixed = String::from_str("plugin-");
    prefixed.append(name);
    if config.remove_component(prefixed.as_str()) {
        return UnlinkOutcome::RemovedPrefixed;
    }
    UnlinkOutcome::NotLinked
}

} // verus!
