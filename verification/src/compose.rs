//! Composing the launch environment.
//!
//! Reads the current-version pointer and the loaded configuration and
//! merges the source-linked component paths (priority) with the installed
//! SDK's baseline paths (fallback) into ordered, separator-joined search
//! paths, and resolves the host executable, honoring a linked host
//! override.

use vstd::prelude::*;
use vstd::string::*;
use crate::config::{ComponentConfigV, ComponentMode, DevConfig, DevConfigV};
use crate::errors::DevError;
use crate::paths::join_path;
use crate::strutil;

verus! {

/// The environment a launch gets: the SDK directory in use, the ordered
/// search paths, and the host executable to start.
pub struct Environment {
    /// The current version's installation directory.
    pub sdk_root: String,
    /// Dynamic-library search path.
    pub lib_search_path: String,
    /// UI-resource search path.
    pub qml_search_path: String,
    /// Plugin search path.
    pub plugin_search_path: String,
    /// Search path for linked plugin overrides only; empty when no
    /// component contributes one.
    pub mpf_plugin_search_path: String,
    /// Full path of the host executable to launch.
    pub host_executable_path: String,
}

/// The library paths the source-linked components contribute, in stored
/// order.
pub open spec fn spec_lib_entries(comps: Seq<(Seq<char>, ComponentConfigV)>) -> Seq<Seq<char>>
    decreases comps.len(),
{
    if comps.len() == 0 {
        Seq::empty()
    } else {
        let pre = spec_lib_entries(comps.drop_last());
        let c = comps.last().1;
        if c.mode == ComponentMode::Source && c.lib is Some {
            pre.push(c.lib->0)
        } else {
            pre
        }
    }
}

/// The UI-resource paths the source-linked components contribute.
pub open spec fn spec_qml_entries(comps: Seq<(Seq<char>, ComponentConfigV)>) -> Seq<Seq<char>>
    decreases comps.len(),
{
    if comps.len() == 0 {
        Seq::empty()
    } else {
        let pre = spec_qml_entries(comps.drop_last());
        let c = comps.last().1;
        if c.mode == ComponentMode::Source && c.qml is Some {
            pre.push(c.qml->0)
        } else {
            pre
        }
    }
}

/// The build-root paths the source-linked components contribute.
pub open spec fn spec_plugin_entries(comps: Seq<(Seq<char>, ComponentConfigV)>) -> Seq<Seq<char>>
    decreases comps.len(),
{
    if comps.len() == 0 {
        Seq::empty()
    } else {
        let pre = spec_plugin_entries(comps.drop_last());
        let c = comps.last().1;
        if c.mode == ComponentMode::Source && c.plugin is Some {
            pre.push(c.plugin->0)
        } else {
            pre
        }
    }
}

/// The library paths that also go on the linked-plugin discovery path:
/// every source-linked component's library path except the host's and the
/// SDK's own.
pub open spec fn spec_mpf_entries(comps: Seq<(Seq<char>, ComponentConfigV)>) -> Seq<Seq<char>>
    decreases comps.len(),
{
    if comps.len() == 0 {
        Seq::empty()
    } else {
        let pre = spec_mpf_entries(comps.drop_last());
        let (name, c) = comps.last();
        if c.mode == ComponentMode::Source && c.lib is Some && name != "host"@ && name != "sdk"@ {
            pre.push(c.lib->0)
        } else {
            pre
        }
    }
}

/// The binary directory of a source-linked host override, when one is
/// stored.
pub open spec fn spec_host_bin_override(comps: Seq<(Seq<char>, ComponentConfigV)>) -> Option<
    Seq<char>,
>
    decreases comps.len(),
{
    if comps.len() == 0 {
        Option::None
    } else {
        let pre = spec_host_bin_override(comps.drop_last());
        let (name, c) = comps.last();
        if name == "host"@ && c.mode == ComponentMode::Source && c.bin is Some {
            Option::Some(c.bin->0)
        } else {
            pre
        }
    }
}

/// The full library search path: linked entries first, the installed
/// SDK's `lib` last.
pub open spec fn spec_lib_list(c: DevConfigV, sdk: Seq<char>) -> Seq<Seq<char>> {
    spec_lib_entries(c.components).push(sdk + "/lib"@)
}

/// The full UI-resource search path: linked entries first, the installed
/// SDK's `qml` last.
pub open spec fn spec_qml_list(c: DevConfigV, sdk: Seq<char>) -> Seq<Seq<char>> {
    spec_qml_entries(c.components).push(sdk + "/qml"@)
}

/// The full plugin search path: linked entries first, the installed SDK's
/// `plugins` last.
pub open spec fn spec_plugin_list(c: DevConfigV, sdk: Seq<char>) -> Seq<Seq<char>> {
    spec_plugin_entries(c.components).push(sdk + "/plugins"@)
}

/// The host executable to launch: the linked host's binary directory when
/// one is stored, else the installed SDK's `bin`, joined with the
/// platform's executable name.
pub open spec fn spec_host_exe_path(c: DevConfigV, sdk: Seq<char>, exe: Seq<char>) -> Seq<char> {
    match spec_host_bin_override(c.components) {
        Option::Some(b) => b + "/"@ + exe,
        Option::None => sdk + "/bin"@ + "/"@ + exe,
    }
}

/// `paths` joined with the separator `sep` between consecutive entries.
pub open spec fn spec_join(paths: Seq<Seq<char>>, sep: Seq<char>) -> Seq<char>
    decreases paths.len(),
{
    if paths.len() == 0 {
        Seq::empty()
    } else if paths.len() == 1 {
        paths[0]
    } else {
        spec_join(paths.drop_last(), sep) + sep + paths.last()
    }
}

/// Join `paths` with `sep` between consecutive entries.
pub fn join_paths(paths: &Vec<String>, sep: &str) -> (r: String)
    ensures
        r@ == spec_join(paths.deep_view(), sep@),
{
    let n = paths.len();
    let mut out = String::new();
    proof {
        assert(paths.deep_view().take(0) =~= Seq::<Seq<char>>::empty());
    }
    let mut i: usize = 0;
    while i < n
        invariant
            n == paths.len(),
            i <= n,
            paths.deep_view().len() == n,
            out@ == spec_join(paths.deep_view().take(i as int), sep@),
        decreases n - i,
    {
        let ghost pre = paths.deep_view().take(i as int);
        proof {
            assert(paths.deep_view().take(i + 1).drop_last() =~= pre);
            assert(paths.deep_view().take(i + 1).last() == paths.deep_view()[i as int]);
            assert(paths.deep_view()[i as int] == paths[i as int]@);
        }
        if i > 0 {
            out.append(sep);
        }
        out.append(paths[i].as_str());
        proof {
            if i == 0 {
                assert(out@ =~= paths.deep_view()[0]);
                assert(spec_join(paths.deep_view().take(1), sep@) == paths.deep_view().take(1)[0]);
            } else {
                assert(out@ =~= spec_join(pre, sep@) + sep@ + paths.deep_view()[i as int]);
            }
        }
        i = i + 1;
    }
    proof {
        assert(paths.deep_view().take(n as int) =~= paths.deep_view());
    }
    out
}

/// Compose the launch environment from the loaded configuration and the
/// version stores.  `current` is the resolved current version,
/// `version_dir_exists` whether that version's directory is on disk,
/// `sep` the platform's path-list separator, and `host_exe` the
/// platform's host-executable file name.  Fails when no current version
/// is resolvable, and only then.
pub fn compose_environment(
    config: &DevConfig,
    sdk_root: &str,
    current: &Option<String>,
    version_dir_exists: bool,
    sep: &str,
    host_exe: &str,
) -> (r: Result<Environment, DevError>)
    ensures
        r is Err <==> (current is None || !version_dir_exists),
        r matches Err(e) ==> e == DevError::NotConfigured,
        r matches Ok(env) ==> {
            let sdk = sdk_root@ + "/"@ + current->0@;
            &&& env.sdk_root@ == sdk
            &&& env.lib_search_path@ == spec_join(spec_lib_list(config@, sdk), sep@)
            &&& env.qml_search_path@ == spec_join(spec_qml_list(config@, sdk), sep@)
            &&& env.plugin_search_path@ == spec_join(spec_plugin_list(config@, sdk), sep@)
            &&& env.mpf_plugin_search_path@ == spec_join(
                spec_mpf_entries(config@.components),
                sep@,
            )
            &&& env.host_executable_path@ == spec_host_exe_path(config@, sdk, host_exe@)
        },
{
    let v = match current {
        Some(v) => v,
        None => {
            return Err(DevError::NotConfigured);
        },
    };
    if !version_dir_exists {
        return Err(DevError::NotConfigured);
    }
    let sdk_dir = crate::config::version_dir(sdk_root, v.as_str());
    let ghost sdk = sdk_root@ + "/"@ + v@;

    let mut libs: Vec<String> = Vec::new();
    let mut qmls: Vec<String> = Vec::new();
    let mut plugins: Vec<String> = Vec::new();
    let mut mpfs: Vec<String> = Vec::new();
    let mut host_override: Option<String> = None;

    let n = config.components.len();
    let ghost comps = config@.components;
    proof {
        assert(comps.take(0) =~= Seq::<(Seq<char>, ComponentConfigV)>::empty());
        assert(libs.deep_view() =~= Seq::<Seq<char>>::empty());
        assert(qmls.deep_view() =~= Seq::<Seq<char>>::empty());
        assert(plugins.deep_view() =~= Seq::<Seq<char>>::empty());
        assert(mpfs.deep_view() =~= Seq::<Seq<char>>::empty());
    }
    let mut i: usize = 0;
    while i < n
        invariant
            n == config.components.len(),
            i <= n,
            comps == config@.components,
            comps.len() == n,
            forall|j: int|
                0 <= j < n ==> comps[j] == (config.components@[j].name@,
                config.components@[j].config@),
            libs.deep_view() == spec_lib_entries(comps.take(i as int)),
            qmls.deep_view() == spec_qml_entries(comps.take(i as int)),
            plugins.deep_view() == spec_plugin_entries(comps.take(i as int)),
            mpfs.deep_view() == spec_mpf_entries(comps.take(i as int)),
            crate::config::view_opt(host_override) == spec_host_bin_override(comps.take(i as int)),
        decreases n - i,
    {
        let ghost pre = comps.take(i as int);
        proof {
            assert(comps.take(i + 1).drop_last() =~= pre);
            assert(comps.take(i + 1).last() == comps[i as int]);
        }
        let entry = &config.components[i];
        let is_source = entry.config.mode == ComponentMode::Source;
        let is_host = strutil::str_eq(entry.name.as_str(), "host");
        let is_sdk = strutil::str_eq(entry.name.as_str(), "sdk");
        if is_source {
            match &entry.config.lib {
                Some(lib) => {
                    libs.push(lib.clone());
                    if !is_host && !is_sdk {
                        mpfs.push(lib.clone());
                    }
                },
                None => {},
            }
            match &entry.config.qml {
                Some(qml) => qmls.push(qml.clone()),
                None => {},
            }
            match &entry.config.plugin {
                Some(plugin) => plugins.push(plugin.clone()),
                None => {},
            }
            if is_host {
                match &entry.config.bin {
                    Some(bin) => {
                        host_override = Some(bin.clone());
                    },
                    None => {},
                }
            }
        }
        proof {
            assert(libs.deep_view() =~= spec_lib_entries(comps.take(i + 1)));
            assert(qmls.deep_view() =~= spec_qml_entries(comps.take(i + 1)));
            assert(plugins.deep_view() =~= spec_plugin_entries(comps.take(i + 1)));
            assert(mpfs.deep_view() =~= spec_mpf_entries(comps.take(i + 1)));
        }
        i = i + 1;
    }
    proof {
        assert(comps.take(n as int) =~= comps);
    }

    let sdk_lib = join_path(sdk_dir.as_str(), "lib");
    let sdk_qml = join_path(sdk_dir.as_str(), "qml");
    let sdk_plugins = join_path(sdk_dir.as_str(), "plugins");
    proof {
        reveal_strlit("/");
        reveal_strlit("lib");
        reveal_strlit("qml");
        reveal_strlit("plugins");
        reveal_strlit("/lib");
        reveal_strlit("/qml");
        reveal_strlit("/plugins");
        assert(sdk_lib@ =~= sdk + "/lib"@);
        assert(sdk_qml@ =~= sdk + "/qml"@);
        assert(sdk_plugins@ =~= sdk + "/plugins"@);
    }
    libs.push(sdk_lib);
    qmls.push(sdk_qml);
    plugins.push(sdk_plugins);
    proof {
        assert(libs.deep_view() =~= spec_lib_list(config@, sdk));
        assert(qmls.deep_view() =~= spec_qml_list(config@, sdk));
        assert(plugins.deep_view() =~= spec_plugin_list(config@, sdk));
    }

    let host_path = match &host_override {
        Some(b) => {
            let p = join_path(b.as_str(), host_exe);
            proof {
                assert(p@ =~= spec_host_exe_path(config@, sdk, host_exe@));
            }
            p
        },
        None => {
            let sdk_bin = join_path(sdk_dir.as_str(), "bin");
            let p = join_path(sdk_bin.as_str(), host_exe);
            proof {
                reveal_strlit("/");
                reveal_strlit("bin");
                reveal_strlit("/bin");
                assert(sdk_bin@ =~= sdk + "/bin"@);
                assert(p@ =~= spec_host_exe_path(config@, sdk, host_exe@));
            }
            p
        },
    };

    let lib_search_path = join_paths(&libs, sep);
    let qml_search_path = join_paths(&qmls, sep);
    let plugin_search_path = join_paths(&plugins, sep);
    let mpf_plugin_search_path = join_paths(&mpfs, sep);

    Ok(
        Environment {
            sdk_root: sdk_dir,
            lib_search_path,
            qml_search_path,
            plugin_search_path,
            mpf_plugin_search_path,
            host_executable_path: host_path,
        },
    )
}

/// The search paths always shadow the installed baseline: a source-linked
/// component's library path stands somewhere before the final entry of
/// the library search path, and that final entry is the installed SDK's
/// own `lib`.
pub proof fn lemma_source_shadows_baseline(c: DevConfigV, sdk: Seq<char>, i: int)
    requires
        0 <= i < c.components.len(),
        c.components[i].1.mode == ComponentMode::Source,
        c.components[i].1.lib is Some,
    ensures
        spec_lib_list(c, sdk).last() == sdk + "/lib"@,
        exists|j: int|
            0 <= j < spec_lib_list(c, sdk).len() - 1 && spec_lib_list(c, sdk)[j]
                == c.components[i].1.lib->0,
{
    lemma_lib_entry_included(c.components, i);
    let entries = spec_lib_entries(c.components);
    let j = choose|j: int| 0 <= j < entries.len() && entries[j] == c.components[i].1.lib->0;
    assert(spec_lib_list(c, sdk)[j] == c.components[i].1.lib->0);
}

/// An explicit field value always wins: a component linked with an
/// explicit library path stores exactly that path, whatever was
/// derivable beside it, and the composed library search path includes it
/// ahead of the installed baseline.
pub proof fn lemma_explicit_lib_composed(
    c: DevConfigV,
    sdk: Seq<char>,
    i: int,
    explicit: Seq<char>,
    qml: Option<Seq<char>>,
    plugin: Option<Seq<char>>,
    headers: Option<Seq<char>>,
    bin: Option<Seq<char>>,
    host: Option<Seq<char>>,
    plugin_mpf_exists: bool,
    host_bin_has_exe: bool,
    host_root_has_exe: bool,
    host_qml_exists: bool,
)
    requires
        0 <= i < c.components.len(),
        c.components[i].1 == crate::links::spec_manual_component(
            Option::Some(explicit),
            qml,
            plugin,
            headers,
            bin,
            host,
            plugin_mpf_exists,
            host_bin_has_exe,
            host_root_has_exe,
            host_qml_exists,
        ),
    ensures
        c.components[i].1.lib == Option::Some(explicit),
        spec_lib_list(c, sdk).last() == sdk + "/lib"@,
        exists|j: int|
            0 <= j < spec_lib_list(c, sdk).len() - 1 && spec_lib_list(c, sdk)[j] == explicit,
{
    lemma_source_shadows_baseline(c, sdk, i);
}

/// The library entries the composer collects hold nothing but stored
/// library paths: a path no component stores never appears among them.
proof fn lemma_lib_entries_only_stored(comps: Seq<(Seq<char>, ComponentConfigV)>, p: Seq<char>)
    requires
        forall|i: int| 0 <= i < comps.len() ==> comps[i].1.lib != Option::Some(p),
    ensures
        forall|j: int|
            0 <= j < spec_lib_entries(comps).len() ==> spec_lib_entries(comps)[j] != p,
    decreases comps.len(),
{
    if comps.len() == 0 {
        assert(spec_lib_entries(comps).len() == 0);
    } else {
        let pre = comps.drop_last();
        assert(forall|i: int| 0 <= i < pre.len() ==> pre[i] == comps[i]);
        lemma_lib_entries_only_stored(pre, p);
        let entries = spec_lib_entries(comps);
        let pre_entries = spec_lib_entries(pre);
        let c = comps.last().1;
        assert forall|j: int| 0 <= j < entries.len() implies entries[j] != p by {
            if c.mode == ComponentMode::Source && c.lib is Some {
                if j < pre_entries.len() {
                    assert(entries[j] == pre_entries[j]);
                } else {
                    assert(comps.last().1.lib != Option::Some(p));
                    assert(entries[j] == c.lib->0);
                }
            } else {
                assert(entries[j] == pre_entries[j]);
            }
        }
    }
}

/// The composition includes only stored library paths and the installed
/// baseline: a path that no component stores as its library path, and
/// that is not the baseline itself, appears nowhere on the library
/// search path.  Together with the link operations' contracts — a manual
/// link stores exactly the explicit value where one is given — this pins
/// precedence down both ways: the explicit value is included, and a
/// displaced derivable value is not.
pub proof fn lemma_unstored_lib_not_composed(c: DevConfigV, sdk: Seq<char>, p: Seq<char>)
    requires
        forall|i: int| 0 <= i < c.components.len() ==> c.components[i].1.lib != Option::Some(p),
        p != sdk + "/lib"@,
    ensures
        forall|j: int| 0 <= j < spec_lib_list(c, sdk).len() ==> spec_lib_list(c, sdk)[j] != p,
{
    lemma_lib_entries_only_stored(c.components, p);
    let entries = spec_lib_entries(c.components);
    assert forall|j: int| 0 <= j < spec_lib_list(c, sdk).len() implies spec_lib_list(c, sdk)[j]
        != p by {
        if j < entries.len() {
            assert(spec_lib_list(c, sdk)[j] == entries[j]);
        } else {
            assert(spec_lib_list(c, sdk)[j] == sdk + "/lib"@);
        }
    }
}

/// A source-linked component's library path occurs among the library
/// entries the composer collects.
pub proof fn lemma_lib_entry_included(comps: Seq<(Seq<char>, ComponentConfigV)>, i: int)
    requires
        0 <= i < comps.len(),
        comps[i].1.mode == ComponentMode::Source,
        comps[i].1.lib is Some,
    ensures
        exists|j: int|
            0 <= j < spec_lib_entries(comps).len() && spec_lib_entries(comps)[j]
                == comps[i].1.lib->0,
    decreases comps.len(),
{
    let entries = spec_lib_entries(comps);
    if i == comps.len() - 1 {
        let pre = spec_lib_entries(comps.drop_last());
        assert(comps.last() == comps[i]);
        assert(entries[pre.len() as int] == comps[i].1.lib->0);
    } else {
        assert(comps.drop_last()[i] == comps[i]);
        lemma_lib_entry_included(comps.drop_last(), i);
        let pre = spec_lib_entries(comps.drop_last());
        let j = choose|j: int| 0 <= j < pre.len() && pre[j] == comps[i].1.lib->0;
        assert(entries[j] == comps[i].1.lib->0);
    }
}

} // verus!
