//! Deriving component paths from a build-output root.
//!
//! Each derivation takes the canonical absolute path of a build root and
//! the outcome of the filesystem probes the caller made, and computes the
//! paths to store for that component.  Joining is by `/`; the probed
//! facts come in as plain booleans so the derivation itself is pure.

use vstd::prelude::*;
use vstd::string::*;

verus! {

/// `root` with one more path segment appended.
pub fn join_path(root: &str, segment: &str) -> (r: String)
    ensures
        r@ == root@ + "/"@ + segment@,
{
    let mut out = root.to_owned();
    out.append("/");
    out.append(segment);
    out
}

/// The paths a plugin build tree provides.
pub struct PluginPaths {
    /// Where the loadable plugin libraries are.
    pub lib: String,
    /// Where the plugin's UI-resource modules are.
    pub qml: String,
    /// The build root itself.
    pub plugin: String,
}

/// The library path a plugin derivation stores: the nested `plugins/mpf`
/// output directory when the build produced one, else `plugins`.
pub open spec fn spec_plugin_lib(root: Seq<char>, plugins_mpf_exists: bool) -> Seq<char> {
    if plugins_mpf_exists {
        root + "/plugins/mpf"@
    } else {
        root + "/plugins"@
    }
}

/// Derive a plugin's paths from its build root.  `plugins_mpf_exists`
/// reports whether `root/plugins/mpf` is a directory on disk.
pub fn derive_plugin_paths(root: &str, plugins_mpf_exists: bool) -> (r: PluginPaths)
    ensures
        r.lib@ == spec_plugin_lib(root@, plugins_mpf_exists),
        r.qml@ == root@ + "/qml"@,
        r.plugin@ == root@,
{
    let lib = if plugins_mpf_exists {
        let j = join_path(root, "plugins/mpf");
        proof {
            reveal_strlit("/");
            reveal_strlit("plugins/mpf");
            reveal_strlit("/plugins/mpf");
            assert(root@ + "/"@ + "plugins/mpf"@ =~= root@ + "/plugins/mpf"@);
        }
        j
    } else {
        let j = join_path(root, "plugins");
        proof {
            reveal_strlit("/");
            reveal_strlit("plugins");
            reveal_strlit("/plugins");
            assert(root@ + "/"@ + "plugins"@ =~= root@ + "/plugins"@);
        }
        j
    };
    let qml = join_path(root, "qml");
    proof {
        reveal_strlit("/");
        reveal_strlit("qml");
        reveal_strlit("/qml");
        assert(root@ + "/"@ + "qml"@ =~= root@ + "/qml"@);
    }
    PluginPaths { lib, qml, plugin: root.to_owned() }
}

/// The paths a host build tree provides.
pub struct HostPaths {
    /// Where the host executable is expected.
    pub bin: String,
    /// Where the host's UI-resource modules are.
    pub qml: String,
}

/// The binary path a host derivation stores: `root/bin` when the host
/// executable was found there, the root itself when it was found at the
/// root, and `root/bin` again as the default for a tree not built yet.
pub open spec fn spec_host_bin(root: Seq<char>, bin_has_exe: bool, root_has_exe: bool) -> Seq<
    char,
> {
    if bin_has_exe {
        root + "/bin"@
    } else if root_has_exe {
        root
    } else {
        root + "/bin"@
    }
}

/// The UI-resource path a host derivation stores: `root/qml` when that
/// directory exists, else the root itself.
pub open spec fn spec_host_qml(root: Seq<char>, qml_exists: bool) -> Seq<char> {
    if qml_exists {
        root + "/qml"@
    } else {
        root
    }
}

/// Derive the host's paths from its build root.  `bin_has_exe` reports
/// whether `root/bin` holds the host executable, `root_has_exe` whether
/// the root itself does, and `qml_exists` whether `root/qml` is a
/// directory on disk.
pub fn derive_host_paths(root: &str, bin_has_exe: bool, root_has_exe: bool, qml_exists: bool) -> (r:
    HostPaths)
    ensures
        r.bin@ == spec_host_bin(root@, bin_has_exe, root_has_exe),
        r.qml@ == spec_host_qml(root@, qml_exists),
{
    let bin = if bin_has_exe {
        let j = join_path(root, "bin");
        proof {
            reveal_strlit("/");
            reveal_strlit("bin");
            reveal_strlit("/bin");
            assert(root@ + "/"@ + "bin"@ =~= root@ + "/bin"@);
        }
        j
    } else if root_has_exe {
        root.to_owned()
    } else {
        let j = join_path(root, "bin");
        proof {
            reveal_strlit("/");
            reveal_strlit("bin");
            reveal_strlit("/bin");
            assert(root@ + "/"@ + "bin"@ =~= root@ + "/bin"@);
        }
        j
    };
    let qml = if qml_exists {
        let j = join_path(root, "qml");
        proof {
            reveal_strlit("/");
            reveal_strlit("qml");
            reveal_strlit("/qml");
            assert(root@ + "/"@ + "qml"@ =~= root@ + "/qml"@);
        }
        j
    } else {
        root.to_owned()
    };
    HostPaths { bin, qml }
}

/// The paths a generic library component's build tree provides.
pub struct LibraryPaths {
    /// Where the loadable libraries are.
    pub lib: String,
    /// Where the UI-resource modules are, when the tree has any.
    pub qml: Option<String>,
    /// Where the headers are, when the tree has any.
    pub headers: Option<String>,
}

/// The library path a generic derivation stores: `root/lib` when it
/// exists, else `root/bin` when that exists (platforms that place
/// loadable libraries beside executables), else the root itself.
pub open spec fn spec_library_lib(root: Seq<char>, lib_exists: bool, bin_exists: bool) -> Seq<
    char,
> {
    if lib_exists {
        root + "/lib"@
    } else if bin_exists {
        root + "/bin"@
    } else {
        root
    }
}

/// Derive a generic library component's paths from its build root.  Each
/// boolean reports whether the corresponding subdirectory exists on disk.
pub fn derive_library_paths(
    root: &str,
    lib_exists: bool,
    bin_exists: bool,
    qml_exists: bool,
    include_exists: bool,
) -> (r: LibraryPaths)
    ensures
        r.lib@ == spec_library_lib(root@, lib_exists, bin_exists),
        r.qml matches Some(q) ==> qml_exists && q@ == root@ + "/qml"@,
        r.qml is None ==> !qml_exists,
        r.headers matches Some(h) ==> include_exists && h@ == root@ + "/include"@,
        r.headers is None ==> !include_exists,
{
    let lib = if lib_exists {
        let j = join_path(root, "lib");
        proof {
            reveal_strlit("/");
            reveal_strlit("lib");
            reveal_strlit("/lib");
            assert(root@ + "/"@ + "lib"@ =~= root@ + "/lib"@);
        }
        j
    } else if bin_exists {
        let j = join_path(root, "bin");
        proof {
            reveal_strlit("/");
            reveal_strlit("bin");
            reveal_strlit("/bin");
            assert(root@ + "/"@ + "bin"@ =~= root@ + "/bin"@);
        }
        j
    } else {
        root.to_owned()
    };
    let qml = if qml_exists {
        let j = join_path(root, "qml");
        proof {
            reveal_strlit("/");
            reveal_strlit("qml");
            reveal_strlit("/qml");
            assert(root@ + "/"@ + "qml"@ =~= root@ + "/qml"@);
        }
        Some(j)
    } else {
        None
    };
    let headers = if include_exists {
        let j = join_path(root, "include");
        proof {
            reveal_strlit("/");
            reveal_strlit("include");
            reveal_strlit("/include");
            assert(root@ + "/"@ + "include"@ =~= root@ + "/include"@);
        }
        Some(j)
    } else {
        None
    };
    LibraryPaths { lib, qml, headers }
}

/// Best-effort cleanup of a path that does not exist yet: collapse the
/// redundant current-directory segments `/./` and `\.\` in its text.
pub fn clean_dot_segments(s: &str) -> (r: String)
    ensures
        r@ == crate::strutil::spec_replace(
            crate::strutil::spec_replace(s@, "\\.\\"@, "\\"@),
            "/./"@,
            "/"@,
        ),
{
    proof {
        reveal_strlit("\\.\\");
        reveal_strlit("\\");
        reveal_strlit("/./");
        reveal_strlit("/");
    }
    let pass1 = crate::strutil::replace(s, "\\.\\", "\\");
    crate::strutil::replace(pass1.as_str(), "/./", "/")
}

} // verus!
