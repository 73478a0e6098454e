//! The persisted development configuration, held as plain values.
//!
//! A [`DevConfig`] records the last-applied SDK version and an ordered
//! mapping from component name to that component's override paths.  The
//! mapping keeps insertion order and never holds the same name twice.

use vstd::prelude::*;
use vstd::string::*;
use crate::strutil;

verus! {

/// How a linked component's artifacts are provided.  Every link operation
/// records `Source`; `Binary` is a reserved state that no operation
/// constructs.
#[derive(Clone, Copy, Debug, PartialEq, Eq, Structural)]
pub enum ComponentMode {
    Binary,
    Source,
}

/// One linked component's override data.  Every stored path is absolute
/// and normalized by the caller that derived it.
#[derive(Clone, Debug)]
pub struct ComponentConfig {
    pub mode: ComponentMode,
    pub lib: Option<String>,
    pub qml: Option<String>,
    pub plugin: Option<String>,
    pub headers: Option<String>,
    pub bin: Option<String>,
}

/// The mathematical value of a [`ComponentConfig`].
#[verifier::ext_equal]
pub struct ComponentConfigV {
    pub mode: ComponentMode,
    pub lib: Option<Seq<char>>,
    pub qml: Option<Seq<char>>,
    pub plugin: Option<Seq<char>>,
    pub headers: Option<Seq<char>>,
    pub bin: Option<Seq<char>>,
}

/// The characters of an optional string.
pub open spec fn view_opt(o: Option<String>) -> Option<Seq<char>> {
    match o {
        Option::Some(s) => Option::Some(s@),
        Option::None => Option::None,
    }
}

impl View for ComponentConfig {
    type V = ComponentConfigV;

    open spec fn view(&self) -> ComponentConfigV {
        ComponentConfigV {
            mode: self.mode,
            lib: view_opt(self.lib),
            qml: view_opt(self.qml),
            plugin: view_opt(self.plugin),
            headers: view_opt(self.headers),
            bin: view_opt(self.bin),
        }
    }
}

/// A named component override.
#[derive(Clone, Debug)]
pub struct ComponentEntry {
    pub name: String,
    pub config: ComponentConfig,
}

/// The persisted development configuration.
#[derive(Debug)]
pub struct DevConfig {
    /// The last SDK version an install or switch applied.  Informational:
    /// the current-version pointer is authoritative.
    pub sdk_version: Option<String>,
    /// The linked components, in insertion order, each name unique.
    pub components: Vec<ComponentEntry>,
}

/// The mathematical value of a [`DevConfig`].
#[verifier::ext_equal]
pub struct DevConfigV {
    pub sdk_version: Option<Seq<char>>,
    pub components: Seq<(Seq<char>, ComponentConfigV)>,
}

impl View for DevConfig {
    type V = DevConfigV;

    open spec fn view(&self) -> DevConfigV {
        DevConfigV {
            sdk_version: view_opt(self.sdk_version),
            components: self.components@.map(|i: int, e: ComponentEntry| (e.name@, e.config@)),
        }
    }
}

impl DevConfigV {
    /// Well-formed: no component name occurs twice.
    pub open spec fn wf(self) -> bool {
        forall|i: int, j: int|
            0 <= i < j < self.components.len() ==> self.components[i].0 != self.components[j].0
    }

    /// Whether a component of this name is linked.
    pub open spec fn has_component(self, name: Seq<char>) -> bool {
        exists|i: int| 0 <= i < self.components.len() && self.components[i].0 == name
    }

    /// The position of the component of this name; meaningful only when
    /// `has_component(name)` holds.
    pub open spec fn spec_index_of(self, name: Seq<char>) -> int {
        choose|i: int| 0 <= i < self.components.len() && self.components[i].0 == name
    }

    /// The override data of the component of this name; meaningful only
    /// when `has_component(name)` holds.
    pub open spec fn component(self, name: Seq<char>) -> ComponentConfigV {
        self.components[self.spec_index_of(name)].1
    }

    /// The component sequence after recording `v` under `name`: the entry
    /// of that name replaced in place, or a new entry appended.
    pub open spec fn spec_set_entry(self, name: Seq<char>, v: ComponentConfigV) -> Seq<
        (Seq<char>, ComponentConfigV),
    > {
        if self.has_component(name) {
            self.components.update(self.spec_index_of(name), (name, v))
        } else {
            self.components.push((name, v))
        }
    }
}

impl DevConfig {
    /// The empty configuration: no version recorded, nothing linked.
    pub fn new() -> (r: DevConfig)
        ensures
            r@.sdk_version is None,
            r@.components =~= Seq::<(Seq<char>, ComponentConfigV)>::empty(),
            r@.wf(),
    {
        DevConfig { sdk_version: None, components: Vec::new() }
    }

    /// Find the position of the component named `name`.
    pub fn find_component(&self, name: &str) -> (r: Option<usize>)
        ensures
            match r {
                Option::Some(i) => i < self@.components.len() && self@.components[i as int].0
                    == name@,
                Option::None => !self@.has_component(name@),
            },
    {
        let n = self.components.len();
        let mut i: usize = 0;
        while i < n
            invariant
                n == self.components.len(),
                i <= n,
                self@.components.len() == n,
                forall|j: int| 0 <= j < i ==> self@.components[j].0 != name@,
                forall|j: int|
                    0 <= j < n ==> self@.components[j] == (self.components@[j].name@,
                    self.components@[j].config@),
            decreases n - i,
        {
            if strutil::str_eq(self.components[i].name.as_str(), name) {
                return Some(i);
            }
            i = i + 1;
        }
        None
    }

    /// Record `config` under `name`: replace the entry of that name in
    /// place, or append a new one.
    pub fn set_component(&mut self, name: String, config: ComponentConfig)
        requires
            old(self)@.wf(),
        ensures
            final(self)@.wf(),
            final(self)@.sdk_version == old(self)@.sdk_version,
            final(self)@.has_component(name@),
            final(self)@.component(name@) == config@,
            final(self)@.components =~= old(self)@.spec_set_entry(name@, config@),
    {
        let found = self.find_component(name.as_str());
        match found {
            Some(i) => {
                proof {
                    let idx = old(self)@.spec_index_of(name@);
                    assert(old(self)@.components[idx].0 == name@);
                    assert(idx == i as int);
                }
                self.components.remove(i);
                self.components.insert(i, ComponentEntry { name, config });
                proof {
                    let oldc = old(self)@.components;
                    assert(self@.components =~= oldc.update(i as int, (name@, config@)));
                    assert(self@.components[i as int].0 == name@);
                    assert(self@.has_component(name@));
                    let idx2 = self@.spec_index_of(name@);
                    assert(self@.components[idx2].0 == name@);
                    assert(idx2 == i as int);
                }
            },
            None => {
                self.components.push(ComponentEntry { name, config });
                proof {
                    let oldc = old(self)@.components;
                    assert(self@.components =~= oldc.push((name@, config@)));
                    let n = oldc.len() as int;
                    assert(self@.components[n].0 == name@);
                    assert(self@.has_component(name@));
                    let idx2 = self@.spec_index_of(name@);
                    assert(self@.components[idx2].0 == name@);
                    assert(idx2 == n);
                }
            },
        }
    }

    /// Remove the entry named `name`, reporting whether one was there.
    pub fn remove_component(&mut self, name: &str) -> (r: bool)
        requires
            old(self)@.wf(),
        ensures
            final(self)@.wf(),
            final(self)@.sdk_version == old(self)@.sdk_version,
            r == old(self)@.has_component(name@),
            r ==> final(self)@.components =~= old(self)@.components.remove(
                old(self)@.spec_index_of(name@),
            ),
            !r ==> final(self)@.components =~= old(self)@.components,
            !final(self)@.has_component(name@),
    {
        let found = self.find_component(name);
        match found {
            Some(i) => {
                proof {
                    let idx = old(self)@.spec_index_of(name@);
                    assert(old(self)@.components[idx].0 == name@);
                    assert(idx == i as int);
                }
                self.components.remove(i);
                proof {
                    assert(self@.components =~= old(self)@.components.remove(i as int));
                    let ghost fc = self@.components;
                    assert forall|j: int| 0 <= j < fc.len() implies fc[j].0 != name@ by {
                        if j < i as int {
                            assert(fc[j] == old(self)@.components[j]);
                        } else {
                            assert(fc[j] == old(self)@.components[j + 1]);
                        }
                    }
                }
                true
            },
            None => false,
        }
    }

    /// Remove every entry, reporting how many there were.
    pub fn clear_components(&mut self) -> (r: usize)
        ensures
            final(self)@.sdk_version == old(self)@.sdk_version,
            final(self)@.components =~= Seq::<(Seq<char>, ComponentConfigV)>::empty(),
            final(self)@.wf(),
            r == old(self)@.components.len(),
    {
        let n = self.components.len();
        self.components.clear();
        n
    }
}

/// The names this tool recognizes as components of the SDK.
pub open spec fn spec_is_known_component(name: Seq<char>) -> bool {
    ||| name == "sdk"@
    ||| name == "http-client"@
    ||| name == "ui-components"@
    ||| name == "host"@
    ||| name == "plugin-orders"@
    ||| name == "plugin-rules"@
}

/// Whether `name` is one of the recognized component names.
pub fn is_known_component(name: &str) -> (r: bool)
    ensures
        r == spec_is_known_component(name@),
{
    strutil::str_eq(name, "sdk") || strutil::str_eq(name, "http-client") || strutil::str_eq(
        name,
        "ui-components",
    ) || strutil::str_eq(name, "host") || strutil::str_eq(name, "plugin-orders")
        || strutil::str_eq(name, "plugin-rules")
}

/// The storage key for a plugin: the name itself when it already carries
/// the plugin prefix, otherwise the name with the prefix prepended.
pub open spec fn spec_plugin_key(name: Seq<char>) -> Seq<char> {
    if strutil::spec_starts_with(name, "plugin-"@) {
        name
    } else {
        "plugin-"@ + name
    }
}

/// The storage key under which a plugin of this name is linked.
pub fn plugin_key(name: &str) -> (r: String)
    ensures
        r@ == spec_plugin_key(name@),
{
    if strutil::starts_with(name, "plugin-") {
        name.to_owned()
    } else {
        let mut out = String::from_str("plugin-");
        out.append(name);
        out
    }
}

/// Which of the three component groups a stored name falls in.
#[derive(Clone, Copy, Debug, PartialEq, Eq, Structural)]
pub enum ComponentCategory {
    Host,
    Plugin,
    Library,
}

/// The group a stored component name falls in: the reserved name `host`,
/// a name that mentions plugins, or a generic library.
pub open spec fn spec_component_category(name: Seq<char>) -> ComponentCategory {
    if name == "host"@ {
        ComponentCategory::Host
    } else if strutil::spec_contains(name, "plugin"@) {
        ComponentCategory::Plugin
    } else {
        ComponentCategory::Library
    }
}

/// Classify a stored component name into its display group.
pub fn component_category(name: &str) -> (r: ComponentCategory)
    ensures
        r == spec_component_category(name@),
{
    if strutil::str_eq(name, "host") {
        ComponentCategory::Host
    } else if strutil::contains(name, "plugin") {
        ComponentCategory::Plugin
    } else {
        ComponentCategory::Library
    }
}

/// Path of the persisted configuration record under the SDK root.
pub fn dev_config_path(root: &str) -> (r: String)
    ensures
        r@ == root@ + "/dev.json"@,
{
    let mut out = root.to_owned();
    out.append("/dev.json");
    out
}

/// Path of the current-version pointer record under the SDK root.
pub fn current_pointer_path(root: &str) -> (r: String)
    ensures
        r@ == root@ + "/current.txt"@,
{
    let mut out = root.to_owned();
    out.append("/current.txt");
    out
}

/// Path of the directory a version is installed in under the SDK root.
pub fn version_dir(root: &str, version: &str) -> (r: String)
    ensures
        r@ == root@ + "/"@ + version@,
{
    let mut out = root.to_owned();
    out.append("/");
    out.append(version);
    out
}

/// The directory of the current SDK: the current version's directory, or
/// the legacy `current` entry under the root when no version is set, a
/// path that callers then find absent.
pub fn current_link(root: &str, current: &Option<String>) -> (r: String)
    ensures
        match current {
            Option::Some(v) => r@ == root@ + "/"@ + v@,
            Option::None => r@ == root@ + "/current"@,
        },
{
    match current {
        Some(v) => version_dir(root, v.as_str()),
        None => {
            let mut out = root.to_owned();
            out.append("/current");
            out
        },
    }
}

} // verus!
