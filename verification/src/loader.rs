use vstd::prelude::*;
use vstd::string::*;
use crate::paths::{join_path, joined};
use crate::plugin::{Fault, Plugin, PluginError, PluginManifest};
use crate::text::{lemma_texts_push, texts};

verus! {

/// The directories in which plugins are looked for, in search order.
#[derive(Clone, Debug)]
pub struct PluginLoader {
    plugin_dirs: Vec<String>,
}

/// A place where the manifest of a plugin may lie.
#[derive(Clone, Debug, PartialEq, Eq)]
pub struct ManifestCandidate {
    /// The directory of the plugin.
    pub directory: String,
    /// The manifest file in it.
    pub manifest_path: String,
}

/// What looking at a manifest candidate showed.
#[derive(Clone, Debug)]
pub enum Probe {
    /// No file is there.
    Absent,
    /// A file is there and is no manifest.
    Malformed { reason: String },
    /// The manifest that the file holds.
    Loaded { manifest: PluginManifest },
}

/// The position of the first probe from `from` on that found a manifest, or
/// the number of probes where none did.
pub open spec fn first_loaded(probes: Seq<Probe>, from: int) -> int
    decreases probes.len() - from,
{
    if from < 0 || from >= probes.len() {
        probes.len() as int
    } else if probes[from] is Loaded {
        from
    } else {
        first_loaded(probes, from + 1)
    }
}

/// The position of the first probe from `from` on that found a file, or the
/// number of probes where none did.
pub open spec fn first_present(probes: Seq<Probe>, from: int) -> int
    decreases probes.len() - from,
{
    if from < 0 || from >= probes.len() {
        probes.len() as int
    } else if !(probes[from] is Absent) {
        from
    } else {
        first_present(probes, from + 1)
    }
}

/// The two manifest files of a plugin directory, the preferred one first.
pub open spec fn manifest_files(directory: Seq<char>) -> Seq<Seq<char>> {
    seq![joined(directory, "plugin.toml"@), joined(directory, "plugin.json"@)]
}

/// The manifest files of the plugin `name` below each of the directories
/// from position `from` on, in search order.
pub open spec fn search_files(dirs: Seq<Seq<char>>, name: Seq<char>, from: int) -> Seq<Seq<char>>
    decreases dirs.len() - from,
{
    if from < 0 || from >= dirs.len() {
        Seq::empty()
    } else {
        manifest_files(joined(dirs[from], name)) + search_files(dirs, name, from + 1)
    }
}

/// The manifest paths of a list of candidates.
pub open spec fn candidate_files(candidates: Seq<ManifestCandidate>) -> Seq<Seq<char>> {
    candidates.map_values(|c: ManifestCandidate| c.manifest_path@)
}

impl PluginLoader {
    /// The directories, in search order.
    pub closed spec fn view(self) -> Seq<Seq<char>> {
        texts(self.plugin_dirs@)
    }

    /// A loader that searches nowhere.
    pub fn new() -> (loader: Self)
        ensures
            loader@ == Seq::<Seq<char>>::empty(),
    {
        let loader = PluginLoader { plugin_dirs: Vec::new() };
        assert(loader@ =~= Seq::<Seq<char>>::empty());
        loader
    }

    /// Adds a directory at the end of the search order.
    pub fn add_plugin_dir(&mut self, path: &str) -> (me: &mut Self)
        ensures
            me@ == old(self)@.push(path@),
            *final(self) == *final(me),
    {
        let ghost before = self.plugin_dirs@;
        self.plugin_dirs.push(path.to_owned());
        proof {
            lemma_texts_push(before, self.plugin_dirs@.last());
        }
        self
    }

    /// The loader for a user whose configuration and data directories are
    /// the given ones: the plugin directory below each of them that is
    /// known, then the plugin directory below the working directory.
    pub fn standard(config_dir: Option<&str>, data_dir: Option<&str>) -> (loader: Self)
        ensures
            loader@ == standard_dirs(config_dir, data_dir, "hyprsupreme/plugins"@, "./plugins"@),
    {
        let mut loader = PluginLoader::new();
        if let Some(dir) = config_dir {
            let path = join_path(dir, "hyprsupreme/plugins");
            loader.add_plugin_dir(path.as_str());
        }
        if let Some(dir) = data_dir {
            let path = join_path(dir, "hyprsupreme/plugins");
            loader.add_plugin_dir(path.as_str());
        }
        loader.add_plugin_dir("./plugins");
        proof {
            assert(loader@ =~= standard_dirs(
                config_dir,
                data_dir,
                "hyprsupreme/plugins"@,
                "./plugins"@,
            ));
        }
        loader
    }

    /// The directories, in search order.
    pub fn directories(&self) -> (dirs: &Vec<String>)
        ensures
            texts(dirs@) == self@,
    {
        &self.plugin_dirs
    }

    /// The places where the manifest of a plugin directory may lie, the
    /// preferred one first.
    pub fn manifest_candidates(directory: &str) -> (candidates: Vec<ManifestCandidate>)
        ensures
            candidate_files(candidates@) == manifest_files(directory@),
            forall|i: int| 0 <= i < candidates@.len() ==> (#[trigger] candidates@[i]).directory@ == directory@,
    {
        let mut candidates: Vec<ManifestCandidate> = Vec::new();
        candidates.push(
            ManifestCandidate {
                directory: directory.to_owned(),
                manifest_path: join_path(directory, "plugin.toml"),
            },
        );
        candidates.push(
            ManifestCandidate {
                directory: directory.to_owned(),
                manifest_path: join_path(directory, "plugin.json"),
            },
        );
        proof {
            assert(candidate_files(candidates@) =~= manifest_files(directory@));
        }
        candidates
    }

    /// The places where the manifest of the plugin `name` may lie, in search
    /// order: for each directory of the loader the two manifest files of the
    /// plugin's directory below it.
    pub fn load_plugin(&self, name: &str) -> (candidates: Vec<ManifestCandidate>)
        ensures
            candidate_files(candidates@) == search_files(self@, name@, 0),
    {
        let mut candidates: Vec<ManifestCandidate> = Vec::new();
        let n = self.plugin_dirs.len();
        let mut k: usize = n;
        proof {
            assert(candidate_files(candidates@) =~= search_files(self@, name@, n as int));
        }
        while k > 0
            invariant
                k <= n,
                n == self.plugin_dirs@.len(),
                candidate_files(candidates@) == search_files(self@, name@, k as int),
            decreases k,
        {
            k -= 1;
            let directory = join_path(self.plugin_dirs[k].as_str(), name);
            let mut found = PluginLoader::manifest_candidates(directory.as_str());
            let ghost head = found@;
            let ghost tail = candidates@;
            found.append(&mut candidates);
            candidates = found;
            proof {
                assert(candidate_files(candidates@) =~= candidate_files(head) + candidate_files(tail));
            }
        }
        candidates
    }

    /// The plugin that discovery takes from a plugin directory: the first
    /// candidate, in the order of preference, whose file holds a manifest.
    /// Files that are missing or malformed are passed over.
    pub fn discover_plugins(directory: &str, probes: Vec<Probe>) -> (found: Option<Plugin>)
        ensures
            match found {
                Some(plugin) => first_loaded(probes@, 0) < probes@.len() && probes@[first_loaded(
                    probes@,
                    0,
                )] == (Probe::Loaded { manifest: plugin.manifest }) && plugin.directory@
                    == directory@ && plugin.state is Installed,
                None => first_loaded(probes@, 0) == probes@.len(),
            },
    {
        let ghost all = probes@;
        let n = probes.len();
        let mut at: usize = 0;
        for probe in it: probes
            invariant
                it.seq() == all,
                all.len() == n,
                at == it.index(),
                first_loaded(all, at as int) == first_loaded(all, 0),
        {
            match probe {
                Probe::Loaded { manifest } => {
                    return Some(Plugin::new(manifest, directory.to_owned()));
                },
                _ => {},
            }
            at += 1;
        }
        None
    }
}

/// The standard search order: the directory `below` under the configuration
/// directory and under the data directory, as far as they are known, then
/// `local`.
pub open spec fn standard_dirs(
    config_dir: Option<&str>,
    data_dir: Option<&str>,
    below: Seq<char>,
    local: Seq<char>,
) -> Seq<Seq<char>> {
    let first: Seq<Seq<char>> = match config_dir {
        Some(dir) => seq![joined(dir@, below)],
        None => Seq::empty(),
    };
    let second: Seq<Seq<char>> = match data_dir {
        Some(dir) => seq![joined(dir@, below)],
        None => Seq::empty(),
    };
    first + second + seq![local]
}

/// The probes of a list of candidates that were looked at.
pub open spec fn probes_of(probed: Seq<(ManifestCandidate, Probe)>) -> Seq<Probe> {
    probed.map_values(|p: (ManifestCandidate, Probe)| p.1)
}

/// The plugin that a search by name ends with: the first candidate, in
/// search order, whose file exists decides. A manifest gives the plugin, a
/// malformed file is an error, and where no file exists the plugin is not
/// found.
pub fn load_found(name: &str, probed: Vec<(ManifestCandidate, Probe)>) -> (found: Result<Plugin, PluginError>)
    ensures
        match found {
            Ok(plugin) => first_present(probes_of(probed@), 0) < probed@.len() && probed@[first_present(
                probes_of(probed@),
                0,
            )].1 == (Probe::Loaded { manifest: plugin.manifest }) && plugin.directory
                == probed@[first_present(probes_of(probed@), 0)].0.directory && plugin.state is Installed,
            Err(e) => if first_present(probes_of(probed@), 0) < probed@.len() {
                probed@[first_present(probes_of(probed@), 0)].1 matches Probe::Malformed { reason }
                    && e@ == (Fault::Io { message: reason@ })
            } else {
                e@ == (Fault::NotFound { name: name@ })
            },
        },
{
    let ghost all = probed@;
    let n = probed.len();
    let mut at: usize = 0;
    for pair in it: probed
        invariant
            it.seq() == all,
            all.len() == n,
            at == it.index(),
            first_present(probes_of(all), at as int) == first_present(probes_of(all), 0),
    {
        let (candidate, probe) = pair;
        match probe {
            Probe::Loaded { manifest } => {
                return Ok(Plugin::new(manifest, candidate.directory));
            },
            Probe::Malformed { reason } => {
                return Err(PluginError::Io { message: reason });
            },
            Probe::Absent => {},
        }
        at += 1;
    }
    Err(PluginError::NotFound { name: name.to_owned() })
}

/// The manifest that an installation starts from: the first candidate of
/// the source directory, in the order of preference, whose file exists
/// decides. A malformed file is an error, and so is a directory without
/// a manifest file.
pub fn install_manifest(source_dir: &str, probes: Vec<Probe>) -> (found: Result<PluginManifest, PluginError>)
    ensures
        match found {
            Ok(manifest) => first_present(probes@, 0) < probes@.len() && probes@[first_present(
                probes@,
                0,
            )] == (Probe::Loaded { manifest }),
            Err(e) => if first_present(probes@, 0) < probes@.len() {
                probes@[first_present(probes@, 0)] matches Probe::Malformed { reason } && e@
                    == (Fault::Io { message: reason@ })
            } else {
                e@ == (Fault::ManifestNotFound { directory: source_dir@ })
            },
        },
{
    let ghost all = probes@;
    let n = probes.len();
    let mut at: usize = 0;
    for probe in it: probes
        invariant
            it.seq() == all,
            all.len() == n,
            at == it.index(),
            first_present(all, at as int) == first_present(all, 0),
    {
        match probe {
            Probe::Loaded { manifest } => {
                return Ok(manifest);
            },
            Probe::Malformed { reason } => {
                return Err(PluginError::Io { message: reason });
            },
            Probe::Absent => {},
        }
        at += 1;
    }
    Err(PluginError::ManifestNotFound { directory: source_dir.to_owned() })
}

/// Where a plugin is installed: the directory of its name in the plugin
/// directory below the user's configuration directory, which has to be
/// known.
pub fn install_target(config_dir: Option<&str>, plugin_name: &str) -> (target: Result<String, PluginError>)
    ensures
        match target {
            Ok(path) => config_dir matches Some(dir) && path@ == joined(
                joined(dir@, "hyprsupreme/plugins"@),
                plugin_name@,
            ),
            Err(e) => config_dir is None && e@ == Fault::ConfigurationDirectoryUnavailable,
        },
{
    match config_dir {
        Some(dir) => {
            let plugins_dir = join_path(dir, "hyprsupreme/plugins");
            Ok(join_path(plugins_dir.as_str(), plugin_name))
        },
        None => Err(PluginError::ConfigurationDirectoryUnavailable),
    }
}

/// Whether a plugin may be installed: not where its target directory exists
/// already.
pub fn install_check(plugin_name: &str, target_exists: bool) -> (allowed: Result<(), PluginError>)
    ensures
        match allowed {
            Ok(()) => !target_exists,
            Err(e) => target_exists && e@ == (Fault::AlreadyInstalled { name: plugin_name@ }),
        },
{
    if target_exists {
        Err(PluginError::AlreadyInstalled { name: plugin_name.to_owned() })
    } else {
        Ok(())
    }
}

/// An installation that has found its manifest and knows where the plugin
/// is to go.
#[derive(Clone, Debug)]
pub struct InstallTarget {
    /// The manifest of the plugin.
    pub manifest: PluginManifest,
    /// The directory that the plugin comes from.
    pub source_dir: String,
    /// The directory that holds the installed plugins. It has to exist
    /// before the plugin is copied.
    pub plugins_dir: String,
    /// The directory that the plugin is to have.
    pub target_dir: String,
}

/// An installation that has found its target free: the tree `from` is to be
/// copied to `to`, and the outcome handed to the plugin manager.
#[derive(Clone, Debug)]
pub struct InstallCopy {
    /// The manifest of the plugin.
    pub manifest: PluginManifest,
    /// The directory to copy.
    pub from: String,
    /// The directory that the copy is to be.
    pub to: String,
}

/// The first step of an installation, from what was found in the source
/// directory.
///
/// The manifest comes first: a source directory without a manifest file is
/// an error, and so is a manifest file that is malformed. Only then the
/// user's configuration directory has to be known. The plugin goes into the
/// directory of its name in the plugin directory below it.
pub fn install_located(source_dir: &str, probes: Vec<Probe>, config_dir: Option<&str>) -> (found: Result<
    InstallTarget,
    PluginError,
>)
    ensures
        match found {
            Ok(target) => {
                &&& first_present(probes@, 0) < probes@.len()
                &&& probes@[first_present(probes@, 0)] == (Probe::Loaded { manifest: target.manifest })
                &&& config_dir matches Some(dir)
                &&& target.source_dir@ == source_dir@
                &&& target.plugins_dir@ == joined(dir@, "hyprsupreme/plugins"@)
                &&& target.target_dir@ == joined(target.plugins_dir@, target.manifest.name@)
            },
            Err(e) => if first_present(probes@, 0) < probes@.len() {
                match probes@[first_present(probes@, 0)] {
                    Probe::Malformed { reason } => e@ == (Fault::Io { message: reason@ }),
                    _ => config_dir is None && e@ == Fault::ConfigurationDirectoryUnavailable,
                }
            } else {
                e@ == (Fault::ManifestNotFound { directory: source_dir@ })
            },
        },
{
    let manifest = match install_manifest(source_dir, probes) {
        Ok(manifest) => manifest,
        Err(e) => {
            return Err(e);
        },
    };
    match config_dir {
        Some(dir) => {
            let plugins_dir = join_path(dir, "hyprsupreme/plugins");
            let target_dir = join_path(plugins_dir.as_str(), manifest.name.as_str());
            Ok(InstallTarget { manifest, source_dir: source_dir.to_owned(), plugins_dir, target_dir })
        },
        None => Err(PluginError::ConfigurationDirectoryUnavailable),
    }
}

impl InstallTarget {
    /// The second step of an installation, from whether the target
    /// directory exists: a plugin whose directory exists is installed
    /// already; otherwise the plugin may be copied.
    pub fn cleared(self, target_exists: bool) -> (ready: Result<InstallCopy, PluginError>)
        ensures
            match ready {
                Ok(copy) => !target_exists && copy.manifest == self.manifest && copy.from
                    == self.source_dir && copy.to == self.target_dir,
                Err(e) => target_exists && e@ == (Fault::AlreadyInstalled { name: self.manifest.name@ }),
            },
    {
        match install_check(self.manifest.name.as_str(), target_exists) {
            Ok(()) => Ok(InstallCopy { manifest: self.manifest, from: self.source_dir, to: self.target_dir }),
            Err(e) => Err(e),
        }
    }
}

} // verus!
