use vstd::prelude::*;
use vstd::string::*;
use crate::name_map::{
    joined_names, lemma_fresh_names_step, lemma_pairing_domain, lemma_pairing_push, fresh_names, pairing,
    NameMap,
};
use crate::paths::{resolve_path, resolved};
use crate::resolver::{resolve, resolve_text};
use crate::text::{holds_text, phrase, texts};

verus! {

/// Descriptive data about a configuration project.
#[derive(Clone, Debug)]
pub struct Metadata {
    pub name: String,
    pub author: Option<String>,
    pub version: String,
    pub description: Option<String>,
}

/// A reference to another configuration document.
///
/// With `merge` set the imported document only fills gaps; without it the
/// imported document overrides what is there.
#[derive(Clone, Debug)]
pub struct Import {
    pub path: String,
    pub merge: bool,
}

/// A named module file of the compositor configuration.
#[derive(Clone, Debug)]
pub struct HyprlandModule {
    pub name: String,
    pub path: String,
    pub enabled: bool,
}

/// A key binding.
#[derive(Clone, Debug)]
pub struct Keybinding {
    pub modifiers: Vec<String>,
    pub key: String,
    pub command: String,
    pub description: Option<String>,
}

/// An application started with the session.
#[derive(Clone, Debug)]
pub struct Autostart {
    pub command: String,
    pub wait: bool,
    pub workspace: Option<String>,
}

/// The compositor-specific block of a configuration.
#[derive(Clone, Debug)]
pub struct HyprlandConfig {
    pub config_path: Option<String>,
    pub modules: Vec<HyprlandModule>,
    pub theme: NameMap<String>,
    pub keybindings: Vec<Keybinding>,
    pub autostart: Vec<Autostart>,
}

/// A named overlay: variables that take precedence over the global ones,
/// further imports, and an optional compositor block of its own.
#[derive(Clone, Debug)]
pub struct Profile {
    pub variables: NameMap<String>,
    pub imports: Vec<Import>,
    pub hyprland: Option<HyprlandConfig>,
}

/// A configuration document.
#[derive(Clone, Debug)]
pub struct Config {
    pub metadata: Metadata,
    pub variables: NameMap<String>,
    pub profiles: NameMap<Profile>,
    pub default_profile: String,
    pub imports: Vec<Import>,
    pub hyprland: HyprlandConfig,
}

/// The name of the profile that is used when none is asked for.
pub fn default_profile() -> (name: String)
    ensures
        name@ == "default"@,
{
    "default".to_owned()
}

/// The name a configuration has when it gives none.
pub fn default_name() -> (name: String)
    ensures
        name@ == "hyprsupreme-config"@,
{
    "hyprsupreme-config".to_owned()
}

/// The version a document has when it gives none.
pub fn default_version() -> (version: String)
    ensures
        version@ == "0.1.0"@,
{
    "0.1.0".to_owned()
}

/// Modules are enabled unless they say otherwise.
pub fn default_true() -> (enabled: bool)
    ensures
        enabled,
{
    true
}

impl Default for Metadata {
    fn default() -> (m: Self)
        ensures
            m.name@.len() == 0,
            m.author is None,
            m.version@.len() == 0,
            m.description is None,
    {
        Metadata { name: String::new(), author: None, version: String::new(), description: None }
    }
}

impl Default for HyprlandConfig {
    fn default() -> (h: Self)
        ensures
            h.is_blank(),
    {
        HyprlandConfig {
            config_path: None,
            modules: Vec::new(),
            theme: NameMap::new(),
            keybindings: Vec::new(),
            autostart: Vec::new(),
        }
    }
}

impl Default for Profile {
    fn default() -> (p: Self)
        ensures
            p.variables@ == Map::<Seq<char>, String>::empty(),
            p.imports@.len() == 0,
            p.hyprland is None,
    {
        Profile { variables: NameMap::new(), imports: Vec::new(), hyprland: None }
    }
}

impl HyprlandConfig {
    /// A block that sets nothing.
    pub open spec fn is_blank(self) -> bool {
        &&& self.config_path is None
        &&& self.modules@.len() == 0
        &&& self.theme@ == Map::<Seq<char>, String>::empty()
        &&& self.keybindings@.len() == 0
        &&& self.autostart@.len() == 0
    }

    /// What filling the gaps of `self` from `incoming` gives: the lists of
    /// `incoming` are appended, its theme colors are added where `self` has
    /// none under that name, and the configuration path stays.
    pub open spec fn extended(self, incoming: HyprlandConfig, after: HyprlandConfig) -> bool {
        &&& after.config_path == self.config_path
        &&& after.modules@ == self.modules@ + incoming.modules@
        &&& after.theme@ == incoming.theme@.union_prefer_right(self.theme@)
        &&& after.theme.names() == joined_names(self.theme.names(), incoming.theme.names())
        &&& after.keybindings@ == self.keybindings@ + incoming.keybindings@
        &&& after.autostart@ == self.autostart@ + incoming.autostart@
    }

    /// Fills the gaps of this block from `incoming`.
    pub fn extend_with(&mut self, incoming: HyprlandConfig)
        ensures
            old(self).extended(incoming, *final(self)),
    {
        let mut incoming = incoming;
        self.modules.append(&mut incoming.modules);
        self.theme.absorb(incoming.theme, true);
        self.keybindings.append(&mut incoming.keybindings);
        self.autostart.append(&mut incoming.autostart);
    }
}

impl Profile {
    /// What filling the gaps of `self` from `incoming` gives: variables are
    /// added where `self` has none under that name, the imports of `incoming`
    /// are appended, and the compositor block of `incoming` is taken only
    /// where `self` has none.
    pub open spec fn filled(self, incoming: Profile, after: Profile) -> bool {
        &&& after.variables@ == incoming.variables@.union_prefer_right(self.variables@)
        &&& after.variables.names() == joined_names(self.variables.names(), incoming.variables.names())
        &&& after.imports@ == self.imports@ + incoming.imports@
        &&& after.hyprland == if self.hyprland is None {
            incoming.hyprland
        } else {
            self.hyprland
        }
    }

    /// Fills the gaps of this profile from `incoming`.
    pub fn fill_from(&mut self, incoming: Profile)
        ensures
            old(self).filled(incoming, *final(self)),
    {
        let mut incoming = incoming;
        self.variables.absorb(incoming.variables, true);
        self.imports.append(&mut incoming.imports);
        if self.hyprland.is_none() {
            self.hyprland = incoming.hyprland;
        }
    }
}

/// How the profiles of a document and of an imported document combine.
///
/// A profile that only one side has is taken as it is. Where both have it, a
/// filling merge fills the gaps of the existing profile, and a replacing
/// merge takes the imported profile whole.
pub open spec fn profiles_merged(
    before: Map<Seq<char>, Profile>,
    incoming: Map<Seq<char>, Profile>,
    merge: bool,
    after: Map<Seq<char>, Profile>,
) -> bool {
    &&& after.dom() == before.dom().union(incoming.dom())
    &&& forall|k: Seq<char>|
        before.contains_key(k) && !incoming.contains_key(k) ==> #[trigger] after[k] == before[k]
    &&& forall|k: Seq<char>|
        incoming.contains_key(k) && !(merge && before.contains_key(k)) ==> #[trigger] after[k]
            == incoming[k]
    &&& forall|k: Seq<char>|
        merge && incoming.contains_key(k) && before.contains_key(k) ==> before[k].filled(
            incoming[k],
            #[trigger] after[k],
        )
}

impl Config {
    /// What merging the imported document `incoming` into `self` gives.
    ///
    /// Names that `self` binds keep their places, and the names that only
    /// `incoming` binds follow in its order.
    ///
    /// A filling merge (`merge` set) only adds: variables and theme colors
    /// under names that `self` lacks, profiles as `profiles_merged` says,
    /// and the lists of the compositor block at the end of those of `self`.
    /// A replacing merge lets the imported variables and profiles win, and
    /// takes the imported compositor block whole unless `self` names a
    /// configuration path, in which case the block of `self` stays.
    /// Either way the imports of `incoming` are appended, and the metadata
    /// and the default profile stay.
    pub open spec fn merged(self, incoming: Config, merge: bool, after: Config) -> bool {
        &&& after.metadata == self.metadata
        &&& after.default_profile == self.default_profile
        &&& after.variables@ == if merge {
            incoming.variables@.union_prefer_right(self.variables@)
        } else {
            self.variables@.union_prefer_right(incoming.variables@)
        }
        &&& after.variables.names() == joined_names(self.variables.names(), incoming.variables.names())
        &&& profiles_merged(self.profiles@, incoming.profiles@, merge, after.profiles@)
        &&& after.profiles.names() == joined_names(self.profiles.names(), incoming.profiles.names())
        &&& after.imports@ == self.imports@ + incoming.imports@
        &&& if merge {
            self.hyprland.extended(incoming.hyprland, after.hyprland)
        } else if self.hyprland.config_path is None {
            after.hyprland == incoming.hyprland
        } else {
            after.hyprland == self.hyprland
        }
    }

    /// Merges an imported document into this one.
    pub fn merge_config(&mut self, other: Config, merge: bool)
        ensures
            old(self).merged(other, merge, *final(self)),
            merge ==> forall|k: Seq<char>| #[trigger]
                old(self).variables@.contains_key(k) ==> final(self).variables@[k] == old(
                    self,
                ).variables@[k],
            !merge ==> forall|k: Seq<char>| #[trigger]
                other.variables@.contains_key(k) ==> final(self).variables@[k]
                    == other.variables@[k],
    {
        let mut other = other;
        self.variables.absorb(other.variables, merge);
        self.merge_profiles(other.profiles, merge);
        self.imports.append(&mut other.imports);
        if merge {
            self.hyprland.extend_with(other.hyprland);
        } else if self.hyprland.config_path.is_none() {
            self.hyprland = other.hyprland;
        }
    }

    /// Merges the profiles of an imported document into those of this one.
    fn merge_profiles(&mut self, incoming: NameMap<Profile>, merge: bool)
        ensures
            profiles_merged(old(self).profiles@, incoming@, merge, final(self).profiles@),
            final(self).profiles.names() == joined_names(old(self).profiles.names(), incoming.names()),
            final(self).metadata == old(self).metadata,
            final(self).default_profile == old(self).default_profile,
            final(self).variables == old(self).variables,
            final(self).imports == old(self).imports,
            final(self).hyprland == old(self).hyprland,
    {
        proof {
            use_type_invariant(&incoming);
        }
        let ghost names = incoming.names();
        let ghost items = incoming.items();
        let ghost start = self.profiles@;
        let ghost start_names = self.profiles.names();
        let entries = incoming.into_entries();
        proof {
            assert(pairing(names.take(0), items.take(0)) =~= Map::<Seq<char>, Profile>::empty());
            assert(start.dom() =~= start.dom().union(Set::<Seq<char>>::empty()));
            assert(self.profiles.names() =~= start_names + fresh_names(start_names, names, 0));
        }
        for entry in it: entries
            invariant
                it.seq() == entries@,
                crate::name_map::entry_names(entries@) == names,
                crate::name_map::entry_items(entries@) == items,
                names.no_duplicates(),
                names.len() == items.len(),
                self.profiles.names() == start_names + fresh_names(
                    start_names,
                    names,
                    it.index() as int,
                ),
                profiles_merged(
                    start,
                    pairing(names.take(it.index() as int), items.take(it.index() as int)),
                    merge,
                    self.profiles@,
                ),
                self.metadata == old(self).metadata,
                self.default_profile == old(self).default_profile,
                self.variables == old(self).variables,
                self.imports == old(self).imports,
                self.hyprland == old(self).hyprland,
        {
            let ghost n = it.index() as int;
            let ghost seen = pairing(names.take(n), items.take(n));
            let ghost prior = self.profiles@;
            let (name, profile) = entry;
            proof {
                assert(name@ == names[n]);
                assert(profile == items[n]);
                assert(names.take(n + 1) =~= names.take(n).push(name@));
                assert(items.take(n + 1) =~= items.take(n).push(profile));
                assert(!names.take(n).contains(name@)) by {
                    if names.take(n).contains(name@) {
                        let j = names.take(n).index_of(name@);
                        assert(names.take(n)[j] == name@);
                        assert(names[j] == names[n]);
                    }
                }
                lemma_pairing_push(names.take(n), items.take(n), name@, profile);
                lemma_pairing_domain(names.take(n), items.take(n));
                lemma_fresh_names_step(start_names, names, n);
                assert(self.profiles@.contains_key(name@) <==> self.profiles.names().contains(name@));
            }
            let at = if merge {
                self.profiles.position(name.as_str())
            } else {
                None
            };
            match at {
                Some(i) => {
                    let mut existing = self.profiles.swap_item(i, Profile::default());
                    existing.fill_from(profile);
                    let ghost filled = existing;
                    let _ = self.profiles.swap_item(i, existing);
                    proof {
                        assert(!seen.contains_key(name@));
                        assert(prior[name@] == start[name@]);
                        assert(self.profiles@ =~= prior.insert(name@, filled));
                        assert(self.profiles@.dom() =~= start.dom().union(
                            seen.insert(name@, profile).dom(),
                        ));
                    }
                },
                None => {
                    self.profiles.insert(name, profile);
                    proof {
                        assert(self.profiles@.dom() =~= start.dom().union(
                            seen.insert(name@, profile).dom(),
                        ));
                    }
                },
            }
        }
        proof {
            assert(names.take(entries@.len() as int) =~= names);
            assert(items.take(entries@.len() as int) =~= items);
        }
    }
}

/// Why a configuration could not be used.
#[derive(Clone, Debug, PartialEq, Eq)]
pub enum ConfigError {
    /// No profile of this name exists.
    ProfileNotFound { name: String },
    /// The document at this path could not be read.
    Unreadable { path: String },
    /// The document at this path is malformed.
    Unparsable { path: String },
}

impl ConfigError {
    /// The message of this error.
    pub open spec fn message_text(self) -> Seq<char> {
        match self {
            ConfigError::ProfileNotFound { name } => "Profile '"@ + name@ + "' not found"@,
            ConfigError::Unreadable { path } => "Failed to read config file: "@ + path@,
            ConfigError::Unparsable { path } => "Failed to parse config file: "@ + path@,
        }
    }

    /// A message for people.
    pub fn message(&self) -> (text: String)
        ensures
            text@ == self.message_text(),
    {
        match self {
            ConfigError::ProfileNotFound { name } => {
                let mut text = "Profile '".to_owned();
                text.append(name.as_str());
                text.append("' not found");
                text
            },
            ConfigError::Unreadable { path } => phrase("Failed to read config file: ", path.as_str()),
            ConfigError::Unparsable { path } => phrase("Failed to parse config file: ", path.as_str()),
        }
    }
}

impl Config {
    /// The name of the profile that is meant: the one asked for, else the
    /// default profile.
    pub open spec fn active_name(self, asked: Option<&str>) -> Seq<char> {
        match asked {
            Some(name) => name@,
            None => self.default_profile@,
        }
    }

    /// The profile that is asked for, or the default profile where none is.
    /// It is only now that the profile has to exist.
    pub fn get_active_profile(&self, profile_name: Option<&str>) -> (found: Result<&Profile, ConfigError>)
        ensures
            match found {
                Ok(profile) => self.profiles@.contains_key(self.active_name(profile_name))
                    && *profile == self.profiles@[self.active_name(profile_name)],
                Err(ConfigError::ProfileNotFound { name }) => !self.profiles@.contains_key(
                    self.active_name(profile_name),
                ) && name@ == self.active_name(profile_name),
                Err(_) => false,
            },
    {
        let name = match profile_name {
            Some(name) => name,
            None => self.default_profile.as_str(),
        };
        match self.profiles.get(name) {
            Some(profile) => Ok(profile),
            None => Err(ConfigError::ProfileNotFound { name: name.to_owned() }),
        }
    }

    /// What `resolve_variables` returns: the resolution of the input against
    /// the variables of the profile and the global variables, or the input
    /// itself where the profile does not exist.
    pub open spec fn resolved_text(self, input: Seq<char>, asked: Option<&str>) -> Seq<char> {
        if self.profiles@.contains_key(self.active_name(asked)) {
            resolve(input, self.profiles@[self.active_name(asked)].variables@, self.variables@)
        } else {
            input
        }
    }

    /// Replaces the placeholders of `input` by the variables of the given
    /// profile and the global variables; those of the profile go first.
    pub fn resolve_variables(&self, input: &str, profile_name: Option<&str>) -> (out: String)
        ensures
            out@ == self.resolved_text(input@, profile_name),
    {
        match self.get_active_profile(profile_name) {
            Ok(profile) => resolve_text(input, &profile.variables, &self.variables),
            Err(_) => input.to_owned(),
        }
    }

    /// A configuration to start from.
    pub fn default_config() -> (config: Config)
        ensures
            config.metadata.name@ == "hyprsupreme-config"@,
            config.metadata.author matches Some(author) && author@ == "HyprSupreme User"@,
            config.metadata.version@ == "0.1.0"@,
            config.metadata.description matches Some(text) && text@
                == "A HyprSupreme configuration"@,
            config.default_profile@ == "default"@,
            config.imports@.len() == 0,
            config.hyprland.is_blank(),
            config.variables@.dom() == set!["color.background"@, "color.foreground"@, "color.accent"@],
            config.variables@["color.background"@]@ == "#1a1b26"@,
            config.variables@["color.foreground"@]@ == "#c0caf5"@,
            config.variables@["color.accent"@]@ == "#7aa2f7"@,
            config.profiles@.dom() == set!["default"@, "laptop"@],
            config.profiles@["default"@].variables@.dom() == set!["terminal"@, "browser"@],
            config.profiles@["default"@].variables@["terminal"@]@ == "kitty"@,
            config.profiles@["default"@].variables@["browser"@]@ == "firefox"@,
            config.profiles@["default"@].imports@.len() == 0,
            config.profiles@["default"@].hyprland is None,
            config.profiles@["laptop"@].variables@.dom() == set!["scale"@],
            config.profiles@["laptop"@].variables@["scale"@]@ == "1.5"@,
            config.profiles@["laptop"@].imports@.len() == 0,
            config.profiles@["laptop"@].hyprland is None,
    {
        proof {
            reveal_strlit("color.background");
            reveal_strlit("color.foreground");
            reveal_strlit("color.accent");
            reveal_strlit("terminal");
            reveal_strlit("browser");
            reveal_strlit("default");
            reveal_strlit("laptop");
        }
        let mut variables: NameMap<String> = NameMap::new();
        variables.insert("color.background".to_owned(), "#1a1b26".to_owned());
        variables.insert("color.foreground".to_owned(), "#c0caf5".to_owned());
        variables.insert("color.accent".to_owned(), "#7aa2f7".to_owned());
        proof {
            assert("color.background"@[6] != "color.foreground"@[6]);
            assert("color.background"@.len() != "color.accent"@.len());
            assert("color.foreground"@.len() != "color.accent"@.len());
            assert(variables@.dom() =~= set![
                "color.background"@,
                "color.foreground"@,
                "color.accent"@,
            ]);
        }
        let mut everyday = Profile::default();
        everyday.variables.insert("terminal".to_owned(), "kitty".to_owned());
        everyday.variables.insert("browser".to_owned(), "firefox".to_owned());
        proof {
            assert("terminal"@.len() != "browser"@.len());
            assert(everyday.variables@.dom() =~= set!["terminal"@, "browser"@]);
        }
        let mut laptop = Profile::default();
        laptop.variables.insert("scale".to_owned(), "1.5".to_owned());
        proof {
            assert(laptop.variables@.dom() =~= set!["scale"@]);
        }
        let mut profiles: NameMap<Profile> = NameMap::new();
        profiles.insert("default".to_owned(), everyday);
        profiles.insert("laptop".to_owned(), laptop);
        proof {
            assert("default"@.len() != "laptop"@.len());
            assert(profiles@.dom() =~= set!["default"@, "laptop"@]);
        }
        Config {
            metadata: Metadata {
                name: default_name(),
                author: Some("HyprSupreme User".to_owned()),
                version: default_version(),
                description: Some("A HyprSupreme configuration".to_owned()),
            },
            variables,
            profiles,
            default_profile: default_profile(),
            imports: Vec::new(),
            hyprland: HyprlandConfig::default(),
        }
    }
}

/// What the import pass asks its caller to do next.
#[derive(Clone, Debug, PartialEq, Eq)]
pub enum ImportStep {
    /// Read and parse the document at `path`, then hand it to `supply`. With
    /// `merge` set it will only fill gaps, else it will override.
    Load { path: String, merge: bool },
    /// Every import has been dealt with.
    Finished,
}

/// The expansion of the imports of one document.
///
/// The pass owns the document and the imports that it declared. Its caller
/// reads the files: `next_step` names the next file, `supply` merges what
/// was read. A file is named once in a pass, however often it is imported.
/// Imports that an imported document declares are appended to the
/// document's import list and are not expanded by this pass.
#[derive(Clone, Debug)]
pub struct ImportPass {
    /// The document that takes the imports in.
    pub config: Config,
    /// The directory of the document; relative import paths start there.
    pub base_dir: String,
    /// The imports that the document declared, in its order.
    pub pending: Vec<Import>,
    /// How many of the pending imports have been looked at.
    pub next: usize,
    /// The places named so far, in order.
    pub processed: Vec<String>,
    /// Whether a document is awaited, and how it is to be merged.
    pub awaiting: Option<bool>,
}

/// The position of the first import from `from` on whose place is not among
/// `processed`, or the number of imports where there is none.
pub open spec fn next_unprocessed(
    pending: Seq<Import>,
    from: int,
    processed: Seq<Seq<char>>,
    base: Seq<char>,
) -> int
    decreases pending.len() - from,
{
    if from < 0 || from >= pending.len() {
        pending.len() as int
    } else if !processed.contains(resolved(base, pending[from].path@)) {
        from
    } else {
        next_unprocessed(pending, from + 1, processed, base)
    }
}

impl ImportPass {
    /// Starts the pass: takes the imports out of the document, which is left
    /// with an empty import list.
    pub fn begin(config: Config, base_dir: &str) -> (pass: ImportPass)
        ensures
            pass.pending == config.imports,
            pass.next == 0,
            pass.processed@.len() == 0,
            pass.awaiting is None,
            pass.base_dir@ == base_dir@,
            pass.config.imports@.len() == 0,
            pass.config.metadata == config.metadata,
            pass.config.variables == config.variables,
            pass.config.profiles == config.profiles,
            pass.config.default_profile == config.default_profile,
            pass.config.hyprland == config.hyprland,
    {
        let mut config = config;
        let mut pending: Vec<Import> = Vec::new();
        std::mem::swap(&mut pending, &mut config.imports);
        ImportPass {
            config,
            base_dir: base_dir.to_owned(),
            pending,
            next: 0,
            processed: Vec::new(),
            awaiting: None,
        }
    }

    /// Names the next file to read. Imports whose place was named before in
    /// this pass are passed over. The place that is returned counts as named
    /// from now on, and its document is awaited. A document that was awaited
    /// and never supplied is given up.
    pub fn next_step(&mut self) -> (step: ImportStep)
        ensures
            final(self).config == old(self).config,
            final(self).base_dir == old(self).base_dir,
            final(self).pending == old(self).pending,
            ({
                let at = next_unprocessed(
                    old(self).pending@,
                    old(self).next as int,
                    texts(old(self).processed@),
                    old(self).base_dir@,
                );
                match step {
                    ImportStep::Load { path, merge } => {
                        &&& old(self).next <= at < old(self).pending@.len()
                        &&& path@ == resolved(old(self).base_dir@, old(self).pending@[at].path@)
                        &&& merge == old(self).pending@[at].merge
                        &&& !texts(old(self).processed@).contains(path@)
                        &&& final(self).next == at + 1
                        &&& texts(final(self).processed@) == texts(old(self).processed@).push(path@)
                        &&& final(self).awaiting == Some(merge)
                    },
                    ImportStep::Finished => {
                        &&& at == old(self).pending@.len()
                        &&& final(self).next == old(self).next
                        &&& final(self).processed == old(self).processed
                        &&& final(self).awaiting is None
                    },
                }
            }),
    {
        let ghost start = self.next as int;
        let mut at = self.next;
        while at < self.pending.len()
            invariant
                start == old(self).next,
                start <= at,
                self.pending == old(self).pending,
                self.config == old(self).config,
                self.base_dir == old(self).base_dir,
                self.processed == old(self).processed,
                self.next == old(self).next,
                self.awaiting == old(self).awaiting,
                next_unprocessed(
                    self.pending@,
                    at as int,
                    texts(self.processed@),
                    self.base_dir@,
                ) == next_unprocessed(
                    self.pending@,
                    start,
                    texts(self.processed@),
                    self.base_dir@,
                ),
            decreases self.pending@.len() - at,
        {
            let place = resolve_path(self.base_dir.as_str(), self.pending[at].path.as_str());
            if !holds_text(&self.processed, place.as_str()) {
                let merge = self.pending[at].merge;
                let ghost before = self.processed@;
                assert(next_unprocessed(
                    self.pending@,
                    at as int,
                    texts(before),
                    self.base_dir@,
                ) == at);
                self.processed.push(place.clone());
                self.next = at + 1;
                self.awaiting = Some(merge);
                proof {
                    assert(texts(self.processed@) =~= texts(before).push(place@));
                }
                return ImportStep::Load { path: place, merge };
            }
            at += 1;
        }
        self.awaiting = None;
        ImportStep::Finished
    }

    /// Merges the document that was read for the last step into the document
    /// of this pass, in the way that the step said. A document that is not
    /// awaited is dropped.
    pub fn supply(&mut self, loaded: Config)
        ensures
            match old(self).awaiting {
                Some(merge) => old(self).config.merged(loaded, merge, final(self).config),
                None => final(self).config == old(self).config,
            },
            final(self).awaiting is None,
            final(self).base_dir == old(self).base_dir,
            final(self).pending == old(self).pending,
            final(self).next == old(self).next,
            final(self).processed == old(self).processed,
    {
        match self.awaiting {
            Some(merge) => {
                self.awaiting = None;
                self.config.merge_config(loaded, merge);
            },
            None => {},
        }
    }

    /// Ends the pass and hands the document back.
    pub fn finish(self) -> (config: Config)
        ensures
            config == self.config,
    {
        self.config
    }
}

/// A filling merge never overwrites what the document already binds: every
/// variable, every theme color and every variable of a profile that the
/// document held before the merge has the same value after it.
pub proof fn lemma_fill_keeps_existing(before: Config, incoming: Config, after: Config)
    requires
        before.merged(incoming, true, after),
    ensures
        forall|k: Seq<char>| #[trigger]
            before.variables@.contains_key(k) ==> after.variables@.contains_key(k)
                && after.variables@[k] == before.variables@[k],
        forall|k: Seq<char>| #[trigger]
            before.hyprland.theme@.contains_key(k) ==> after.hyprland.theme@.contains_key(k)
                && after.hyprland.theme@[k] == before.hyprland.theme@[k],
        forall|p: Seq<char>, k: Seq<char>|
            before.profiles@.contains_key(p) && #[trigger] before.profiles@[p].variables@.contains_key(
                k,
            ) ==> after.profiles@.contains_key(p) && after.profiles@[p].variables@.contains_key(k)
                && after.profiles@[p].variables@[k] == before.profiles@[p].variables@[k],
{
    assert forall|p: Seq<char>, k: Seq<char>|
        before.profiles@.contains_key(p) && #[trigger] before.profiles@[p].variables@.contains_key(
            k,
        ) implies after.profiles@.contains_key(p) && after.profiles@[p].variables@.contains_key(k)
        && after.profiles@[p].variables@[k] == before.profiles@[p].variables@[k] by {
        assert(after.profiles@.dom().contains(p));
        if incoming.profiles@.contains_key(p) {
            assert(before.profiles@[p].filled(incoming.profiles@[p], after.profiles@[p]));
        } else {
            assert(after.profiles@[p] == before.profiles@[p]);
        }
    }
}

/// A replacing merge always overwrites on conflict: every variable and
/// every profile of the imported document stands in the result as the
/// imported document has it, whatever the document held under that name.
pub proof fn lemma_replace_takes_imported(before: Config, incoming: Config, after: Config)
    requires
        before.merged(incoming, false, after),
    ensures
        forall|k: Seq<char>| #[trigger]
            incoming.variables@.contains_key(k) ==> after.variables@.contains_key(k)
                && after.variables@[k] == incoming.variables@[k],
        forall|p: Seq<char>| #[trigger]
            incoming.profiles@.contains_key(p) ==> after.profiles@.contains_key(p)
                && after.profiles@[p] == incoming.profiles@[p],
{
    assert forall|p: Seq<char>| #[trigger] incoming.profiles@.contains_key(p) implies after.profiles@.contains_key(
        p,
    ) && after.profiles@[p] == incoming.profiles@[p] by {
        assert(after.profiles@.dom().contains(p));
    }
}

} // verus!
