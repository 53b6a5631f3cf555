use vstd::prelude::*;
use vstd::string::*;
use crate::name_map::NameMap;
use crate::paths::{join_path, joined};
use crate::text::{phrase, str_eq};
use crate::version::{check_compatibility, compatibility, Compatibility};

verus! {

/// A script that a plugin runs when a named event happens. Hooks with a lower
/// priority number run first.
#[derive(Clone, Debug)]
pub struct PluginHook {
    pub name: String,
    pub script: String,
    pub priority: i32,
}

/// A script that a plugin offers under a name.
#[derive(Clone, Debug)]
pub struct PluginCommand {
    pub name: String,
    pub description: Option<String>,
    pub script: String,
}

/// What a plugin declares of itself.
#[derive(Clone, Debug)]
pub struct PluginManifest {
    pub name: String,
    pub display_name: Option<String>,
    pub version: String,
    pub author: Option<String>,
    pub description: Option<String>,
    pub license: Option<String>,
    pub repository: Option<String>,
    /// The plugins this one needs, each with the versions it accepts.
    pub dependencies: NameMap<String>,
    pub hooks: Vec<PluginHook>,
    pub commands: Vec<PluginCommand>,
    /// A schema for the plugin's settings, kept as the text it was written
    /// in and never looked into.
    pub config_schema: Option<String>,
}

/// Where a plugin stands in its life.
#[derive(Clone, Debug, PartialEq, Eq)]
pub enum PluginState {
    NotInstalled,
    Installed,
    Enabled,
    Error(String),
}

/// A plugin: its manifest, the directory its scripts live in, its state.
#[derive(Clone, Debug)]
pub struct Plugin {
    pub manifest: PluginManifest,
    pub directory: String,
    pub state: PluginState,
}

/// Why an operation on plugins failed.
#[derive(Clone, Debug, PartialEq, Eq)]
pub enum PluginError {
    /// No plugin of this name is known.
    NotFound { name: String },
    /// `plugin` needs `dependency`, which is not known.
    DependencyMissing { plugin: String, dependency: String },
    /// `plugin` needs `dependency` in a version that meets `requirement`,
    /// and the known one does not.
    DependencyVersionMismatch { plugin: String, dependency: String, requirement: String },
    /// Enabling `plugin` would need `plugin` itself to be enabled first.
    DependencyCycle { plugin: String },
    /// This text is no version requirement.
    InvalidRequirement { requirement: String },
    /// This text is no version.
    InvalidVersion { version: String },
    /// A plugin of this name is installed already.
    AlreadyInstalled { name: String },
    /// No manifest lies in this directory.
    ManifestNotFound { directory: String },
    /// A manifest cannot be written or read under this file extension.
    UnsupportedFormat { extension: String },
    /// The plugin of this name is not enabled.
    NotEnabled { name: String },
    /// The plugin declares no hook of this name.
    HookNotFound { name: String },
    /// The plugin declares no command of this name.
    CommandNotFound { name: String },
    /// The script at this path does not exist.
    ScriptNotFound { path: String },
    /// The script ran and failed, or could not be started; this is what it
    /// wrote to its error output, or why it did not start.
    ScriptFailed { output: String },
    /// No directory for configuration files is known.
    ConfigurationDirectoryUnavailable,
    /// The file system refused; this is what it said.
    Io { message: String },
}

/// An error of plugin handling, as plain text values.
pub enum Fault {
    NotFound { name: Seq<char> },
    DependencyMissing { plugin: Seq<char>, dependency: Seq<char> },
    DependencyVersionMismatch { plugin: Seq<char>, dependency: Seq<char>, requirement: Seq<char> },
    DependencyCycle { plugin: Seq<char> },
    InvalidRequirement { requirement: Seq<char> },
    InvalidVersion { version: Seq<char> },
    AlreadyInstalled { name: Seq<char> },
    ManifestNotFound { directory: Seq<char> },
    UnsupportedFormat { extension: Seq<char> },
    NotEnabled { name: Seq<char> },
    HookNotFound { name: Seq<char> },
    CommandNotFound { name: Seq<char> },
    ScriptNotFound { path: Seq<char> },
    ScriptFailed { output: Seq<char> },
    ConfigurationDirectoryUnavailable,
    Io { message: Seq<char> },
}

impl View for PluginError {
    type V = Fault;

    open spec fn view(&self) -> Fault {
        match *self {
            PluginError::NotFound { name } => Fault::NotFound { name: name@ },
            PluginError::DependencyMissing { plugin, dependency } => Fault::DependencyMissing {
                plugin: plugin@,
                dependency: dependency@,
            },
            PluginError::DependencyVersionMismatch {
                plugin,
                dependency,
                requirement,
            } => Fault::DependencyVersionMismatch {
                plugin: plugin@,
                dependency: dependency@,
                requirement: requirement@,
            },
            PluginError::DependencyCycle { plugin } => Fault::DependencyCycle { plugin: plugin@ },
            PluginError::InvalidRequirement { requirement } => Fault::InvalidRequirement {
                requirement: requirement@,
            },
            PluginError::InvalidVersion { version } => Fault::InvalidVersion { version: version@ },
            PluginError::AlreadyInstalled { name } => Fault::AlreadyInstalled { name: name@ },
            PluginError::ManifestNotFound { directory } => Fault::ManifestNotFound {
                directory: directory@,
            },
            PluginError::UnsupportedFormat { extension } => Fault::UnsupportedFormat {
                extension: extension@,
            },
            PluginError::NotEnabled { name } => Fault::NotEnabled { name: name@ },
            PluginError::HookNotFound { name } => Fault::HookNotFound { name: name@ },
            PluginError::CommandNotFound { name } => Fault::CommandNotFound { name: name@ },
            PluginError::ScriptNotFound { path } => Fault::ScriptNotFound { path: path@ },
            PluginError::ScriptFailed { output } => Fault::ScriptFailed { output: output@ },
            PluginError::ConfigurationDirectoryUnavailable => Fault::ConfigurationDirectoryUnavailable,
            PluginError::Io { message } => Fault::Io { message: message@ },
        }
    }
}

impl Fault {
    /// The message of the error.
    pub open spec fn message(self) -> Seq<char> {
        match self {
            Fault::NotFound { name } => "Plugin not found: "@ + name,
            Fault::DependencyMissing { plugin, dependency } => "Missing dependency: "@ + plugin
                + " requires "@ + dependency,
            Fault::DependencyVersionMismatch {
                plugin,
                dependency,
                requirement,
            } => "Dependency version mismatch: "@ + plugin + " requires "@ + dependency + " "@
                + requirement,
            Fault::DependencyCycle { plugin } => "Dependency cycle: "@ + plugin,
            Fault::InvalidRequirement { requirement } => "Invalid version requirement: "@ + requirement,
            Fault::InvalidVersion { version } => "Invalid plugin version: "@ + version,
            Fault::AlreadyInstalled { name } => "Plugin already installed: "@ + name,
            Fault::ManifestNotFound { directory } => "Plugin manifest not found in: "@ + directory,
            Fault::UnsupportedFormat { extension } => "Unsupported plugin manifest format: "@
                + extension,
            Fault::NotEnabled { name } => "Plugin not enabled: "@ + name,
            Fault::HookNotFound { name } => "Hook not found: "@ + name,
            Fault::CommandNotFound { name } => "Command not found: "@ + name,
            Fault::ScriptNotFound { path } => "Script not found: "@ + path,
            Fault::ScriptFailed { output } => "Script failed: "@ + output,
            Fault::ConfigurationDirectoryUnavailable => "Could not determine config directory"@,
            Fault::Io { message } => message,
        }
    }
}

impl PluginError {
    /// A message for people.
    pub fn message(&self) -> (text: String)
        ensures
            text@ == self@.message(),
    {
        match self {
            PluginError::NotFound { name } => phrase("Plugin not found: ", name.as_str()),
            PluginError::DependencyMissing { plugin, dependency } => {
                let mut text = phrase("Missing dependency: ", plugin.as_str());
                text.append(" requires ");
                text.append(dependency.as_str());
                text
            },
            PluginError::DependencyVersionMismatch { plugin, dependency, requirement } => {
                let mut text = phrase("Dependency version mismatch: ", plugin.as_str());
                text.append(" requires ");
                text.append(dependency.as_str());
                text.append(" ");
                text.append(requirement.as_str());
                text
            },
            PluginError::DependencyCycle { plugin } => phrase("Dependency cycle: ", plugin.as_str()),
            PluginError::InvalidRequirement { requirement } => phrase(
                "Invalid version requirement: ",
                requirement.as_str(),
            ),
            PluginError::InvalidVersion { version } => phrase(
                "Invalid plugin version: ",
                version.as_str(),
            ),
            PluginError::AlreadyInstalled { name } => phrase("Plugin already installed: ", name.as_str()),
            PluginError::ManifestNotFound { directory } => phrase(
                "Plugin manifest not found in: ",
                directory.as_str(),
            ),
            PluginError::UnsupportedFormat { extension } => phrase(
                "Unsupported plugin manifest format: ",
                extension.as_str(),
            ),
            PluginError::NotEnabled { name } => phrase("Plugin not enabled: ", name.as_str()),
            PluginError::HookNotFound { name } => phrase("Hook not found: ", name.as_str()),
            PluginError::CommandNotFound { name } => phrase("Command not found: ", name.as_str()),
            PluginError::ScriptNotFound { path } => phrase("Script not found: ", path.as_str()),
            PluginError::ScriptFailed { output } => phrase("Script failed: ", output.as_str()),
            PluginError::ConfigurationDirectoryUnavailable => "Could not determine config directory".to_owned(),
            PluginError::Io { message } => message.clone(),
        }
    }
}

/// The file format of a plugin manifest.
#[derive(Clone, Copy, Debug, PartialEq, Eq)]
pub enum ManifestFormat {
    Toml,
    Json,
}

impl ManifestFormat {
    /// The format that a file extension stands for. Manifests are written
    /// as TOML or as JSON, and in nothing else.
    pub fn from_extension(extension: &str) -> (format: Result<ManifestFormat, PluginError>)
        ensures
            match format {
                Ok(ManifestFormat::Toml) => extension@ == "toml"@,
                Ok(ManifestFormat::Json) => extension@ != "toml"@ && extension@ == "json"@,
                Err(e) => extension@ != "toml"@ && extension@ != "json"@ && e@
                    == (Fault::UnsupportedFormat { extension: extension@ }),
            },
    {
        if str_eq(extension, "toml") {
            Ok(ManifestFormat::Toml)
        } else if str_eq(extension, "json") {
            Ok(ManifestFormat::Json)
        } else {
            Err(PluginError::UnsupportedFormat { extension: extension.to_owned() })
        }
    }
}

/// The version a plugin has when its manifest gives none.
pub fn default_version() -> (version: String)
    ensures
        version@ == "0.1.0"@,
{
    "0.1.0".to_owned()
}

/// What a dependency check comes to: nothing to object, or the error that
/// enabling `plugin` fails with.
pub open spec fn dependency_fault(
    plugin: Seq<char>,
    dependency: Seq<char>,
    requirement: Seq<char>,
    version: Seq<char>,
    found: Compatibility,
) -> Option<Fault> {
    match found {
        Compatibility::Satisfied => None,
        Compatibility::Unsatisfied => Some(
            Fault::DependencyVersionMismatch { plugin, dependency, requirement },
        ),
        Compatibility::BadRequirement => Some(Fault::InvalidRequirement { requirement }),
        Compatibility::BadVersion => Some(Fault::InvalidVersion { version }),
    }
}

/// Turns the outcome of a version comparison into the result of the
/// dependency check of `plugin` on `dependency`, which has the version
/// `version` and is wanted as `requirement` says.
pub fn dependency_verdict(
    plugin: &str,
    dependency: &str,
    requirement: &str,
    version: &str,
    found: Compatibility,
) -> (checked: Result<(), PluginError>)
    ensures
        match checked {
            Ok(()) => dependency_fault(plugin@, dependency@, requirement@, version@, found) is None,
            Err(e) => dependency_fault(plugin@, dependency@, requirement@, version@, found) == Some(
                e@,
            ),
        },
{
    match found {
        Compatibility::Satisfied => Ok(()),
        Compatibility::Unsatisfied => Err(
            PluginError::DependencyVersionMismatch {
                plugin: plugin.to_owned(),
                dependency: dependency.to_owned(),
                requirement: requirement.to_owned(),
            },
        ),
        Compatibility::BadRequirement => Err(
            PluginError::InvalidRequirement { requirement: requirement.to_owned() },
        ),
        Compatibility::BadVersion => Err(PluginError::InvalidVersion { version: version.to_owned() }),
    }
}

/// The position of the first hook from `from` on that has the name `name`,
/// or the number of hooks where there is none.
pub open spec fn hook_position(hooks: Seq<PluginHook>, name: Seq<char>, from: int) -> int
    decreases hooks.len() - from,
{
    if from < 0 || from >= hooks.len() {
        hooks.len() as int
    } else if hooks[from].name@ == name {
        from
    } else {
        hook_position(hooks, name, from + 1)
    }
}

/// The position of the first command from `from` on that has the name
/// `name`, or the number of commands where there is none.
pub open spec fn command_position(commands: Seq<PluginCommand>, name: Seq<char>, from: int) -> int
    decreases commands.len() - from,
{
    if from < 0 || from >= commands.len() {
        commands.len() as int
    } else if commands[from].name@ == name {
        from
    } else {
        command_position(commands, name, from + 1)
    }
}

/// A script to run: the program, and the directory to run it in.
#[derive(Clone, Debug, PartialEq, Eq)]
pub struct ScriptCall {
    pub program: String,
    pub working_dir: String,
}

/// What came of running a script.
#[derive(Clone, Debug, PartialEq, Eq)]
pub enum ScriptRun {
    /// The program file does not exist.
    Missing,
    /// The program could not be started.
    NotStarted { reason: String },
    /// The program ran to its end.
    Exited { success: bool, stdout: String, stderr: String },
}

impl ScriptCall {
    /// What a run of this script means to the one who asked for it.
    pub open spec fn outcome_of(self, run: ScriptRun) -> Result<Seq<char>, Fault> {
        match run {
            ScriptRun::Missing => Err(Fault::ScriptNotFound { path: self.program@ }),
            ScriptRun::NotStarted { reason } => Err(Fault::ScriptFailed { output: reason@ }),
            ScriptRun::Exited { success, stdout, stderr } => if success {
                Ok(stdout@)
            } else {
                Err(Fault::ScriptFailed { output: stderr@ })
            },
        }
    }

    /// Turns what came of running this script into a result: the standard
    /// output of a run that succeeded, else an error that carries the error
    /// output or the reason.
    pub fn outcome(&self, run: ScriptRun) -> (result: Result<String, PluginError>)
        ensures
            match result {
                Ok(output) => self.outcome_of(run) == Ok::<Seq<char>, Fault>(output@),
                Err(e) => self.outcome_of(run) == Err::<Seq<char>, Fault>(e@),
            },
    {
        match run {
            ScriptRun::Missing => Err(PluginError::ScriptNotFound { path: self.program.clone() }),
            ScriptRun::NotStarted { reason } => Err(PluginError::ScriptFailed { output: reason }),
            ScriptRun::Exited { success, stdout, stderr } => if success {
                Ok(stdout)
            } else {
                Err(PluginError::ScriptFailed { output: stderr })
            },
        }
    }
}

impl PluginState {
    /// Whether this is the state of an enabled plugin.
    pub fn is_enabled(&self) -> (yes: bool)
        ensures
            yes == (*self is Enabled),
    {
        match self {
            PluginState::Enabled => true,
            _ => false,
        }
    }
}

impl PluginManifest {
    /// A manifest that declares the name and nothing else.
    pub fn new(name: &str) -> (manifest: Self)
        ensures
            manifest.name@ == name@,
            manifest.version@ == "0.1.0"@,
            manifest.display_name is None,
            manifest.author is None,
            manifest.description is None,
            manifest.license is None,
            manifest.repository is None,
            manifest.dependencies@ == Map::<Seq<char>, String>::empty(),
            manifest.dependencies.names().len() == 0,
            manifest.hooks@.len() == 0,
            manifest.commands@.len() == 0,
            manifest.config_schema is None,
    {
        PluginManifest {
            name: name.to_owned(),
            display_name: None,
            version: default_version(),
            author: None,
            description: None,
            license: None,
            repository: None,
            dependencies: NameMap::new(),
            hooks: Vec::new(),
            commands: Vec::new(),
            config_schema: None,
        }
    }

    /// Whether the version of this plugin meets a requirement. The
    /// requirement is read first: a text that is none is reported before a
    /// version that is none.
    pub fn satisfies_requirement(&self, requirement: &str) -> (met: Result<bool, PluginError>)
        ensures
            match met {
                Ok(yes) => compatibility(self.version@, requirement@) == if yes {
                    Compatibility::Satisfied
                } else {
                    Compatibility::Unsatisfied
                },
                Err(e) => match compatibility(self.version@, requirement@) {
                    Compatibility::BadRequirement => e@ == Fault::InvalidRequirement {
                        requirement: requirement@,
                    },
                    Compatibility::BadVersion => e@ == Fault::InvalidVersion { version: self.version@ },
                    _ => false,
                },
            },
    {
        match check_compatibility(self.version.as_str(), requirement) {
            Compatibility::Satisfied => Ok(true),
            Compatibility::Unsatisfied => Ok(false),
            Compatibility::BadRequirement => Err(
                PluginError::InvalidRequirement { requirement: requirement.to_owned() },
            ),
            Compatibility::BadVersion => Err(
                PluginError::InvalidVersion { version: self.version.clone() },
            ),
        }
    }

    /// The first hook of the given name.
    pub fn find_hook(&self, hook_name: &str) -> (found: Option<&PluginHook>)
        ensures
            match found {
                Some(hook) => hook_position(self.hooks@, hook_name@, 0) < self.hooks@.len() && *hook
                    == self.hooks@[hook_position(self.hooks@, hook_name@, 0)],
                None => hook_position(self.hooks@, hook_name@, 0) == self.hooks@.len(),
            },
    {
        let mut at: usize = 0;
        while at < self.hooks.len()
            invariant
                at <= self.hooks@.len(),
                hook_position(self.hooks@, hook_name@, at as int) == hook_position(
                    self.hooks@,
                    hook_name@,
                    0,
                ),
            decreases self.hooks@.len() - at,
        {
            if str_eq(self.hooks[at].name.as_str(), hook_name) {
                return Some(&self.hooks[at]);
            }
            at += 1;
        }
        None
    }

    /// The first command of the given name.
    pub fn find_command(&self, command_name: &str) -> (found: Option<&PluginCommand>)
        ensures
            match found {
                Some(command) => command_position(self.commands@, command_name@, 0)
                    < self.commands@.len() && *command == self.commands@[command_position(
                    self.commands@,
                    command_name@,
                    0,
                )],
                None => command_position(self.commands@, command_name@, 0) == self.commands@.len(),
            },
    {
        let mut at: usize = 0;
        while at < self.commands.len()
            invariant
                at <= self.commands@.len(),
                command_position(self.commands@, command_name@, at as int) == command_position(
                    self.commands@,
                    command_name@,
                    0,
                ),
            decreases self.commands@.len() - at,
        {
            if str_eq(self.commands[at].name.as_str(), command_name) {
                return Some(&self.commands[at]);
            }
            at += 1;
        }
        None
    }
}

impl Plugin {
    /// A plugin that is installed and not enabled.
    pub fn new(manifest: PluginManifest, directory: String) -> (plugin: Self)
        ensures
            plugin.manifest == manifest,
            plugin.directory == directory,
            plugin.state is Installed,
    {
        Plugin { manifest, directory, state: PluginState::Installed }
    }

    /// Whether the plugin declares a hook of this name.
    pub open spec fn declares_hook(self, hook_name: Seq<char>) -> bool {
        hook_position(self.manifest.hooks@, hook_name, 0) < self.manifest.hooks@.len()
    }

    /// The priority of the first hook of this name.
    pub open spec fn hook_priority(self, hook_name: Seq<char>) -> int {
        self.manifest.hooks@[hook_position(self.manifest.hooks@, hook_name, 0)].priority as int
    }

    /// Prepares the call of a hook: the script of the first hook of that
    /// name, below the plugin's directory, to be run in that directory.
    pub fn execute_hook(&self, hook_name: &str) -> (call: Result<ScriptCall, PluginError>)
        ensures
            match call {
                Ok(script) => self.declares_hook(hook_name@) && script.working_dir@
                    == self.directory@ && script.program@ == joined(
                    self.directory@,
                    self.manifest.hooks@[hook_position(self.manifest.hooks@, hook_name@, 0)].script@,
                ),
                Err(e) => !self.declares_hook(hook_name@) && e@ == Fault::HookNotFound {
                    name: hook_name@,
                },
            },
    {
        match self.manifest.find_hook(hook_name) {
            Some(hook) => Ok(
                ScriptCall {
                    program: join_path(self.directory.as_str(), hook.script.as_str()),
                    working_dir: self.directory.clone(),
                },
            ),
            None => Err(PluginError::HookNotFound { name: hook_name.to_owned() }),
        }
    }

    /// Whether the plugin declares a command of this name.
    pub open spec fn declares_command(self, command_name: Seq<char>) -> bool {
        command_position(self.manifest.commands@, command_name, 0) < self.manifest.commands@.len()
    }

    /// Prepares the call of a command: the script of the first command of
    /// that name, below the plugin's directory, to be run in that directory.
    pub fn execute_command(&self, command_name: &str) -> (call: Result<ScriptCall, PluginError>)
        ensures
            match call {
                Ok(script) => self.declares_command(command_name@) && script.working_dir@
                    == self.directory@ && script.program@ == joined(
                    self.directory@,
                    self.manifest.commands@[command_position(
                        self.manifest.commands@,
                        command_name@,
                        0,
                    )].script@,
                ),
                Err(e) => !self.declares_command(command_name@) && e@ == Fault::CommandNotFound {
                    name: command_name@,
                },
            },
    {
        match self.manifest.find_command(command_name) {
            Some(command) => Ok(
                ScriptCall {
                    program: join_path(self.directory.as_str(), command.script.as_str()),
                    working_dir: self.directory.clone(),
                },
            ),
            None => Err(PluginError::CommandNotFound { name: command_name.to_owned() }),
        }
    }
}

} // verus!
