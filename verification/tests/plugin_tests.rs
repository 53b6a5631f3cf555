use hyprsupreme_core::dispatch::{collect_hook_results, place_call, HookCall};
use hyprsupreme_core::loader::{
    install_check, install_located, install_manifest, install_target, load_found, InstallCopy,
    ManifestCandidate, PluginLoader, Probe,
};
use hyprsupreme_core::plugin::{
    default_version, dependency_verdict, ManifestFormat, Plugin, PluginCommand, PluginError, PluginHook,
    PluginManifest, PluginState, ScriptCall, ScriptRun,
};
use hyprsupreme_core::plugin_manager::PluginManager;
use hyprsupreme_core::version::{check_compatibility, judge, Compatibility};

fn manifest(name: &str, version: &str, deps: &[(&str, &str)]) -> PluginManifest {
    let mut manifest = PluginManifest::new(name);
    manifest.version = version.to_string();
    for (dep, req) in deps {
        manifest.dependencies.insert(dep.to_string(), req.to_string());
    }
    manifest
}

fn plugin(name: &str, version: &str, deps: &[(&str, &str)]) -> Plugin {
    Plugin::new(manifest(name, version, deps), format!("/plugins/{}", name))
}

fn with_hook(mut plugin: Plugin, hook: &str, priority: i32) -> Plugin {
    plugin.manifest.hooks.push(PluginHook {
        name: hook.to_string(),
        script: format!("{}.sh", hook),
        priority,
    });
    plugin
}

fn manager_of(plugins: Vec<Plugin>) -> PluginManager {
    let mut manager = PluginManager::default();
    manager.initialize(plugins);
    manager
}

fn enabled_names(manager: &PluginManager) -> Vec<String> {
    manager.get_enabled_plugins().iter().map(|p| p.manifest.name.clone()).collect()
}

fn state_of(manager: &PluginManager, name: &str) -> PluginState {
    manager.get_plugin(name).unwrap().state.clone()
}

#[test]
fn new_manifest_and_plugin() {
    let manifest = PluginManifest::new("demo");
    assert_eq!(manifest.name, "demo");
    assert_eq!(manifest.version, "0.1.0");
    assert_eq!(default_version(), "0.1.0");
    assert!(manifest.display_name.is_none() && manifest.author.is_none());
    assert!(manifest.description.is_none() && manifest.license.is_none());
    assert!(manifest.repository.is_none() && manifest.config_schema.is_none());
    assert_eq!(manifest.dependencies.len(), 0);
    assert!(manifest.hooks.is_empty() && manifest.commands.is_empty());
    let plugin = Plugin::new(manifest, "/p/demo".to_string());
    assert_eq!(plugin.state, PluginState::Installed);
    assert_eq!(plugin.directory, "/p/demo");
    assert!(!plugin.state.is_enabled());
    assert!(PluginState::Enabled.is_enabled());
    assert!(!PluginState::Error("x".to_string()).is_enabled());
}

#[test]
fn version_requirements_are_judged_by_semver() {
    assert_eq!(check_compatibility("1.2.0", "^1.0.0"), Compatibility::Satisfied);
    assert_eq!(check_compatibility("2.0.0", "^1.0.0"), Compatibility::Unsatisfied);
    assert_eq!(check_compatibility("1.2.3", ">=1.2, <1.3"), Compatibility::Satisfied);
    assert_eq!(check_compatibility("1.3.0", ">=1.2, <1.3"), Compatibility::Unsatisfied);
    assert_eq!(check_compatibility("1.0.0-alpha", "*"), Compatibility::Unsatisfied);
    assert_eq!(check_compatibility("0.1.0", "*"), Compatibility::Satisfied);
    assert_eq!(check_compatibility("1.2.0", "not a requirement"), Compatibility::BadRequirement);
    assert_eq!(check_compatibility("1.2", "^1.0.0"), Compatibility::BadVersion);
    assert_eq!(check_compatibility("nonsense", "also nonsense"), Compatibility::BadRequirement);
}

#[test]
fn verdict_on_parsed_values() {
    let wanted = semver::VersionReq::parse("~1.4");
    let given = semver::Version::parse("1.4.9");
    assert_eq!(judge(wanted, given), Compatibility::Satisfied);
    assert_eq!(
        judge(semver::VersionReq::parse("~1.4"), semver::Version::parse("1.5.0")),
        Compatibility::Unsatisfied
    );
    assert_eq!(
        judge(semver::VersionReq::parse("~1.4"), semver::Version::parse("1.5")),
        Compatibility::BadVersion
    );
    assert_eq!(
        judge(semver::VersionReq::parse("~~"), semver::Version::parse("1.5.0")),
        Compatibility::BadRequirement
    );
}

#[test]
fn satisfies_requirement_reports_bad_texts() {
    let good = manifest("a", "1.2.0", &[]);
    assert_eq!(good.satisfies_requirement("^1.0.0"), Ok(true));
    assert_eq!(good.satisfies_requirement("<1.0.0"), Ok(false));
    assert_eq!(
        good.satisfies_requirement("?"),
        Err(PluginError::InvalidRequirement { requirement: "?".to_string() })
    );
    let bad = manifest("a", "one", &[]);
    assert_eq!(
        bad.satisfies_requirement("^1.0.0"),
        Err(PluginError::InvalidVersion { version: "one".to_string() })
    );
    assert_eq!(
        bad.satisfies_requirement("?"),
        Err(PluginError::InvalidRequirement { requirement: "?".to_string() })
    );
}

#[test]
fn dependency_verdicts() {
    assert_eq!(dependency_verdict("b", "a", "^1", "1.0.0", Compatibility::Satisfied), Ok(()));
    assert_eq!(
        dependency_verdict("b", "a", "^1", "2.0.0", Compatibility::Unsatisfied),
        Err(PluginError::DependencyVersionMismatch {
            plugin: "b".to_string(),
            dependency: "a".to_string(),
            requirement: "^1".to_string(),
        })
    );
    assert_eq!(
        dependency_verdict("b", "a", "^1", "2.0.0", Compatibility::BadRequirement),
        Err(PluginError::InvalidRequirement { requirement: "^1".to_string() })
    );
    assert_eq!(
        dependency_verdict("b", "a", "^1", "2.0.0", Compatibility::BadVersion),
        Err(PluginError::InvalidVersion { version: "2.0.0".to_string() })
    );
}

#[test]
fn enabling_enables_dependencies_first() {
    let mut manager = manager_of(vec![plugin("B", "0.1.0", &[("A", "^1.0.0")]), plugin("A", "1.2.0", &[])]);
    assert_eq!(manager.enable_plugin("B"), Ok(()));
    assert_eq!(enabled_names(&manager), vec!["A".to_string(), "B".to_string()]);
    assert_eq!(state_of(&manager, "A"), PluginState::Enabled);
    assert_eq!(state_of(&manager, "B"), PluginState::Enabled);
    assert!(manager.is_enabled("A") && manager.is_enabled("B"));
    assert_eq!(manager.enable_plugin("B"), Ok(()));
    assert_eq!(manager.enable_plugin("A"), Ok(()));
    assert_eq!(enabled_names(&manager), vec!["A".to_string(), "B".to_string()]);
}

#[test]
fn enabling_walks_deep_and_in_declared_order() {
    let mut manager = manager_of(vec![
        plugin("app", "1.0.0", &[("ui", "*"), ("net", "*")]),
        plugin("ui", "1.0.0", &[("core", ">=1")]),
        plugin("net", "1.0.0", &[("core", ">=1")]),
        plugin("core", "1.5.0", &[]),
        plugin("extra", "1.0.0", &[]),
    ]);
    assert_eq!(manager.enable_plugin("app"), Ok(()));
    assert_eq!(
        enabled_names(&manager),
        vec!["core".to_string(), "ui".to_string(), "net".to_string(), "app".to_string()]
    );
    assert_eq!(state_of(&manager, "extra"), PluginState::Installed);
}

#[test]
fn enabling_an_unknown_plugin_fails() {
    let mut manager = manager_of(vec![plugin("A", "1.0.0", &[])]);
    assert_eq!(manager.enable_plugin("Z"), Err(PluginError::NotFound { name: "Z".to_string() }));
    assert!(enabled_names(&manager).is_empty());
}

#[test]
fn missing_dependency_fails_and_leaves_the_plugin_installed() {
    let mut manager = manager_of(vec![plugin("B", "1.0.0", &[("ghost", "*")])]);
    assert_eq!(
        manager.enable_plugin("B"),
        Err(PluginError::DependencyMissing { plugin: "B".to_string(), dependency: "ghost".to_string() })
    );
    assert_eq!(state_of(&manager, "B"), PluginState::Installed);
    assert!(enabled_names(&manager).is_empty());
}

#[test]
fn dependencies_enabled_before_a_failure_stay_enabled() {
    let mut manager = manager_of(vec![
        plugin("B", "1.0.0", &[("A", "^1"), ("ghost", "*")]),
        plugin("A", "1.0.0", &[]),
    ]);
    assert_eq!(
        manager.enable_plugin("B"),
        Err(PluginError::DependencyMissing { plugin: "B".to_string(), dependency: "ghost".to_string() })
    );
    assert_eq!(enabled_names(&manager), vec!["A".to_string()]);
    assert_eq!(state_of(&manager, "A"), PluginState::Enabled);
    assert_eq!(state_of(&manager, "B"), PluginState::Installed);
}

#[test]
fn version_mismatch_fails() {
    let mut manager = manager_of(vec![plugin("B", "1.0.0", &[("A", "^2.0.0")]), plugin("A", "1.2.0", &[])]);
    assert_eq!(
        manager.enable_plugin("B"),
        Err(PluginError::DependencyVersionMismatch {
            plugin: "B".to_string(),
            dependency: "A".to_string(),
            requirement: "^2.0.0".to_string(),
        })
    );
    assert!(enabled_names(&manager).is_empty());
    assert_eq!(state_of(&manager, "A"), PluginState::Installed);
}

#[test]
fn version_is_checked_even_for_an_enabled_dependency() {
    let mut manager = manager_of(vec![plugin("B", "1.0.0", &[("A", "^2.0.0")]), plugin("A", "1.2.0", &[])]);
    assert_eq!(manager.enable_plugin("A"), Ok(()));
    assert!(matches!(
        manager.enable_plugin("B"),
        Err(PluginError::DependencyVersionMismatch { .. })
    ));
    assert_eq!(enabled_names(&manager), vec!["A".to_string()]);
}

#[test]
fn bad_requirement_and_bad_version_are_reported() {
    let mut manager = manager_of(vec![
        plugin("B", "1.0.0", &[("A", "what")]),
        plugin("A", "1.2.0", &[]),
        plugin("D", "1.0.0", &[("C", "*")]),
        plugin("C", "one", &[]),
    ]);
    assert_eq!(
        manager.enable_plugin("B"),
        Err(PluginError::InvalidRequirement { requirement: "what".to_string() })
    );
    assert_eq!(
        manager.enable_plugin("D"),
        Err(PluginError::InvalidVersion { version: "one".to_string() })
    );
    assert!(enabled_names(&manager).is_empty());
}

#[test]
fn dependency_cycles_are_detected() {
    let mut manager = manager_of(vec![
        plugin("A", "1.0.0", &[("B", "*")]),
        plugin("B", "1.0.0", &[("C", "*")]),
        plugin("C", "1.0.0", &[("A", "*")]),
        plugin("S", "1.0.0", &[("S", "*")]),
    ]);
    assert_eq!(manager.enable_plugin("A"), Err(PluginError::DependencyCycle { plugin: "A".to_string() }));
    assert_eq!(manager.enable_plugin("S"), Err(PluginError::DependencyCycle { plugin: "S".to_string() }));
    assert!(enabled_names(&manager).is_empty());
    assert_eq!(state_of(&manager, "A"), PluginState::Installed);
}

#[test]
fn disabling_takes_the_dependents_along() {
    let mut manager = manager_of(vec![
        plugin("core", "1.0.0", &[]),
        plugin("ui", "1.0.0", &[("core", "*")]),
        plugin("app", "1.0.0", &[("ui", "*")]),
        plugin("other", "1.0.0", &[]),
        plugin("idle", "1.0.0", &[("core", "*")]),
    ]);
    assert_eq!(manager.enable_plugin("other"), Ok(()));
    assert_eq!(manager.enable_plugin("app"), Ok(()));
    assert_eq!(
        enabled_names(&manager),
        vec!["other".to_string(), "core".to_string(), "ui".to_string(), "app".to_string()]
    );
    assert_eq!(manager.disable_plugin("core"), Ok(()));
    assert_eq!(enabled_names(&manager), vec!["other".to_string()]);
    assert_eq!(state_of(&manager, "core"), PluginState::Installed);
    assert_eq!(state_of(&manager, "ui"), PluginState::Installed);
    assert_eq!(state_of(&manager, "app"), PluginState::Installed);
    assert_eq!(state_of(&manager, "other"), PluginState::Enabled);
    assert_eq!(state_of(&manager, "idle"), PluginState::Installed);
}

#[test]
fn disabling_a_leaf_leaves_the_rest() {
    let mut manager = manager_of(vec![plugin("A", "1.0.0", &[]), plugin("B", "1.0.0", &[("A", "*")])]);
    assert_eq!(manager.enable_plugin("B"), Ok(()));
    assert_eq!(manager.disable_plugin("B"), Ok(()));
    assert_eq!(enabled_names(&manager), vec!["A".to_string()]);
    assert_eq!(manager.disable_plugin("B"), Ok(()));
    assert_eq!(enabled_names(&manager), vec!["A".to_string()]);
    assert_eq!(state_of(&manager, "B"), PluginState::Installed);
}

#[test]
fn disabling_an_unknown_plugin_fails() {
    let mut manager = manager_of(vec![plugin("A", "1.0.0", &[])]);
    assert_eq!(manager.disable_plugin("Z"), Err(PluginError::NotFound { name: "Z".to_string() }));
}

#[test]
fn replacing_an_enabled_plugin_disables_it_and_its_dependents() {
    let mut manager = manager_of(vec![
        plugin("A", "1.0.0", &[]),
        plugin("B", "1.0.0", &[("A", "*")]),
        plugin("C", "1.0.0", &[]),
    ]);
    assert_eq!(manager.enable_plugin("C"), Ok(()));
    assert_eq!(manager.enable_plugin("B"), Ok(()));
    manager.register_plugin(plugin("A", "1.0.1", &[("B", "*")]));
    assert_eq!(enabled_names(&manager), vec!["C".to_string()]);
    assert_eq!(state_of(&manager, "A"), PluginState::Installed);
    assert_eq!(state_of(&manager, "B"), PluginState::Installed);
    assert_eq!(manager.get_plugin("A").unwrap().manifest.version, "1.0.1");
    assert_eq!(manager.enable_plugin("A"), Err(PluginError::DependencyCycle { plugin: "A".to_string() }));
    assert_eq!(manager.disable_plugin("A"), Ok(()));
    assert_eq!(enabled_names(&manager), vec!["C".to_string()]);
}

#[test]
fn a_plugin_is_registered_in_the_state_it_comes_in() {
    let mut manager = PluginManager::default();
    let mut broken = plugin("broken", "1.0.0", &[]);
    broken.state = PluginState::Error("no good".to_string());
    manager.register_plugin(broken);
    let mut away = plugin("away", "1.0.0", &[]);
    away.state = PluginState::NotInstalled;
    manager.register_plugin(away);
    assert_eq!(state_of(&manager, "broken"), PluginState::Error("no good".to_string()));
    assert_eq!(state_of(&manager, "away"), PluginState::NotInstalled);
    assert!(enabled_names(&manager).is_empty());
    assert_eq!(manager.enable_plugin("broken"), Ok(()));
    assert_eq!(state_of(&manager, "broken"), PluginState::Enabled);
}

#[test]
fn the_host_can_report_a_failure() {
    let mut manager = manager_of(vec![
        plugin("A", "1.0.0", &[]),
        plugin("B", "1.0.0", &[("A", "*")]),
        plugin("C", "1.0.0", &[]),
    ]);
    assert_eq!(manager.enable_plugin("B"), Ok(()));
    assert_eq!(manager.enable_plugin("C"), Ok(()));
    assert_eq!(manager.set_plugin_error("A", "crashed".to_string()), Ok(()));
    assert_eq!(state_of(&manager, "A"), PluginState::Error("crashed".to_string()));
    assert_eq!(state_of(&manager, "B"), PluginState::Installed);
    assert_eq!(enabled_names(&manager), vec!["C".to_string()]);
    assert_eq!(manager.set_plugin_error("A", "again".to_string()), Ok(()));
    assert_eq!(state_of(&manager, "A"), PluginState::Error("again".to_string()));
    assert_eq!(
        manager.set_plugin_error("Z", "x".to_string()),
        Err(PluginError::NotFound { name: "Z".to_string() })
    );
    assert_eq!(manager.get_plugin("A").unwrap().directory, "/plugins/A");
    assert_eq!(manager.enable_plugin("A"), Ok(()));
    assert_eq!(state_of(&manager, "A"), PluginState::Enabled);
}

#[test]
fn uninstalling_an_enabled_plugin_forgets_it() {
    let mut manager = manager_of(vec![plugin("A", "1.0.0", &[]), plugin("B", "1.0.0", &[])]);
    assert_eq!(manager.enable_plugin("A"), Ok(()));
    assert_eq!(manager.enable_plugin("B"), Ok(()));
    assert_eq!(manager.uninstall_plugin("A"), Ok("/plugins/A".to_string()));
    assert_eq!(enabled_names(&manager), vec!["B".to_string()]);
    assert!(manager.get_plugin("A").is_some());
    assert_eq!(manager.forget_plugin("A", Ok(())), Ok(()));
    assert!(manager.get_plugin("A").is_none());
    assert_eq!(manager.get_plugins(), vec!["B".to_string()]);
    assert_eq!(manager.uninstall_plugin("A"), Err(PluginError::NotFound { name: "A".to_string() }));
    assert_eq!(manager.forget_plugin("A", Ok(())), Err(PluginError::NotFound { name: "A".to_string() }));
}

#[test]
fn a_failed_deletion_keeps_the_plugin_known() {
    let mut manager = manager_of(vec![plugin("A", "1.0.0", &[])]);
    assert_eq!(manager.enable_plugin("A"), Ok(()));
    assert_eq!(manager.uninstall_plugin("A"), Ok("/plugins/A".to_string()));
    assert_eq!(
        manager.forget_plugin("A", Err("denied".to_string())),
        Err(PluginError::Io { message: "denied".to_string() })
    );
    assert_eq!(state_of(&manager, "A"), PluginState::Installed);
}

#[test]
fn forgetting_disables_what_depends_on_the_plugin() {
    let mut manager = manager_of(vec![plugin("A", "1.0.0", &[]), plugin("B", "1.0.0", &[("A", "*")])]);
    assert_eq!(manager.enable_plugin("B"), Ok(()));
    assert_eq!(manager.forget_plugin("A", Ok(())), Ok(()));
    assert!(enabled_names(&manager).is_empty());
    assert_eq!(state_of(&manager, "B"), PluginState::Installed);
}

#[test]
fn registering_replaces_a_plugin_of_the_same_name() {
    let mut manager = manager_of(vec![plugin("A", "1.0.0", &[])]);
    assert_eq!(manager.enable_plugin("A"), Ok(()));
    manager.register_plugin(plugin("A", "2.0.0", &[]));
    manager.register_plugin(plugin("B", "1.0.0", &[]));
    assert_eq!(manager.get_plugin("A").unwrap().manifest.version, "2.0.0");
    assert_eq!(state_of(&manager, "A"), PluginState::Installed);
    assert_eq!(state_of(&manager, "B"), PluginState::Installed);
    assert!(enabled_names(&manager).is_empty());
    assert_eq!(manager.get_plugins(), vec!["A".to_string(), "B".to_string()]);
    let all: Vec<&str> = manager.get_all_plugins().iter().map(|p| p.manifest.name.as_str()).collect();
    assert_eq!(all, vec!["A", "B"]);
}

#[test]
fn installation_steps() {
    assert_eq!(
        install_target(Some("/home/u/.config"), "demo"),
        Ok("/home/u/.config/hyprsupreme/plugins/demo".to_string())
    );
    assert_eq!(install_target(None, "demo"), Err(PluginError::ConfigurationDirectoryUnavailable));
    assert_eq!(install_check("demo", false), Ok(()));
    assert_eq!(
        install_check("demo", true),
        Err(PluginError::AlreadyInstalled { name: "demo".to_string() })
    );
    let found = install_manifest(
        "/src/demo",
        vec![Probe::Absent, Probe::Loaded { manifest: manifest("demo", "1.0.0", &[]) }],
    );
    assert_eq!(found.unwrap().name, "demo");
    let preferred = install_manifest(
        "/src/demo",
        vec![
            Probe::Loaded { manifest: manifest("from-toml", "1.0.0", &[]) },
            Probe::Loaded { manifest: manifest("from-json", "1.0.0", &[]) },
        ],
    );
    assert_eq!(preferred.unwrap().name, "from-toml");
    assert_eq!(
        install_manifest("/src/demo", vec![Probe::Absent, Probe::Absent]).unwrap_err(),
        PluginError::ManifestNotFound { directory: "/src/demo".to_string() }
    );
    assert_eq!(
        install_manifest("/src/demo", vec![Probe::Malformed { reason: "bad".to_string() }]).unwrap_err(),
        PluginError::Io { message: "bad".to_string() }
    );

    let job = |name: &str| InstallCopy {
        manifest: manifest(name, "1.0.0", &[]),
        from: format!("/src/{}", name),
        to: format!("/t/{}", name),
    };
    let mut manager = PluginManager::default();
    assert_eq!(
        manager.install_plugin(job("demo"), Err("full".to_string())),
        Err(PluginError::Io { message: "full".to_string() })
    );
    assert!(manager.get_plugin("demo").is_none());
    assert_eq!(manager.install_plugin(job("demo"), Ok(())), Ok(()));
    let installed = manager.get_plugin("demo").unwrap();
    assert_eq!(installed.state, PluginState::Installed);
    assert_eq!(installed.directory, "/t/demo");
}

#[test]
fn installation_goes_step_by_step() {
    let loaded = || Probe::Loaded { manifest: manifest("demo", "1.0.0", &[]) };
    assert_eq!(
        install_located("/src/demo", vec![Probe::Absent, Probe::Absent], None).unwrap_err(),
        PluginError::ManifestNotFound { directory: "/src/demo".to_string() }
    );
    assert_eq!(
        install_located("/src/demo", vec![Probe::Malformed { reason: "bad".to_string() }, loaded()], None)
            .unwrap_err(),
        PluginError::Io { message: "bad".to_string() }
    );
    assert_eq!(
        install_located("/src/demo", vec![Probe::Absent, loaded()], None).unwrap_err(),
        PluginError::ConfigurationDirectoryUnavailable
    );
    let target = install_located("/src/demo", vec![Probe::Absent, loaded()], Some("/home/u/.config")).unwrap();
    assert_eq!(target.manifest.name, "demo");
    assert_eq!(target.source_dir, "/src/demo");
    assert_eq!(target.plugins_dir, "/home/u/.config/hyprsupreme/plugins");
    assert_eq!(target.target_dir, "/home/u/.config/hyprsupreme/plugins/demo");
    assert_eq!(
        target.clone().cleared(true).unwrap_err(),
        PluginError::AlreadyInstalled { name: "demo".to_string() }
    );
    let copy = target.cleared(false).unwrap();
    assert_eq!(copy.from, "/src/demo");
    assert_eq!(copy.to, "/home/u/.config/hyprsupreme/plugins/demo");
    let mut manager = PluginManager::default();
    assert_eq!(manager.install_plugin(copy, Ok(())), Ok(()));
    assert_eq!(
        manager.get_plugin("demo").unwrap().directory,
        "/home/u/.config/hyprsupreme/plugins/demo"
    );
}

#[test]
fn installing_over_an_enabled_plugin_leaves_it_installed() {
    let mut manager = manager_of(vec![plugin("A", "1.0.0", &[]), plugin("B", "1.0.0", &[("A", "*")])]);
    assert_eq!(manager.enable_plugin("B"), Ok(()));
    let job = InstallCopy {
        manifest: manifest("A", "3.0.0", &[]),
        from: "/src/A".to_string(),
        to: "/t/A".to_string(),
    };
    assert_eq!(manager.install_plugin(job, Ok(())), Ok(()));
    assert_eq!(state_of(&manager, "A"), PluginState::Installed);
    assert_eq!(state_of(&manager, "B"), PluginState::Installed);
    assert_eq!(manager.get_plugin("A").unwrap().manifest.version, "3.0.0");
    assert_eq!(manager.get_plugin("A").unwrap().directory, "/t/A");
    assert!(enabled_names(&manager).is_empty());
}

#[test]
fn commands_need_a_known_and_enabled_plugin() {
    let mut tool = plugin("tool", "1.0.0", &[]);
    tool.manifest.commands.push(PluginCommand {
        name: "run".to_string(),
        description: None,
        script: "bin/run.sh".to_string(),
    });
    tool.manifest.commands.push(PluginCommand {
        name: "run".to_string(),
        description: Some("shadowed".to_string()),
        script: "bin/other.sh".to_string(),
    });
    let mut manager = manager_of(vec![tool]);
    assert_eq!(
        manager.execute_command("none", "run"),
        Err(PluginError::NotFound { name: "none".to_string() })
    );
    assert_eq!(
        manager.execute_command("tool", "run"),
        Err(PluginError::NotEnabled { name: "tool".to_string() })
    );
    assert_eq!(manager.enable_plugin("tool"), Ok(()));
    assert_eq!(
        manager.execute_command("tool", "walk"),
        Err(PluginError::CommandNotFound { name: "walk".to_string() })
    );
    assert_eq!(
        manager.execute_command("tool", "run"),
        Ok(ScriptCall {
            program: "/plugins/tool/bin/run.sh".to_string(),
            working_dir: "/plugins/tool".to_string(),
        })
    );
}

#[test]
fn script_runs_become_results() {
    let call = ScriptCall { program: "/p/x.sh".to_string(), working_dir: "/p".to_string() };
    let done = ScriptRun::Exited { success: true, stdout: "out".to_string(), stderr: "err".to_string() };
    assert_eq!(call.outcome(done), Ok("out".to_string()));
    let failed = ScriptRun::Exited { success: false, stdout: "out".to_string(), stderr: "err".to_string() };
    assert_eq!(call.outcome(failed), Err(PluginError::ScriptFailed { output: "err".to_string() }));
    assert_eq!(call.outcome(ScriptRun::Missing), Err(PluginError::ScriptNotFound { path: "/p/x.sh".to_string() }));
    assert_eq!(
        call.outcome(ScriptRun::NotStarted { reason: "no".to_string() }),
        Err(PluginError::ScriptFailed { output: "no".to_string() })
    );
}

#[test]
fn plugin_hooks_and_commands_are_found_by_name() {
    let mut p = with_hook(with_hook(plugin("p", "1.0.0", &[]), "start", 5), "start", 1);
    p.manifest.commands.push(PluginCommand {
        name: "go".to_string(),
        description: None,
        script: "go.sh".to_string(),
    });
    assert_eq!(p.manifest.find_hook("start").unwrap().priority, 5);
    assert!(p.manifest.find_hook("stop").is_none());
    assert_eq!(p.manifest.find_command("go").unwrap().script, "go.sh");
    assert!(p.manifest.find_command("stay").is_none());
    assert_eq!(p.execute_hook("start").unwrap().program, "/plugins/p/start.sh");
    assert_eq!(p.execute_hook("stop"), Err(PluginError::HookNotFound { name: "stop".to_string() }));
    assert_eq!(p.execute_command("go").unwrap().working_dir, "/plugins/p");
    p.manifest.hooks.push(PluginHook { name: "abs".to_string(), script: "/usr/bin/true".to_string(), priority: 0 });
    assert_eq!(p.execute_hook("abs").unwrap().program, "/usr/bin/true");
    assert_eq!(p.execute_hook("abs").unwrap().working_dir, "/plugins/p");
    assert_eq!(p.execute_command("stay"), Err(PluginError::CommandNotFound { name: "stay".to_string() }));
}

#[test]
fn hooks_are_dispatched_by_ascending_priority() {
    let mut manager = manager_of(vec![
        with_hook(plugin("late", "1.0.0", &[]), "start", 10),
        with_hook(plugin("early", "1.0.0", &[]), "start", -5),
        with_hook(plugin("mid-a", "1.0.0", &[]), "start", 0),
        with_hook(plugin("mid-b", "1.0.0", &[]), "start", 0),
        with_hook(plugin("deaf", "1.0.0", &[]), "stop", 0),
        with_hook(plugin("off", "1.0.0", &[]), "start", -100),
    ]);
    for name in ["late", "mid-b", "early", "deaf", "mid-a"] {
        assert_eq!(manager.enable_plugin(name), Ok(()));
    }
    let calls = manager.execute_hook("start");
    let order: Vec<&str> = calls.iter().map(|c| c.plugin.as_str()).collect();
    assert_eq!(order, vec!["early", "mid-b", "mid-a", "late"]);
    let priorities: Vec<i32> = calls.iter().map(|c| c.priority).collect();
    assert_eq!(priorities, vec![-5, 0, 0, 10]);
    assert!(priorities.windows(2).all(|w| w[0] <= w[1]));
    assert_eq!(calls[0].script.program, "/plugins/early/start.sh");
    assert_eq!(calls[0].script.working_dir, "/plugins/early");
    assert!(manager.execute_hook("unknown").is_empty());
}

#[test]
fn placing_a_call_keeps_the_order() {
    let call = |name: &str, priority: i32| HookCall {
        plugin: name.to_string(),
        priority,
        script: ScriptCall { program: String::new(), working_dir: String::new() },
    };
    let mut calls = Vec::new();
    assert_eq!(place_call(&mut calls, call("a", 3)), 0);
    assert_eq!(place_call(&mut calls, call("b", 1)), 0);
    assert_eq!(place_call(&mut calls, call("c", 3)), 2);
    assert_eq!(place_call(&mut calls, call("d", 2)), 1);
    let order: Vec<&str> = calls.iter().map(|c| c.plugin.as_str()).collect();
    assert_eq!(order, vec!["b", "d", "a", "c"]);
}

#[test]
fn hook_results_leave_failures_out() {
    let call = |name: &str| HookCall {
        plugin: name.to_string(),
        priority: 0,
        script: ScriptCall { program: format!("/p/{}/h.sh", name), working_dir: format!("/p/{}", name) },
    };
    let calls = vec![call("a"), call("b"), call("c"), call("d")];
    let runs = vec![
        ScriptRun::Exited { success: true, stdout: "A".to_string(), stderr: String::new() },
        ScriptRun::Exited { success: false, stdout: "B".to_string(), stderr: "broken".to_string() },
        ScriptRun::Missing,
        ScriptRun::Exited { success: true, stdout: "D".to_string(), stderr: String::new() },
    ];
    let results = collect_hook_results(&calls, runs);
    assert_eq!(results.keys(), vec!["a".to_string(), "d".to_string()]);
    assert_eq!(results.get("a"), Some(&"A".to_string()));
    assert_eq!(results.get("d"), Some(&"D".to_string()));
    let short = collect_hook_results(
        &calls,
        vec![ScriptRun::Exited { success: true, stdout: "A".to_string(), stderr: String::new() }],
    );
    assert_eq!(short.len(), 1);
}

#[test]
fn loader_search_order() {
    let mut loader = PluginLoader::new();
    assert!(loader.directories().is_empty());
    loader.add_plugin_dir("/one").add_plugin_dir("/two/");
    assert_eq!(loader.directories(), &vec!["/one".to_string(), "/two/".to_string()]);
    let files: Vec<String> = loader.load_plugin("demo").into_iter().map(|c| c.manifest_path).collect();
    assert_eq!(
        files,
        vec![
            "/one/demo/plugin.toml".to_string(),
            "/one/demo/plugin.json".to_string(),
            "/two/demo/plugin.toml".to_string(),
            "/two/demo/plugin.json".to_string(),
        ]
    );
    let standard = PluginLoader::standard(Some("/c"), Some("/d"));
    assert_eq!(
        standard.directories(),
        &vec![
            "/c/hyprsupreme/plugins".to_string(),
            "/d/hyprsupreme/plugins".to_string(),
            "./plugins".to_string(),
        ]
    );
    assert_eq!(PluginLoader::standard(None, None).directories(), &vec!["./plugins".to_string()]);
    let candidates = PluginLoader::manifest_candidates("/x/p");
    assert_eq!(
        candidates,
        vec![
            ManifestCandidate { directory: "/x/p".to_string(), manifest_path: "/x/p/plugin.toml".to_string() },
            ManifestCandidate { directory: "/x/p".to_string(), manifest_path: "/x/p/plugin.json".to_string() },
        ]
    );
}

#[test]
fn discovery_passes_over_malformed_manifests() {
    let found = PluginLoader::discover_plugins(
        "/x/p",
        vec![
            Probe::Malformed { reason: "bad toml".to_string() },
            Probe::Loaded { manifest: manifest("p", "1.0.0", &[]) },
        ],
    );
    let found = found.unwrap();
    assert_eq!(found.manifest.name, "p");
    assert_eq!(found.directory, "/x/p");
    assert_eq!(found.state, PluginState::Installed);
    assert!(PluginLoader::discover_plugins("/x/p", vec![Probe::Absent, Probe::Absent]).is_none());
    assert!(PluginLoader::discover_plugins(
        "/x/p",
        vec![Probe::Malformed { reason: "bad".to_string() }, Probe::Absent]
    )
    .is_none());
}

#[test]
fn loading_by_name_stops_at_the_first_file() {
    let candidates = PluginLoader::manifest_candidates("/x/p");
    let mut probed: Vec<(ManifestCandidate, Probe)> = Vec::new();
    probed.push((candidates[0].clone(), Probe::Absent));
    probed.push((candidates[1].clone(), Probe::Loaded { manifest: manifest("p", "1.0.0", &[]) }));
    let found = load_found("p", probed).unwrap();
    assert_eq!(found.directory, "/x/p");
    let mut probed: Vec<(ManifestCandidate, Probe)> = Vec::new();
    probed.push((candidates[0].clone(), Probe::Malformed { reason: "bad".to_string() }));
    probed.push((candidates[1].clone(), Probe::Loaded { manifest: manifest("p", "1.0.0", &[]) }));
    assert_eq!(load_found("p", probed).unwrap_err(), PluginError::Io { message: "bad".to_string() });
    assert_eq!(load_found("p", Vec::new()).unwrap_err(), PluginError::NotFound { name: "p".to_string() });
}

#[test]
fn manager_construction() {
    let manager = PluginManager::new(Some("/c"), None);
    assert_eq!(
        manager.loader().directories(),
        &vec!["/c/hyprsupreme/plugins".to_string(), "./plugins".to_string()]
    );
    let mut manager = PluginManager::with_loader(PluginLoader::new());
    manager.add_plugin_dir("/extra");
    assert_eq!(manager.loader().directories(), &vec!["/extra".to_string()]);
    assert!(manager.get_plugins().is_empty());
    assert!(PluginManager::default().loader().directories().is_empty());
}

#[test]
fn manifest_formats_and_messages() {
    assert_eq!(ManifestFormat::from_extension("toml"), Ok(ManifestFormat::Toml));
    assert_eq!(ManifestFormat::from_extension("json"), Ok(ManifestFormat::Json));
    assert_eq!(
        ManifestFormat::from_extension("yaml"),
        Err(PluginError::UnsupportedFormat { extension: "yaml".to_string() })
    );
    assert_eq!(PluginError::NotFound { name: "x".to_string() }.message(), "Plugin not found: x");
    assert_eq!(
        PluginError::DependencyMissing { plugin: "b".to_string(), dependency: "a".to_string() }.message(),
        "Missing dependency: b requires a"
    );
    assert_eq!(
        PluginError::DependencyVersionMismatch {
            plugin: "b".to_string(),
            dependency: "a".to_string(),
            requirement: "^2".to_string(),
        }
        .message(),
        "Dependency version mismatch: b requires a ^2"
    );
    assert_eq!(PluginError::DependencyCycle { plugin: "a".to_string() }.message(), "Dependency cycle: a");
    assert_eq!(
        PluginError::InvalidRequirement { requirement: "?".to_string() }.message(),
        "Invalid version requirement: ?"
    );
    assert_eq!(PluginError::InvalidVersion { version: "1".to_string() }.message(), "Invalid plugin version: 1");
    assert_eq!(PluginError::AlreadyInstalled { name: "x".to_string() }.message(), "Plugin already installed: x");
    assert_eq!(
        PluginError::ManifestNotFound { directory: "/d".to_string() }.message(),
        "Plugin manifest not found in: /d"
    );
    assert_eq!(
        PluginError::UnsupportedFormat { extension: "ini".to_string() }.message(),
        "Unsupported plugin manifest format: ini"
    );
    assert_eq!(PluginError::NotEnabled { name: "x".to_string() }.message(), "Plugin not enabled: x");
    assert_eq!(PluginError::HookNotFound { name: "h".to_string() }.message(), "Hook not found: h");
    assert_eq!(PluginError::CommandNotFound { name: "c".to_string() }.message(), "Command not found: c");
    assert_eq!(PluginError::ScriptNotFound { path: "/s".to_string() }.message(), "Script not found: /s");
    assert_eq!(PluginError::ScriptFailed { output: "boom".to_string() }.message(), "Script failed: boom");
    assert_eq!(
        PluginError::ConfigurationDirectoryUnavailable.message(),
        "Could not determine config directory"
    );
    assert_eq!(PluginError::Io { message: "disk".to_string() }.message(), "disk");
}
