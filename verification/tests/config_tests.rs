use hyprsupreme_core::config::{
    default_name, default_profile, default_true, default_version, Autostart, Config, ConfigError,
    HyprlandConfig, HyprlandModule, Import, ImportPass, ImportStep, Keybinding, Metadata, Profile,
};
use hyprsupreme_core::name_map::NameMap;
use hyprsupreme_core::paths::{join_path, path_is_absolute, resolve_path};

fn map_of(pairs: &[(&str, &str)]) -> NameMap<String> {
    let mut map = NameMap::new();
    for (k, v) in pairs {
        map.insert(k.to_string(), v.to_string());
    }
    map
}

fn empty_config() -> Config {
    Config {
        metadata: Metadata::default(),
        variables: NameMap::new(),
        profiles: NameMap::new(),
        default_profile: default_profile(),
        imports: Vec::new(),
        hyprland: HyprlandConfig::default(),
    }
}

fn import(path: &str, merge: bool) -> Import {
    Import { path: path.to_string(), merge }
}

fn module(name: &str) -> HyprlandModule {
    HyprlandModule { name: name.to_string(), path: format!("{}.conf", name), enabled: default_true() }
}

fn binding(key: &str) -> Keybinding {
    Keybinding {
        modifiers: vec!["SUPER".to_string()],
        key: key.to_string(),
        command: "exec".to_string(),
        description: None,
    }
}

fn autostart(command: &str) -> Autostart {
    Autostart { command: command.to_string(), wait: false, workspace: None }
}

#[test]
fn defaults() {
    assert_eq!(default_profile(), "default");
    assert_eq!(default_name(), "hyprsupreme-config");
    assert_eq!(default_version(), "0.1.0");
    assert!(default_true());
    let metadata = Metadata::default();
    assert_eq!(metadata.name, "");
    assert_eq!(metadata.version, "");
    assert!(metadata.author.is_none() && metadata.description.is_none());
    let profile = Profile::default();
    assert_eq!(profile.variables.len(), 0);
    assert!(profile.imports.is_empty() && profile.hyprland.is_none());
    let block = HyprlandConfig::default();
    assert!(block.config_path.is_none() && block.modules.is_empty() && block.theme.len() == 0);
    assert!(block.keybindings.is_empty() && block.autostart.is_empty());
}

#[test]
fn default_config_has_the_documented_content() {
    let config = Config::default_config();
    assert_eq!(config.metadata.name, "hyprsupreme-config");
    assert_eq!(config.metadata.author.as_deref(), Some("HyprSupreme User"));
    assert_eq!(config.metadata.version, "0.1.0");
    assert_eq!(config.metadata.description.as_deref(), Some("A HyprSupreme configuration"));
    assert_eq!(config.default_profile, "default");
    assert!(config.imports.is_empty());
    assert_eq!(config.variables.len(), 3);
    assert_eq!(config.variables.get("color.background"), Some(&"#1a1b26".to_string()));
    assert_eq!(config.variables.get("color.foreground"), Some(&"#c0caf5".to_string()));
    assert_eq!(config.variables.get("color.accent"), Some(&"#7aa2f7".to_string()));
    assert_eq!(config.profiles.keys(), vec!["default".to_string(), "laptop".to_string()]);
    let everyday = config.profiles.get("default").unwrap();
    assert_eq!(everyday.variables.get("terminal"), Some(&"kitty".to_string()));
    assert_eq!(everyday.variables.get("browser"), Some(&"firefox".to_string()));
    assert_eq!(everyday.variables.len(), 2);
    let laptop = config.profiles.get("laptop").unwrap();
    assert_eq!(laptop.variables.get("scale"), Some(&"1.5".to_string()));
    assert_eq!(laptop.variables.len(), 1);
}

#[test]
fn active_profile_is_looked_up_late() {
    let mut config = empty_config();
    config.default_profile = "work".to_string();
    assert_eq!(
        config.get_active_profile(None).unwrap_err(),
        ConfigError::ProfileNotFound { name: "work".to_string() }
    );
    assert_eq!(
        config.get_active_profile(Some("other")).unwrap_err(),
        ConfigError::ProfileNotFound { name: "other".to_string() }
    );
    let mut profile = Profile::default();
    profile.variables.insert("k".to_string(), "v".to_string());
    config.profiles.insert("work".to_string(), profile);
    let found = config.get_active_profile(None).unwrap();
    assert_eq!(found.variables.get("k"), Some(&"v".to_string()));
    assert!(config.get_active_profile(Some("work")).is_ok());
}

#[test]
fn error_messages() {
    assert_eq!(
        ConfigError::ProfileNotFound { name: "x".to_string() }.message(),
        "Profile 'x' not found"
    );
    assert_eq!(
        ConfigError::Unreadable { path: "/a/b.toml".to_string() }.message(),
        "Failed to read config file: /a/b.toml"
    );
    assert_eq!(
        ConfigError::Unparsable { path: "c.toml".to_string() }.message(),
        "Failed to parse config file: c.toml"
    );
}

#[test]
fn filling_merge_never_overwrites() {
    let mut target = empty_config();
    target.variables = map_of(&[("a", "1"), ("b", "2")]);
    target.hyprland.theme = map_of(&[("bg", "black")]);
    target.hyprland.modules.push(module("one"));
    target.hyprland.keybindings.push(binding("Q"));
    target.hyprland.autostart.push(autostart("bar"));
    target.imports.push(import("kept.toml", true));
    let mut profile = Profile::default();
    profile.variables = map_of(&[("p", "mine")]);
    profile.imports.push(import("p1.toml", false));
    target.profiles.insert("work".to_string(), profile);

    let mut other = empty_config();
    other.metadata.name = "imported".to_string();
    other.default_profile = "imported".to_string();
    other.variables = map_of(&[("b", "20"), ("c", "30")]);
    other.hyprland.config_path = Some("/etc/hypr.conf".to_string());
    other.hyprland.theme = map_of(&[("bg", "white"), ("fg", "grey")]);
    other.hyprland.modules.push(module("two"));
    other.hyprland.keybindings.push(binding("W"));
    other.hyprland.autostart.push(autostart("tray"));
    other.imports.push(import("nested.toml", false));
    let mut incoming = Profile::default();
    incoming.variables = map_of(&[("p", "theirs"), ("q", "new")]);
    incoming.imports.push(import("p2.toml", true));
    incoming.hyprland = Some(HyprlandConfig::default());
    other.profiles.insert("work".to_string(), incoming);
    let mut fresh = Profile::default();
    fresh.variables = map_of(&[("r", "fresh")]);
    other.profiles.insert("home".to_string(), fresh);

    target.merge_config(other, true);

    assert_eq!(target.metadata.name, "");
    assert_eq!(target.default_profile, "default");
    assert_eq!(target.variables.get("a"), Some(&"1".to_string()));
    assert_eq!(target.variables.get("b"), Some(&"2".to_string()));
    assert_eq!(target.variables.get("c"), Some(&"30".to_string()));
    assert_eq!(target.variables.len(), 3);
    assert_eq!(target.hyprland.config_path, None);
    assert_eq!(target.hyprland.theme.get("bg"), Some(&"black".to_string()));
    assert_eq!(target.hyprland.theme.get("fg"), Some(&"grey".to_string()));
    let modules: Vec<&str> = target.hyprland.modules.iter().map(|m| m.name.as_str()).collect();
    assert_eq!(modules, vec!["one", "two"]);
    let keys: Vec<&str> = target.hyprland.keybindings.iter().map(|k| k.key.as_str()).collect();
    assert_eq!(keys, vec!["Q", "W"]);
    let started: Vec<&str> = target.hyprland.autostart.iter().map(|a| a.command.as_str()).collect();
    assert_eq!(started, vec!["bar", "tray"]);
    let imports: Vec<&str> = target.imports.iter().map(|i| i.path.as_str()).collect();
    assert_eq!(imports, vec!["kept.toml", "nested.toml"]);
    assert_eq!(target.profiles.keys(), vec!["work".to_string(), "home".to_string()]);
    let work = target.profiles.get("work").unwrap();
    assert_eq!(work.variables.get("p"), Some(&"mine".to_string()));
    assert_eq!(work.variables.get("q"), Some(&"new".to_string()));
    let work_imports: Vec<&str> = work.imports.iter().map(|i| i.path.as_str()).collect();
    assert_eq!(work_imports, vec!["p1.toml", "p2.toml"]);
    assert!(work.hyprland.is_some());
    let home = target.profiles.get("home").unwrap();
    assert_eq!(home.variables.get("r"), Some(&"fresh".to_string()));
}

#[test]
fn filling_merge_keeps_a_profile_block_that_exists() {
    let mut target = empty_config();
    let mut mine = Profile::default();
    let mut block = HyprlandConfig::default();
    block.config_path = Some("mine.conf".to_string());
    mine.hyprland = Some(block);
    target.profiles.insert("p".to_string(), mine);
    let mut other = empty_config();
    let mut theirs = Profile::default();
    let mut block = HyprlandConfig::default();
    block.config_path = Some("theirs.conf".to_string());
    theirs.hyprland = Some(block);
    other.profiles.insert("p".to_string(), theirs);
    target.merge_config(other, true);
    let merged = target.profiles.get("p").unwrap();
    assert_eq!(merged.hyprland.as_ref().unwrap().config_path.as_deref(), Some("mine.conf"));
}

#[test]
fn replacing_merge_always_overwrites() {
    let mut target = empty_config();
    target.variables = map_of(&[("a", "1"), ("b", "2")]);
    target.hyprland.theme = map_of(&[("bg", "black")]);
    target.hyprland.modules.push(module("one"));
    let mut profile = Profile::default();
    profile.variables = map_of(&[("p", "mine"), ("only", "here")]);
    target.profiles.insert("work".to_string(), profile);
    target.imports.push(import("kept.toml", true));

    let mut other = empty_config();
    other.variables = map_of(&[("b", "20"), ("c", "30")]);
    other.hyprland.theme = map_of(&[("fg", "grey")]);
    other.hyprland.modules.push(module("two"));
    let mut incoming = Profile::default();
    incoming.variables = map_of(&[("p", "theirs")]);
    other.profiles.insert("work".to_string(), incoming);
    other.imports.push(import("nested.toml", false));

    target.merge_config(other, false);

    assert_eq!(target.variables.get("a"), Some(&"1".to_string()));
    assert_eq!(target.variables.get("b"), Some(&"20".to_string()));
    assert_eq!(target.variables.get("c"), Some(&"30".to_string()));
    let work = target.profiles.get("work").unwrap();
    assert_eq!(work.variables.get("p"), Some(&"theirs".to_string()));
    assert_eq!(work.variables.get("only"), None);
    assert_eq!(target.hyprland.theme.get("bg"), None);
    assert_eq!(target.hyprland.theme.get("fg"), Some(&"grey".to_string()));
    let modules: Vec<&str> = target.hyprland.modules.iter().map(|m| m.name.as_str()).collect();
    assert_eq!(modules, vec!["two"]);
    let imports: Vec<&str> = target.imports.iter().map(|i| i.path.as_str()).collect();
    assert_eq!(imports, vec!["kept.toml", "nested.toml"]);
}

#[test]
fn replacing_merge_keeps_a_block_with_a_config_path() {
    let mut target = empty_config();
    target.hyprland.config_path = Some("mine.conf".to_string());
    target.hyprland.modules.push(module("one"));
    let mut other = empty_config();
    other.hyprland.config_path = Some("theirs.conf".to_string());
    other.hyprland.modules.push(module("two"));
    target.merge_config(other, false);
    assert_eq!(target.hyprland.config_path.as_deref(), Some("mine.conf"));
    let modules: Vec<&str> = target.hyprland.modules.iter().map(|m| m.name.as_str()).collect();
    assert_eq!(modules, vec!["one"]);
}

#[test]
fn paths() {
    assert!(path_is_absolute("/etc/x"));
    assert!(!path_is_absolute("etc/x"));
    assert!(!path_is_absolute(""));
    assert_eq!(join_path("/a", "b.toml"), "/a/b.toml");
    assert_eq!(join_path("/a/", "b.toml"), "/a/b.toml");
    assert_eq!(join_path("", "b.toml"), "b.toml");
    assert_eq!(join_path(".", "b.toml"), "./b.toml");
    assert_eq!(join_path("/a", "/etc/b.toml"), "/etc/b.toml");
    assert_eq!(join_path("", "/etc/b.toml"), "/etc/b.toml");
    assert_eq!(join_path("/a", ""), "/a/");
    assert_eq!(resolve_path("/base", "/abs/x.toml"), "/abs/x.toml");
    assert_eq!(resolve_path("/base", "rel/x.toml"), "/base/rel/x.toml");
}

#[test]
fn import_pass_names_each_place_once_and_in_order() {
    let mut config = empty_config();
    config.variables = map_of(&[("a", "1")]);
    config.imports = vec![
        import("one.toml", true),
        import("/abs/two.toml", false),
        import("one.toml", false),
        import("/cfg/one.toml", true),
        import("three.toml", true),
    ];
    let mut pass = ImportPass::begin(config, "/cfg");
    assert!(pass.config.imports.is_empty());
    assert_eq!(pass.pending.len(), 5);

    assert_eq!(pass.next_step(), ImportStep::Load { path: "/cfg/one.toml".to_string(), merge: true });
    let mut first = empty_config();
    first.variables = map_of(&[("a", "10"), ("b", "20")]);
    first.imports.push(import("deeper.toml", true));
    pass.supply(first);

    assert_eq!(pass.next_step(), ImportStep::Load { path: "/abs/two.toml".to_string(), merge: false });
    let mut second = empty_config();
    second.variables = map_of(&[("b", "200")]);
    pass.supply(second);

    assert_eq!(pass.next_step(), ImportStep::Load { path: "/cfg/three.toml".to_string(), merge: true });
    pass.supply(empty_config());
    assert_eq!(pass.next_step(), ImportStep::Finished);
    assert_eq!(pass.next_step(), ImportStep::Finished);
    assert_eq!(
        pass.processed,
        vec!["/cfg/one.toml".to_string(), "/abs/two.toml".to_string(), "/cfg/three.toml".to_string()]
    );

    let config = pass.finish();
    assert_eq!(config.variables.get("a"), Some(&"1".to_string()));
    assert_eq!(config.variables.get("b"), Some(&"200".to_string()));
    let left: Vec<&str> = config.imports.iter().map(|i| i.path.as_str()).collect();
    assert_eq!(left, vec!["deeper.toml"]);
}

#[test]
fn a_document_that_is_not_awaited_is_dropped() {
    let mut config = empty_config();
    config.imports = vec![import("one.toml", false)];
    let mut pass = ImportPass::begin(config, "/cfg");
    let mut stray = empty_config();
    stray.variables = map_of(&[("a", "stray")]);
    pass.supply(stray.clone());
    assert_eq!(pass.config.variables.len(), 0);
    assert_eq!(pass.next_step(), ImportStep::Load { path: "/cfg/one.toml".to_string(), merge: false });
    pass.supply(stray.clone());
    pass.supply(empty_config());
    assert_eq!(pass.config.variables.get("a"), Some(&"stray".to_string()));
    assert_eq!(pass.awaiting, None);
}

#[test]
fn import_pass_without_imports_is_finished_at_once() {
    let mut pass = ImportPass::begin(Config::default_config(), ".");
    assert_eq!(pass.next_step(), ImportStep::Finished);
    assert_eq!(pass.finish().variables.len(), 3);
}
