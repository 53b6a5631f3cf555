use hyprsupreme_core::theme::{default_version, Theme, ThemeError, ThemeFormat};
use hyprsupreme_core::theme_loader::{theme_found, theme_name, ThemeFile, ThemeLoader, ThemeProbe};
use hyprsupreme_core::theme_manager::ThemeManager;

fn theme_from_toml(text: &str) -> Theme {
    let table: toml::Table = toml::from_str(text).unwrap();
    let mut theme = Theme::new(table["name"].as_str().unwrap());
    if let Some(colors) = table.get("colors").and_then(|c| c.as_table()) {
        for (key, value) in colors {
            theme.colors.insert(key.clone(), value.as_str().unwrap().to_string());
        }
    }
    if let Some(variables) = table.get("variables").and_then(|c| c.as_table()) {
        for (key, value) in variables {
            theme.variables.insert(key.clone(), value.as_str().unwrap().to_string());
        }
    }
    theme
}

fn file(extension: &str, stem: &str, parent: &str) -> ThemeFile {
    ThemeFile {
        extension: Some(extension.to_string()),
        stem: Some(stem.to_string()),
        parent: Some(parent.to_string()),
    }
}

#[test]
fn new_theme() {
    let theme = Theme::new("nord");
    assert_eq!(theme.name, "nord");
    assert_eq!(theme.version, "0.1.0");
    assert_eq!(default_version(), "0.1.0");
    assert!(theme.author.is_none() && theme.description.is_none() && theme.extends.is_none());
    assert_eq!(theme.colors.len() + theme.variables.len() + theme.metadata.len(), 0);
    assert!(theme.get_color("background").is_none());
    assert!(theme.get_variable("gap").is_none());
}

#[test]
fn active_theme_answers_color_queries() {
    let nord = theme_from_toml("name = \"nord\"\n[colors]\nbackground = \"#2e3440\"\n[variables]\ngap = \"4\"\n");
    let mut manager = ThemeManager::new(Some("/home/u/.config"), None);
    let places = manager.loader().load_theme("nord");
    assert_eq!(places[0], "/home/u/.config/hyprsupreme/themes/nord.toml");
    assert!(manager.needs_load("nord"));
    let found = theme_found("nord", vec![ThemeProbe::Loaded { theme: nord }]).unwrap();
    assert_eq!(manager.set_theme("nord", Some(found)), Ok(()));
    assert_eq!(manager.get_theme_color("background"), Ok("#2e3440".to_string()));
    assert_eq!(manager.get_theme_variable("gap"), Ok("4".to_string()));
    assert_eq!(
        manager.get_theme_color("foreground"),
        Err(ThemeError::ColorNotFound { name: "foreground".to_string() })
    );
    assert_eq!(
        manager.get_theme_variable("border"),
        Err(ThemeError::VariableNotFound { name: "border".to_string() })
    );
    assert_eq!(manager.get_active_theme().unwrap().name, "nord");
}

#[test]
fn queries_without_an_active_theme_fail() {
    let mut manager = ThemeManager::with_loader(ThemeLoader::new());
    assert!(manager.get_active_theme().is_none());
    assert_eq!(manager.get_theme_color("background"), Err(ThemeError::NoActiveTheme));
    assert_eq!(manager.get_theme_variable("gap"), Err(ThemeError::NoActiveTheme));
    assert_eq!(manager.reload_theme(), Err(ThemeError::NoActiveTheme));
    assert_eq!(manager.set_theme("nord", None), Err(ThemeError::NotFound { name: "nord".to_string() }));
    assert!(manager.get_active_theme().is_none());
}

#[test]
fn cached_theme_wins_over_a_fresh_one() {
    let mut manager = ThemeManager::with_loader(ThemeLoader::new());
    let mut first = Theme::new("nord");
    first.colors.insert("bg".to_string(), "old".to_string());
    assert_eq!(manager.set_theme("nord", Some(first)), Ok(()));
    assert!(!manager.needs_load("nord"));
    let mut second = Theme::new("nord");
    second.colors.insert("bg".to_string(), "new".to_string());
    assert_eq!(manager.set_theme("nord", Some(second)), Ok(()));
    assert_eq!(manager.get_theme_color("bg"), Ok("old".to_string()));
    assert_eq!(manager.set_theme("nord", None), Ok(()));
    assert_eq!(manager.get_theme_color("bg"), Ok("old".to_string()));
}

#[test]
fn reload_drops_the_cache_entry() {
    let mut manager = ThemeManager::with_loader(ThemeLoader::new());
    let mut first = Theme::new("nord");
    first.colors.insert("bg".to_string(), "old".to_string());
    manager.set_theme("nord", Some(first)).unwrap();
    let name = manager.reload_theme().unwrap();
    assert_eq!(name, "nord");
    assert!(manager.needs_load("nord"));
    assert_eq!(manager.get_theme_color("bg"), Ok("old".to_string()));
    assert_eq!(manager.set_theme(&name, None), Err(ThemeError::NotFound { name: "nord".to_string() }));
    assert_eq!(manager.get_theme_color("bg"), Ok("old".to_string()));
    let mut second = Theme::new("nord");
    second.colors.insert("bg".to_string(), "new".to_string());
    assert_eq!(manager.set_theme(&name, Some(second)), Ok(()));
    assert_eq!(manager.get_theme_color("bg"), Ok("new".to_string()));
}

#[test]
fn merge_lets_the_other_theme_win() {
    let mut base = Theme::new("base");
    base.colors.insert("bg".to_string(), "black".to_string());
    base.colors.insert("fg".to_string(), "white".to_string());
    base.variables.insert("gap".to_string(), "4".to_string());
    base.metadata.insert("source".to_string(), "base".to_string());
    let mut other = Theme::new("other");
    other.author = Some("someone".to_string());
    other.colors.insert("bg".to_string(), "blue".to_string());
    other.colors.insert("accent".to_string(), "red".to_string());
    other.variables.insert("gap".to_string(), "8".to_string());
    other.metadata.insert("license".to_string(), "MIT".to_string());
    base.merge(&other);
    assert_eq!(base.name, "base");
    assert!(base.author.is_none());
    assert_eq!(base.get_color("bg"), Some(&"blue".to_string()));
    assert_eq!(base.get_color("fg"), Some(&"white".to_string()));
    assert_eq!(base.get_color("accent"), Some(&"red".to_string()));
    assert_eq!(base.get_variable("gap"), Some(&"8".to_string()));
    assert_eq!(base.metadata.get("source"), Some(&"base".to_string()));
    assert_eq!(base.metadata.get("license"), Some(&"MIT".to_string()));
    assert_eq!(other.get_color("bg"), Some(&"blue".to_string()));
    let copy = base.duplicate();
    assert_eq!(copy.name, "base");
    assert_eq!(copy.colors.keys(), base.colors.keys());
    assert_eq!(copy.get_color("accent"), Some(&"red".to_string()));
}

#[test]
fn theme_search_order() {
    let mut loader = ThemeLoader::new();
    loader.add_theme_dir("/a").add_theme_dir("/b");
    assert_eq!(loader.directories(), &vec!["/a".to_string(), "/b".to_string()]);
    assert_eq!(
        loader.load_theme("nord"),
        vec![
            "/a/nord.toml".to_string(),
            "/a/nord.json".to_string(),
            "/a/nord/theme.toml".to_string(),
            "/a/nord/theme.json".to_string(),
            "/b/nord.toml".to_string(),
            "/b/nord.json".to_string(),
            "/b/nord/theme.toml".to_string(),
            "/b/nord/theme.json".to_string(),
        ]
    );
    assert!(ThemeLoader::new().load_theme("nord").is_empty());
    assert_eq!(
        ThemeLoader::standard(Some("/c"), Some("/d")).directories(),
        &vec![
            "/c/hyprsupreme/themes".to_string(),
            "/d/hyprsupreme/themes".to_string(),
            "./themes".to_string(),
        ]
    );
}

#[test]
fn first_existing_theme_file_decides() {
    let found = theme_found(
        "nord",
        vec![
            ThemeProbe::Absent,
            ThemeProbe::Loaded { theme: Theme::new("first") },
            ThemeProbe::Loaded { theme: Theme::new("second") },
        ],
    );
    assert_eq!(found.unwrap().name, "first");
    let broken = theme_found(
        "nord",
        vec![ThemeProbe::Malformed { reason: "bad".to_string() }, ThemeProbe::Loaded { theme: Theme::new("x") }],
    );
    assert_eq!(broken.unwrap_err(), ThemeError::Io { message: "bad".to_string() });
    assert_eq!(
        theme_found("nord", vec![ThemeProbe::Absent]).unwrap_err(),
        ThemeError::NotFound { name: "nord".to_string() }
    );
}

#[test]
fn theme_names_of_files() {
    assert_eq!(theme_name(&file("toml", "nord", "themes")), Some("nord".to_string()));
    assert_eq!(theme_name(&file("json", "nord", "themes")), Some("nord".to_string()));
    assert_eq!(theme_name(&file("txt", "nord", "themes")), None);
    assert_eq!(theme_name(&file("txt", "theme", "gruvbox")), None);
    assert_eq!(theme_name(&file("toml", "theme", "gruvbox")), Some("gruvbox".to_string()));
    assert_eq!(theme_name(&file("json", "theme", "gruvbox")), Some("gruvbox".to_string()));
    assert_eq!(theme_name(&file("toml", "theme", "themes")), Some("themes".to_string()));
    let mut odd = file("toml", "theme", "x");
    odd.parent = None;
    assert_eq!(theme_name(&odd), None);
    odd.stem = None;
    assert_eq!(theme_name(&odd), None);
    odd.stem = Some("nord".to_string());
    assert_eq!(theme_name(&odd), Some("nord".to_string()));
    odd.extension = None;
    assert_eq!(theme_name(&odd), None);
}

#[test]
fn listed_themes_are_sorted_and_unique() {
    let files = vec![
        file("toml", "nord", "themes"),
        file("json", "dracula", "themes"),
        file("toml", "theme", "gruvbox"),
        file("json", "nord", "themes"),
        file("md", "readme", "themes"),
        file("toml", "theme", "themes"),
        file("toml", "Zen", "themes"),
        file("json", "theme", "dracula"),
    ];
    let loader = ThemeLoader::new();
    let names = loader.list_themes(&files);
    assert_eq!(
        names,
        vec![
            "Zen".to_string(),
            "dracula".to_string(),
            "gruvbox".to_string(),
            "nord".to_string(),
            "themes".to_string(),
        ]
    );
    let mut expected = vec!["nord", "dracula", "gruvbox", "nord", "themes", "Zen", "dracula"];
    expected.sort();
    expected.dedup();
    assert_eq!(names, expected);
    let manager = ThemeManager::with_loader(ThemeLoader::new());
    assert_eq!(manager.list_themes(&files), names);
    assert_eq!(manager.get_themes(&files), names);
    assert!(loader.list_themes(&Vec::new()).is_empty());
}

#[test]
fn formats_and_save_paths() {
    assert_eq!(ThemeFormat::Toml.extension(), "toml");
    assert_eq!(ThemeFormat::Json.extension(), "json");
    assert_eq!(ThemeFormat::from_extension("toml"), Ok(ThemeFormat::Toml));
    assert_eq!(ThemeFormat::from_extension("json"), Ok(ThemeFormat::Json));
    assert_eq!(
        ThemeFormat::from_extension("yaml"),
        Err(ThemeError::UnsupportedFormat { extension: "yaml".to_string() })
    );
    assert_eq!(
        ThemeManager::save_path(Some("/home/u/.config"), "nord", ThemeFormat::Json),
        Ok("/home/u/.config/hyprsupreme/themes/nord.json".to_string())
    );
    assert_eq!(
        ThemeManager::save_path(Some("/c/"), "nord", ThemeFormat::Toml),
        Ok("/c/hyprsupreme/themes/nord.toml".to_string())
    );
    assert_eq!(
        ThemeManager::save_path(None, "nord", ThemeFormat::Toml),
        Err(ThemeError::ConfigurationDirectoryUnavailable)
    );
}

#[test]
fn saved_themes_are_cached() {
    let mut manager = ThemeManager::with_loader(ThemeLoader::new());
    let mut theme = manager.create_theme("mine");
    theme.colors.insert("bg".to_string(), "black".to_string());
    assert_eq!(
        manager.save_theme(&theme, Err("read-only".to_string())),
        Err(ThemeError::Io { message: "read-only".to_string() })
    );
    assert!(manager.needs_load("mine"));
    assert_eq!(manager.save_theme(&theme, Ok(())), Ok(()));
    assert!(!manager.needs_load("mine"));
    assert_eq!(manager.set_theme("mine", None), Ok(()));
    assert_eq!(manager.get_theme_color("bg"), Ok("black".to_string()));
}

#[test]
fn loader_of_a_manager_can_be_extended() {
    let mut manager = ThemeManager::with_loader(ThemeLoader::new());
    manager.loader_mut().add_theme_dir("/extra");
    assert_eq!(manager.loader().directories(), &vec!["/extra".to_string()]);
}

#[test]
fn theme_error_messages() {
    assert_eq!(ThemeError::NotFound { name: "x".to_string() }.message(), "Theme not found: x");
    assert_eq!(ThemeError::NoActiveTheme.message(), "No active theme");
    assert_eq!(ThemeError::ColorNotFound { name: "c".to_string() }.message(), "Color not found: c");
    assert_eq!(ThemeError::VariableNotFound { name: "v".to_string() }.message(), "Variable not found: v");
    assert_eq!(
        ThemeError::UnsupportedFormat { extension: "ini".to_string() }.message(),
        "Unsupported theme file format: ini"
    );
    assert_eq!(
        ThemeError::ConfigurationDirectoryUnavailable.message(),
        "Could not determine config directory"
    );
    assert_eq!(ThemeError::Io { message: "disk".to_string() }.message(), "disk");
}
