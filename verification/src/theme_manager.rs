use vstd::prelude::*;
use vstd::string::*;
use crate::name_map::NameMap;
use crate::paths::{join_path, joined};
use crate::theme::{Theme, ThemeError, ThemeFormat};
use crate::theme_loader::{
    standard_theme_dirs, strictly_ascending, themes_among, ThemeFile, ThemeLoader,
};
use crate::text::texts;

verus! {

/// The themes that were loaded, by name, and the one that is active.
///
/// The active theme is a value of its own: readers get a copy of it, and
/// only `set_theme` replaces it, whole.
#[derive(Debug)]
pub struct ThemeManager {
    loader: ThemeLoader,
    active_theme: Option<Theme>,
    theme_cache: NameMap<Theme>,
}

impl ThemeManager {
    /// The active theme.
    pub closed spec fn active(self) -> Option<Theme> {
        self.active_theme
    }

    /// The themes that are cached, by name.
    pub closed spec fn cache(self) -> Map<Seq<char>, Theme> {
        self.theme_cache@
    }

    /// The directories in which the loader of this manager searches.
    pub closed spec fn search_dirs(self) -> Seq<Seq<char>> {
        self.loader@
    }

    /// A manager without themes whose loader has the given search order.
    pub fn with_loader(loader: ThemeLoader) -> (manager: Self)
        ensures
            manager.active() is None,
            manager.cache() == Map::<Seq<char>, Theme>::empty(),
            manager.search_dirs() == loader@,
    {
        ThemeManager { loader, active_theme: None, theme_cache: NameMap::new() }
    }

    /// A manager without themes that searches the standard directories of
    /// a user with the given configuration and data directories.
    pub fn new(config_dir: Option<&str>, data_dir: Option<&str>) -> (manager: Self)
        ensures
            manager.active() is None,
            manager.cache() == Map::<Seq<char>, Theme>::empty(),
            manager.search_dirs() == standard_theme_dirs(
                config_dir,
                data_dir,
                "hyprsupreme/themes"@,
                "./themes"@,
            ),
    {
        ThemeManager::with_loader(ThemeLoader::standard(config_dir, data_dir))
    }

    /// The loader of this manager.
    pub fn loader(&self) -> (loader: &ThemeLoader)
        ensures
            loader@ == self.search_dirs(),
    {
        &self.loader
    }

    /// The loader of this manager, to add directories to.
    pub fn loader_mut(&mut self) -> (loader: &mut ThemeLoader)
        ensures
            loader@ == old(self).search_dirs(),
            final(self).search_dirs() == final(loader)@,
            final(self).active() == old(self).active(),
            final(self).cache() == old(self).cache(),
    {
        &mut self.loader
    }

    /// Whether a theme has to be loaded before it can be set: it has to
    /// where the cache does not hold it.
    pub fn needs_load(&self, name: &str) -> (yes: bool)
        ensures
            yes == !self.cache().contains_key(name@),
    {
        !self.theme_cache.contains_key(name)
    }

    /// Makes the theme `name` the active one.
    ///
    /// A theme that the cache holds is taken from there, and `fresh` is not
    /// looked at. Otherwise `fresh` is the theme as it was just loaded: it
    /// goes into the cache under `name` and becomes active. Without it the
    /// theme is not found, and nothing changes.
    pub fn set_theme(&mut self, name: &str, fresh: Option<Theme>) -> (done: Result<(), ThemeError>)
        ensures
            final(self).search_dirs() == old(self).search_dirs(),
            match done {
                Ok(()) => final(self).active() matches Some(now) && if old(self).cache().contains_key(
                    name@,
                ) {
                    final(self).cache() == old(self).cache() && now.same_as(old(self).cache()[name@])
                } else {
                    fresh matches Some(loaded) && now.same_as(loaded) && final(self).cache() == old(
                        self,
                    ).cache().insert(name@, loaded)
                },
                Err(ThemeError::NotFound { name: missing }) => missing@ == name@ && fresh is None
                    && !old(self).cache().contains_key(name@) && final(self).active() == old(
                    self,
                ).active() && final(self).cache() == old(self).cache(),
                Err(_) => false,
            },
    {
        let theme = match self.theme_cache.get(name) {
            Some(cached) => cached.duplicate(),
            None => match fresh {
                Some(loaded) => {
                    let copy = loaded.duplicate();
                    self.theme_cache.insert(name.to_owned(), loaded);
                    copy
                },
                None => {
                    return Err(ThemeError::NotFound { name: name.to_owned() });
                },
            },
        };
        self.active_theme = Some(theme);
        Ok(())
    }

    /// A copy of the active theme.
    pub fn get_active_theme(&self) -> (theme: Option<Theme>)
        ensures
            match theme {
                Some(copy) => self.active() matches Some(active) && copy.same_as(active),
                None => self.active() is None,
            },
    {
        match &self.active_theme {
            Some(active) => Some(active.duplicate()),
            None => None,
        }
    }

    /// The names of the themes that the given files stand for, each once,
    /// in ascending order.
    pub fn list_themes(&self, files: &Vec<ThemeFile>) -> (names: Vec<String>)
        ensures
            strictly_ascending(texts(names@)),
            texts(names@).to_set() == themes_among(files@, files@.len() as int),
    {
        self.loader.list_themes(files)
    }

    /// The names of the themes that the given files stand for, each once,
    /// in ascending order.
    pub fn get_themes(&self, files: &Vec<ThemeFile>) -> (names: Vec<String>)
        ensures
            strictly_ascending(texts(names@)),
            texts(names@).to_set() == themes_among(files@, files@.len() as int),
    {
        self.list_themes(files)
    }

    /// A new theme of the given name. The manager does not keep it.
    pub fn create_theme(&mut self, name: &str) -> (theme: Theme)
        ensures
            *final(self) == *old(self),
            theme.name@ == name@,
            theme.author is None,
            theme.description is None,
            theme.version@ == "0.1.0"@,
            theme.extends is None,
            theme.colors@ == Map::<Seq<char>, String>::empty(),
            theme.variables@ == Map::<Seq<char>, String>::empty(),
            theme.metadata@ == Map::<Seq<char>, String>::empty(),
    {
        Theme::new(name)
    }

    /// A color of the active theme.
    pub fn get_theme_color(&self, color_name: &str) -> (color: Result<String, ThemeError>)
        ensures
            match color {
                Ok(value) => self.active() matches Some(theme) && theme.colors@.contains_key(
                    color_name@,
                ) && value == theme.colors@[color_name@],
                Err(ThemeError::NoActiveTheme) => self.active() is None,
                Err(ThemeError::ColorNotFound { name }) => self.active() matches Some(theme)
                    && !theme.colors@.contains_key(color_name@) && name@ == color_name@,
                Err(_) => false,
            },
    {
        match &self.active_theme {
            Some(theme) => match theme.get_color(color_name) {
                Some(value) => Ok(value.clone()),
                None => Err(ThemeError::ColorNotFound { name: color_name.to_owned() }),
            },
            None => Err(ThemeError::NoActiveTheme),
        }
    }

    /// A variable of the active theme.
    pub fn get_theme_variable(&self, var_name: &str) -> (variable: Result<String, ThemeError>)
        ensures
            match variable {
                Ok(value) => self.active() matches Some(theme) && theme.variables@.contains_key(
                    var_name@,
                ) && value == theme.variables@[var_name@],
                Err(ThemeError::NoActiveTheme) => self.active() is None,
                Err(ThemeError::VariableNotFound { name }) => self.active() matches Some(theme)
                    && !theme.variables@.contains_key(var_name@) && name@ == var_name@,
                Err(_) => false,
            },
    {
        match &self.active_theme {
            Some(theme) => match theme.get_variable(var_name) {
                Some(value) => Ok(value.clone()),
                None => Err(ThemeError::VariableNotFound { name: var_name.to_owned() }),
            },
            None => Err(ThemeError::NoActiveTheme),
        }
    }

    /// Begins the reload of the active theme: its cache entry is dropped,
    /// and its name is returned, to be loaded and set again. Without an
    /// active theme there is nothing to reload.
    pub fn reload_theme(&mut self) -> (name: Result<String, ThemeError>)
        ensures
            final(self).search_dirs() == old(self).search_dirs(),
            final(self).active() == old(self).active(),
            match name {
                Ok(name) => old(self).active() matches Some(theme) && name == theme.name
                    && final(self).cache() == old(self).cache().remove(name@),
                Err(ThemeError::NoActiveTheme) => old(self).active() is None && final(self).cache()
                    == old(self).cache(),
                Err(_) => false,
            },
    {
        let name = match &self.active_theme {
            Some(theme) => theme.name.clone(),
            None => {
                return Err(ThemeError::NoActiveTheme);
            },
        };
        let _ = self.theme_cache.remove(name.as_str());
        Ok(name)
    }

    /// Where a theme is saved: the file of its name and format in the theme
    /// directory below the user's configuration directory, which has to be
    /// known.
    pub fn save_path(config_dir: Option<&str>, theme_name: &str, format: ThemeFormat) -> (path: Result<
        String,
        ThemeError,
    >)
        ensures
            match path {
                Ok(path) => config_dir matches Some(dir) && path@ == joined(
                    joined(dir@, "hyprsupreme/themes"@),
                    theme_name@ + "."@ + match format {
                        ThemeFormat::Toml => "toml"@,
                        ThemeFormat::Json => "json"@,
                    },
                ),
                Err(ThemeError::ConfigurationDirectoryUnavailable) => config_dir is None,
                Err(_) => false,
            },
    {
        match config_dir {
            Some(dir) => {
                let themes_dir = join_path(dir, "hyprsupreme/themes");
                let mut file = theme_name.to_owned();
                file.append(".");
                file.append(format.extension());
                Ok(join_path(themes_dir.as_str(), file.as_str()))
            },
            None => Err(ThemeError::ConfigurationDirectoryUnavailable),
        }
    }

    /// Ends the saving of a theme: after its file was written, a copy of
    /// the theme goes into the cache under its name. A write that failed is
    /// an error and changes nothing.
    pub fn save_theme(&mut self, theme: &Theme, written: Result<(), String>) -> (done: Result<(), ThemeError>)
        ensures
            final(self).search_dirs() == old(self).search_dirs(),
            final(self).active() == old(self).active(),
            match done {
                Ok(()) => written is Ok && final(self).cache().dom() == old(self).cache().dom().insert(
                    theme.name@,
                ) && final(self).cache()[theme.name@].same_as(*theme) && forall|k: Seq<char>|
                    k != theme.name@ && old(self).cache().contains_key(k) ==> #[trigger] final(self).cache()[k] == old(self).cache()[k],
                Err(ThemeError::Io { message }) => written == Err::<(), String>(message) && final(self).cache() == old(self).cache(),
                Err(_) => false,
            },
    {
        match written {
            Ok(()) => {
                self.theme_cache.insert(theme.name.clone(), theme.duplicate());
                Ok(())
            },
            Err(reason) => Err(ThemeError::Io { message: reason }),
        }
    }
}

} // verus!
