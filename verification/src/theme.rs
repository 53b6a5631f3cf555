use vstd::prelude::*;
use crate::name_map::NameMap;
use crate::text::{phrase, str_eq};

verus! {

/// A named bundle of colors and variables.
#[derive(Clone, Debug)]
pub struct Theme {
    pub name: String,
    pub author: Option<String>,
    pub description: Option<String>,
    pub version: String,
    /// The theme that this one builds on. It is kept and never followed.
    pub extends: Option<String>,
    pub colors: NameMap<String>,
    pub variables: NameMap<String>,
    pub metadata: NameMap<String>,
}

/// The file format of a theme.
#[derive(Clone, Copy, Debug, PartialEq, Eq)]
pub enum ThemeFormat {
    Toml,
    Json,
}

/// Why an operation on themes failed.
#[derive(Clone, Debug, PartialEq, Eq)]
pub enum ThemeError {
    /// No theme of this name was found.
    NotFound { name: String },
    /// No theme is active.
    NoActiveTheme,
    /// The active theme has no color of this name.
    ColorNotFound { name: String },
    /// The active theme has no variable of this name.
    VariableNotFound { name: String },
    /// A theme cannot be read or written under this file extension.
    UnsupportedFormat { extension: String },
    /// No directory for configuration files is known.
    ConfigurationDirectoryUnavailable,
    /// A file could not be read, written or understood; this is why.
    Io { message: String },
}

impl ThemeError {
    /// The message of this error.
    pub open spec fn message_text(self) -> Seq<char> {
        match self {
            ThemeError::NotFound { name } => "Theme not found: "@ + name@,
            ThemeError::NoActiveTheme => "No active theme"@,
            ThemeError::ColorNotFound { name } => "Color not found: "@ + name@,
            ThemeError::VariableNotFound { name } => "Variable not found: "@ + name@,
            ThemeError::UnsupportedFormat { extension } => "Unsupported theme file format: "@
                + extension@,
            ThemeError::ConfigurationDirectoryUnavailable => "Could not determine config directory"@,
            ThemeError::Io { message } => message@,
        }
    }

    /// A message for people.
    pub fn message(&self) -> (text: String)
        ensures
            text@ == self.message_text(),
    {
        match self {
            ThemeError::NotFound { name } => phrase("Theme not found: ", name.as_str()),
            ThemeError::NoActiveTheme => "No active theme".to_owned(),
            ThemeError::ColorNotFound { name } => phrase("Color not found: ", name.as_str()),
            ThemeError::VariableNotFound { name } => phrase("Variable not found: ", name.as_str()),
            ThemeError::UnsupportedFormat { extension } => phrase(
                "Unsupported theme file format: ",
                extension.as_str(),
            ),
            ThemeError::ConfigurationDirectoryUnavailable => "Could not determine config directory".to_owned(),
            ThemeError::Io { message } => message.clone(),
        }
    }
}

/// The version a theme has when it gives none.
pub fn default_version() -> (version: String)
    ensures
        version@ == "0.1.0"@,
{
    "0.1.0".to_owned()
}

fn copy_of(text: &Option<String>) -> (copy: Option<String>)
    ensures
        copy == *text,
{
    match text {
        Some(s) => Some(s.clone()),
        None => None,
    }
}

impl ThemeFormat {
    /// The file extension of the format.
    pub fn extension(&self) -> (ext: &'static str)
        ensures
            ext@ == match *self {
                ThemeFormat::Toml => "toml"@,
                ThemeFormat::Json => "json"@,
            },
    {
        match self {
            ThemeFormat::Toml => "toml",
            ThemeFormat::Json => "json",
        }
    }

    /// The format that a file extension stands for. Themes are written as
    /// TOML or as JSON, and in nothing else.
    pub fn from_extension(extension: &str) -> (format: Result<ThemeFormat, ThemeError>)
        ensures
            match format {
                Ok(ThemeFormat::Toml) => extension@ == "toml"@,
                Ok(ThemeFormat::Json) => extension@ != "toml"@ && extension@ == "json"@,
                Err(ThemeError::UnsupportedFormat { extension: refused }) => extension@ != "toml"@
                    && extension@ != "json"@ && refused@ == extension@,
                Err(_) => false,
            },
    {
        if str_eq(extension, "toml") {
            Ok(ThemeFormat::Toml)
        } else if str_eq(extension, "json") {
            Ok(ThemeFormat::Json)
        } else {
            Err(ThemeError::UnsupportedFormat { extension: extension.to_owned() })
        }
    }
}

impl Theme {
    /// The two themes say the same: the same name and texts, and the same
    /// colors, variables and metadata in the same order.
    pub open spec fn same_as(self, other: Theme) -> bool {
        &&& self.name == other.name
        &&& self.author == other.author
        &&& self.description == other.description
        &&& self.version == other.version
        &&& self.extends == other.extends
        &&& self.colors@ == other.colors@
        &&& self.variables@ == other.variables@
        &&& self.metadata@ == other.metadata@
        &&& self.colors.names() == other.colors.names()
        &&& self.variables.names() == other.variables.names()
        &&& self.metadata.names() == other.metadata.names()
    }

    /// A theme of the given name without colors, variables or metadata.
    pub fn new(name: &str) -> (theme: Self)
        ensures
            theme.name@ == name@,
            theme.author is None,
            theme.description is None,
            theme.version@ == "0.1.0"@,
            theme.extends is None,
            theme.colors@ == Map::<Seq<char>, String>::empty(),
            theme.variables@ == Map::<Seq<char>, String>::empty(),
            theme.metadata@ == Map::<Seq<char>, String>::empty(),
    {
        Theme {
            name: name.to_owned(),
            author: None,
            description: None,
            version: default_version(),
            extends: None,
            colors: NameMap::new(),
            variables: NameMap::new(),
            metadata: NameMap::new(),
        }
    }

    /// Takes over the colors, variables and metadata of `other`. Where both
    /// themes bind a name, the value of `other` wins. Everything else stays.
    pub fn merge(&mut self, other: &Theme)
        ensures
            final(self).colors@ == old(self).colors@.union_prefer_right(other.colors@),
            final(self).variables@ == old(self).variables@.union_prefer_right(other.variables@),
            final(self).metadata@ == old(self).metadata@.union_prefer_right(other.metadata@),
            final(self).name == old(self).name,
            final(self).author == old(self).author,
            final(self).description == old(self).description,
            final(self).version == old(self).version,
            final(self).extends == old(self).extends,
            forall|k: Seq<char>| #[trigger]
                other.colors@.contains_key(k) ==> final(self).colors@[k] == other.colors@[k],
            forall|k: Seq<char>| #[trigger]
                other.variables@.contains_key(k) ==> final(self).variables@[k] == other.variables@[k],
            forall|k: Seq<char>| #[trigger]
                other.metadata@.contains_key(k) ==> final(self).metadata@[k] == other.metadata@[k],
    {
        self.colors.absorb(other.colors.duplicate(), false);
        self.variables.absorb(other.variables.duplicate(), false);
        self.metadata.absorb(other.metadata.duplicate(), false);
    }

    /// The color of a name.
    pub fn get_color(&self, name: &str) -> (color: Option<&String>)
        ensures
            match color {
                Some(value) => self.colors@.contains_key(name@) && *value == self.colors@[name@],
                None => !self.colors@.contains_key(name@),
            },
    {
        self.colors.get(name)
    }

    /// The variable of a name.
    pub fn get_variable(&self, name: &str) -> (variable: Option<&String>)
        ensures
            match variable {
                Some(value) => self.variables@.contains_key(name@) && *value == self.variables@[name@],
                None => !self.variables@.contains_key(name@),
            },
    {
        self.variables.get(name)
    }

    /// A copy that says the same.
    pub fn duplicate(&self) -> (copy: Theme)
        ensures
            copy.same_as(*self),
    {
        Theme {
            name: self.name.clone(),
            author: copy_of(&self.author),
            description: copy_of(&self.description),
            version: self.version.clone(),
            extends: copy_of(&self.extends),
            colors: self.colors.duplicate(),
            variables: self.variables.duplicate(),
            metadata: self.metadata.duplicate(),
        }
    }
}

} // verus!
