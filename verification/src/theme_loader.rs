use vstd::prelude::*;
use vstd::string::*;
use crate::paths::{join_path, joined};
use crate::text::{
    lemma_text_lt_total, lemma_text_lt_transitive, lemma_texts_push, str_eq, text_before, text_lt, texts,
};
use crate::theme::{Theme, ThemeError};

verus! {

/// The directories in which themes are looked for, in search order.
#[derive(Clone, Debug)]
pub struct ThemeLoader {
    theme_dirs: Vec<String>,
}

/// A file that was met while walking a theme directory, as far as its path
/// could be taken apart.
#[derive(Clone, Debug)]
pub struct ThemeFile {
    /// The extension of the file name.
    pub extension: Option<String>,
    /// The file name without its extension.
    pub stem: Option<String>,
    /// The name of the directory that holds the file.
    pub parent: Option<String>,
}

/// What looking at a place for a theme file showed.
#[derive(Clone, Debug)]
pub enum ThemeProbe {
    /// No file is there.
    Absent,
    /// A file is there and cannot be read as a theme.
    Malformed { reason: String },
    /// The theme that the file holds.
    Loaded { theme: Theme },
}

/// The places of the theme `name` in the directory `dir`, the preferred one
/// first: the file of that name, then the theme file in the directory of
/// that name; each as TOML, then as JSON.
pub open spec fn theme_files(dir: Seq<char>, name: Seq<char>) -> Seq<Seq<char>> {
    seq![
        joined(dir, name + ".toml"@),
        joined(dir, name + ".json"@),
        joined(joined(dir, name), "theme.toml"@),
        joined(joined(dir, name), "theme.json"@),
    ]
}

/// The places of the theme `name` in the directories from position `from`
/// on, in search order.
pub open spec fn theme_search(dirs: Seq<Seq<char>>, name: Seq<char>, from: int) -> Seq<Seq<char>>
    decreases dirs.len() - from,
{
    if from < 0 || from >= dirs.len() {
        Seq::empty()
    } else {
        theme_files(dirs[from], name) + theme_search(dirs, name, from + 1)
    }
}

/// The position of the first probe from `from` on that found a file, or the
/// number of probes where none did.
pub open spec fn first_hit(probes: Seq<ThemeProbe>, from: int) -> int
    decreases probes.len() - from,
{
    if from < 0 || from >= probes.len() {
        probes.len() as int
    } else if !(probes[from] is Absent) {
        from
    } else {
        first_hit(probes, from + 1)
    }
}

/// The theme that a file stands for, if it stands for one.
///
/// Only TOML and JSON files count. A file stands for the theme of its own
/// name, unless it is called `theme`: then it stands for the theme of the
/// directory that holds it.
pub open spec fn theme_name_of(file: ThemeFile) -> Option<Seq<char>> {
    if !(file.extension matches Some(ext) && (ext@ == "toml"@ || ext@ == "json"@)) {
        None
    } else if file.stem is None {
        None
    } else if file.stem->0@ != "theme"@ {
        Some(file.stem->0@)
    } else if file.parent is None {
        None
    } else {
        Some(file.parent->0@)
    }
}

/// The themes that the first `upto` files stand for.
pub open spec fn themes_among(files: Seq<ThemeFile>, upto: int) -> Set<Seq<char>> {
    Set::new(|name: Seq<char>| exists|i: int| 0 <= i < upto && theme_name_of(#[trigger] files[i]) == Some(name))
}

/// Every text is before the texts behind it.
pub open spec fn strictly_ascending(list: Seq<Seq<char>>) -> bool {
    forall|i: int, j: int| 0 <= i < j < list.len() ==> text_lt(#[trigger] list[i], #[trigger] list[j])
}

/// The standard search order: the directory `below` under the configuration
/// directory and under the data directory, as far as they are known, then
/// `local`.
pub open spec fn standard_theme_dirs(
    config_dir: Option<&str>,
    data_dir: Option<&str>,
    below: Seq<char>,
    local: Seq<char>,
) -> Seq<Seq<char>> {
    let first: Seq<Seq<char>> = match config_dir {
        Some(dir) => seq![joined(dir@, below)],
        None => Seq::empty(),
    };
    let second: Seq<Seq<char>> = match data_dir {
        Some(dir) => seq![joined(dir@, below)],
        None => Seq::empty(),
    };
    first + second + seq![local]
}

fn with_suffix(name: &str, suffix: &str) -> (out: String)
    ensures
        out@ == name@ + suffix@,
{
    let mut out = name.to_owned();
    out.append(suffix);
    out
}

/// The name of the theme that a file stands for.
pub fn theme_name(file: &ThemeFile) -> (name: Option<String>)
    ensures
        match name {
            Some(n) => theme_name_of(*file) == Some(n@),
            None => theme_name_of(*file) is None,
        },
{
    let counts = match &file.extension {
        Some(ext) => str_eq(ext.as_str(), "toml") || str_eq(ext.as_str(), "json"),
        None => false,
    };
    if !counts {
        return None;
    }
    match &file.stem {
        None => None,
        Some(stem) => {
            if !str_eq(stem.as_str(), "theme") {
                Some(stem.clone())
            } else {
                match &file.parent {
                    None => None,
                    Some(parent) => Some(parent.clone()),
                }
            }
        },
    }
}

/// Puts a name into a list that is in ascending order and holds no name
/// twice. A name that the list holds already is dropped.
fn insert_sorted(list: &mut Vec<String>, name: String)
    requires
        strictly_ascending(texts(old(list)@)),
    ensures
        strictly_ascending(texts(final(list)@)),
        texts(final(list)@).to_set() == texts(old(list)@).to_set().insert(name@),
{
    let ghost before = texts(list@);
    let mut at: usize = 0;
    while at < list.len() && text_before(list[at].as_str(), name.as_str())
        invariant
            at <= list@.len(),
            before == texts(list@),
            forall|t: int| 0 <= t < at ==> text_lt(#[trigger] before[t], name@),
        decreases list@.len() - at,
    {
        at += 1;
    }
    if at < list.len() && str_eq(list[at].as_str(), name.as_str()) {
        proof {
            assert(before[at as int] == name@);
            assert(before.contains(name@));
            assert(before.to_set() =~= before.to_set().insert(name@));
        }
        return ;
    }
    let ghost given = name@;
    list.insert(at, name);
    proof {
        let after = texts(list@);
        assert(after =~= before.insert(at as int, given));
        if at < before.len() {
            lemma_text_lt_total(before[at as int], given);
        }
        assert forall|i: int, j: int| 0 <= i < j < after.len() implies text_lt(
            #[trigger] after[i],
            #[trigger] after[j],
        ) by {
            if j < at {
                assert(after[i] == before[i] && after[j] == before[j]);
            } else if j == at {
                assert(after[i] == before[i]);
            } else if i == at {
                assert(after[j] == before[j - 1]);
                if j - 1 > at {
                    assert(text_lt(before[at as int], before[j - 1]));
                    lemma_text_lt_transitive(given, before[at as int], before[j - 1]);
                }
            } else if i < at {
                assert(after[i] == before[i] && after[j] == before[j - 1]);
            } else {
                assert(after[i] == before[i - 1] && after[j] == before[j - 1]);
            }
        }
        assert forall|x: Seq<char>| after.to_set().contains(x) <==> before.to_set().insert(given).contains(
            x,
        ) by {
            if after.contains(x) {
                let k = choose|k: int| 0 <= k < after.len() && after[k] == x;
                if k < at {
                    assert(before[k] == x);
                } else if k > at {
                    assert(before[k - 1] == x);
                }
            }
            if before.contains(x) {
                let k = choose|k: int| 0 <= k < before.len() && before[k] == x;
                if k < at {
                    assert(after[k] == x);
                } else {
                    assert(after[k + 1] == x);
                }
            }
            if x == given {
                assert(after[at as int] == x);
            }
        }
        assert(after.to_set() =~= before.to_set().insert(given));
    }
}

impl ThemeLoader {
    /// The directories, in search order.
    pub closed spec fn view(self) -> Seq<Seq<char>> {
        texts(self.theme_dirs@)
    }

    /// A loader that searches nowhere.
    pub fn new() -> (loader: Self)
        ensures
            loader@ == Seq::<Seq<char>>::empty(),
    {
        let loader = ThemeLoader { theme_dirs: Vec::new() };
        assert(loader@ =~= Seq::<Seq<char>>::empty());
        loader
    }

    /// Adds a directory at the end of the search order.
    pub fn add_theme_dir(&mut self, path: &str) -> (me: &mut Self)
        ensures
            me@ == old(self)@.push(path@),
            *final(self) == *final(me),
    {
        let ghost before = self.theme_dirs@;
        self.theme_dirs.push(path.to_owned());
        proof {
            lemma_texts_push(before, self.theme_dirs@.last());
        }
        self
    }

    /// The loader for a user whose configuration and data directories are
    /// the given ones: the theme directory below each of them that is known,
    /// then the theme directory below the working directory.
    pub fn standard(config_dir: Option<&str>, data_dir: Option<&str>) -> (loader: Self)
        ensures
            loader@ == standard_theme_dirs(config_dir, data_dir, "hyprsupreme/themes"@, "./themes"@),
    {
        let mut loader = ThemeLoader::new();
        if let Some(dir) = config_dir {
            let path = join_path(dir, "hyprsupreme/themes");
            loader.add_theme_dir(path.as_str());
        }
        if let Some(dir) = data_dir {
            let path = join_path(dir, "hyprsupreme/themes");
            loader.add_theme_dir(path.as_str());
        }
        loader.add_theme_dir("./themes");
        proof {
            assert(loader@ =~= standard_theme_dirs(
                config_dir,
                data_dir,
                "hyprsupreme/themes"@,
                "./themes"@,
            ));
        }
        loader
    }

    /// The directories, in search order.
    pub fn directories(&self) -> (dirs: &Vec<String>)
        ensures
            texts(dirs@) == self@,
    {
        &self.theme_dirs
    }

    /// The places where the theme `name` may lie, in search order. The first
    /// of them that exists is the theme's file.
    pub fn load_theme(&self, name: &str) -> (places: Vec<String>)
        ensures
            texts(places@) == theme_search(self@, name@, 0),
    {
        let mut places: Vec<String> = Vec::new();
        let n = self.theme_dirs.len();
        let mut k: usize = n;
        proof {
            assert(texts(places@) =~= theme_search(self@, name@, n as int));
        }
        while k > 0
            invariant
                k <= n,
                n == self.theme_dirs@.len(),
                texts(places@) == theme_search(self@, name@, k as int),
            decreases k,
        {
            k -= 1;
            let dir = self.theme_dirs[k].as_str();
            let below = join_path(dir, name);
            let mut found: Vec<String> = Vec::new();
            found.push(join_path(dir, with_suffix(name, ".toml").as_str()));
            found.push(join_path(dir, with_suffix(name, ".json").as_str()));
            found.push(join_path(below.as_str(), "theme.toml"));
            found.push(join_path(below.as_str(), "theme.json"));
            let ghost head = found@;
            let ghost tail = places@;
            found.append(&mut places);
            places = found;
            proof {
                assert(texts(head) =~= theme_files(self@[k as int], name@));
                assert(texts(places@) =~= texts(head) + texts(tail));
            }
        }
        places
    }

    /// The names of the themes that the given files stand for, each once,
    /// in ascending order.
    pub fn list_themes(&self, files: &Vec<ThemeFile>) -> (names: Vec<String>)
        ensures
            strictly_ascending(texts(names@)),
            texts(names@).to_set() == themes_among(files@, files@.len() as int),
    {
        let mut names: Vec<String> = Vec::new();
        let mut k: usize = 0;
        proof {
            assert(texts(names@).to_set() =~= themes_among(files@, 0));
        }
        while k < files.len()
            invariant
                k <= files@.len(),
                strictly_ascending(texts(names@)),
                texts(names@).to_set() == themes_among(files@, k as int),
            decreases files@.len() - k,
        {
            let ghost before = texts(names@).to_set();
            match theme_name(&files[k]) {
                Some(name) => {
                    let ghost given = name@;
                    insert_sorted(&mut names, name);
                    proof {
                        assert forall|x: Seq<char>| themes_among(files@, k as int + 1).contains(x)
                            <==> before.insert(given).contains(x) by {
                            if themes_among(files@, k as int + 1).contains(x) {
                                let i = choose|i: int|
                                    0 <= i < k + 1 && theme_name_of(#[trigger] files@[i]) == Some(x);
                                if i < k {
                                    assert(themes_among(files@, k as int).contains(x));
                                }
                            }
                            if before.contains(x) {
                                let i = choose|i: int|
                                    0 <= i < k && theme_name_of(#[trigger] files@[i]) == Some(x);
                                assert(0 <= i < k + 1 && theme_name_of(files@[i]) == Some(x));
                            }
                            if x == given {
                                assert(theme_name_of(files@[k as int]) == Some(x));
                            }
                        }
                        assert(themes_among(files@, k as int + 1) =~= before.insert(given));
                    }
                },
                None => {
                    proof {
                        assert forall|x: Seq<char>| themes_among(files@, k as int + 1).contains(x)
                            <==> before.contains(x) by {
                            if themes_among(files@, k as int + 1).contains(x) {
                                let i = choose|i: int|
                                    0 <= i < k + 1 && theme_name_of(#[trigger] files@[i]) == Some(x);
                                assert(i < k);
                                assert(themes_among(files@, k as int).contains(x));
                            }
                            if before.contains(x) {
                                let i = choose|i: int|
                                    0 <= i < k && theme_name_of(#[trigger] files@[i]) == Some(x);
                                assert(0 <= i < k + 1 && theme_name_of(files@[i]) == Some(x));
                            }
                        }
                        assert(themes_among(files@, k as int + 1) =~= before);
                    }
                },
            }
            k += 1;
        }
        names
    }
}

/// The theme that a search ends with: the first place, in search order,
/// whose file exists decides. A theme file gives the theme, a file that
/// cannot be read as a theme is an error, and where no file exists the
/// theme is not found.
pub fn theme_found(name: &str, probes: Vec<ThemeProbe>) -> (found: Result<Theme, ThemeError>)
    ensures
        match found {
            Ok(theme) => first_hit(probes@, 0) < probes@.len() && probes@[first_hit(probes@, 0)]
                == (ThemeProbe::Loaded { theme }),
            Err(ThemeError::Io { message }) => first_hit(probes@, 0) < probes@.len()
                && probes@[first_hit(probes@, 0)] == (ThemeProbe::Malformed { reason: message }),
            Err(ThemeError::NotFound { name: missing }) => first_hit(probes@, 0) == probes@.len()
                && missing@ == name@,
            Err(_) => false,
        },
{
    let ghost all = probes@;
    let n = probes.len();
    let mut at: usize = 0;
    for probe in it: probes
        invariant
            it.seq() == all,
            all.len() == n,
            at == it.index(),
            first_hit(all, at as int) == first_hit(all, 0),
    {
        match probe {
            ThemeProbe::Loaded { theme } => {
                return Ok(theme);
            },
            ThemeProbe::Malformed { reason } => {
                return Err(ThemeError::Io { message: reason });
            },
            ThemeProbe::Absent => {},
        }
        at += 1;
    }
    Err(ThemeError::NotFound { name: name.to_owned() })
}

} // verus!
