use vstd::prelude::*;
use crate::dispatch::{ascending, dispatch_order, lemma_dispatch_order, place_call, slots, HookCall};
use crate::loader::{standard_dirs, InstallCopy, PluginLoader};
use crate::name_map::{lemma_pairing_domain, NameMap};
use crate::paths::{join_path, joined};
use crate::plugin::{
    command_position, dependency_verdict, Fault, Plugin, PluginError, PluginManifest, PluginState,
    ScriptCall,
};
use crate::registry::{
    closed, enable_deps, enable_one, fault_of, idle, is_chain, lemma_closed_covers, lemma_mark_one,
    lemma_one_more_active, lemma_rests_on_enabled, lemma_survivors, lemma_walk_appends_idle,
    lemma_disable_idle, lemma_disabled_not_enabled, marked_enabled, needs, registered, registered_all,
    replaced, rests_on, sunk, survivors, unmarked, Registry,
};
use crate::text::{holds_text, lemma_push_to_set, lemma_texts_push, str_eq, texts};
use crate::version::check_compatibility;

verus! {

/// A plugin manager: where plugins are looked for, the plugins that are
/// known, and which of them are enabled.
#[derive(Debug)]
pub struct PluginManager {
    loader: PluginLoader,
    plugins: NameMap<Plugin>,
    enabled_plugins: Vec<String>,
}

/// The walk that enables `name` and, before it, what it depends on.
fn walk(plugins: &NameMap<Plugin>, enabled: &mut Vec<String>, name: &str, active: &mut Vec<String>) -> (done:
    Result<(), PluginError>)
    requires
        forall|i: int|
            0 <= i < old(enabled)@.len() ==> plugins@.contains_key(#[trigger] texts(old(enabled)@)[i]),
        texts(old(enabled)@).no_duplicates(),
    ensures
        (texts(final(enabled)@), fault_of(done)) == enable_one(
            plugins@,
            texts(old(enabled)@),
            name@,
            texts(old(active)@).to_set(),
        ),
        final(active)@ == old(active)@,
        texts(old(enabled)@).is_prefix_of(texts(final(enabled)@)),
        texts(final(enabled)@).no_duplicates(),
        forall|i: int|
            0 <= i < final(enabled)@.len() ==> plugins@.contains_key(
                #[trigger] texts(final(enabled)@)[i],
            ),
    decreases idle(plugins@, texts(old(active)@).to_set()),
{
    proof {
        use_type_invariant(plugins);
        lemma_pairing_domain(plugins.names(), plugins.items());
    }
    let at = match plugins.position(name) {
        None => {
            return Err(PluginError::NotFound { name: name.to_owned() });
        },
        Some(at) => at,
    };
    if holds_text(enabled, name) {
        return Ok(());
    }
    if holds_text(active, name) {
        return Err(PluginError::DependencyCycle { plugin: name.to_owned() });
    }
    let ghost outer = active@;
    let ghost before = enabled@;
    active.push(name.to_owned());
    proof {
        lemma_texts_push(outer, active@.last());
        lemma_push_to_set(texts(outer), name@);
        lemma_one_more_active(plugins@, texts(outer).to_set(), name@);
    }
    let wanted = &plugins.item_at(at).manifest.dependencies;
    let count = wanted.len();
    let mut k: usize = 0;
    let mut failed: Option<PluginError> = None;
    while k < count && failed.is_none()
        invariant
            k <= count,
            count == wanted.names().len(),
            wanted.distinct(),
            plugins@.dom().finite(),
            plugins@.contains_key(name@),
            outer == old(active)@,
            *wanted == plugins@[name@].manifest.dependencies,
            texts(active@) == texts(outer).push(name@),
            texts(active@).to_set() == texts(outer).to_set().insert(name@),
            active@.len() == outer.len() + 1,
            active@.take(outer.len() as int) == outer,
            idle(plugins@, texts(active@).to_set()) < idle(plugins@, texts(outer).to_set()),
            !texts(enabled@).contains(name@),
            texts(before).is_prefix_of(texts(enabled@)),
            texts(enabled@).no_duplicates(),
            forall|i: int|
                0 <= i < enabled@.len() ==> plugins@.contains_key(#[trigger] texts(enabled@)[i]),
            match failed {
                None => enable_deps(
                    plugins@,
                    texts(before),
                    name@,
                    0,
                    texts(active@).to_set(),
                ) == enable_deps(plugins@, texts(enabled@), name@, k as int, texts(active@).to_set()),
                Some(e) => enable_deps(
                    plugins@,
                    texts(before),
                    name@,
                    0,
                    texts(active@).to_set(),
                ) == (texts(enabled@), Some(e@)),
            },
        decreases count - k, (if failed is None { 1int } else { 0int }),
    {
        let dependency = wanted.name_at(k);
        let requirement = wanted.item_at(k);
        match plugins.get(dependency.as_str()) {
            None => {
                failed = Some(
                    PluginError::DependencyMissing {
                        plugin: name.to_owned(),
                        dependency: dependency.clone(),
                    },
                );
            },
            Some(needed) => {
                let found = check_compatibility(needed.manifest.version.as_str(), requirement.as_str());
                match dependency_verdict(
                    name,
                    dependency.as_str(),
                    requirement.as_str(),
                    needed.manifest.version.as_str(),
                    found,
                ) {
                    Err(e) => {
                        failed = Some(e);
                    },
                    Ok(()) => {
                        let ghost inside = active@;
                        let ghost so_far = enabled@;
                        let walked = walk(plugins, enabled, dependency.as_str(), active);
                        proof {
                            assert(texts(inside).to_set().contains(name@));
                            lemma_walk_appends_idle(
                                plugins@,
                                texts(so_far),
                                dependency@,
                                texts(inside).to_set(),
                                name@,
                            );
                        }
                        match walked {
                            Err(e) => {
                                failed = Some(e);
                            },
                            Ok(()) => {
                                k += 1;
                            },
                        }
                    },
                }
            },
        }
    }
    let _ = active.pop();
    proof {
        assert(active@ =~= outer);
    }
    match failed {
        Some(e) => Err(e),
        None => {
            let ghost walked = enabled@;
            enabled.push(name.to_owned());
            proof {
                lemma_texts_push(walked, enabled@.last());
                assert(texts(enabled@).no_duplicates()) by {
                    let list = texts(enabled@);
                    assert forall|i: int, j: int| 0 <= i < list.len() && 0 <= j < list.len() && i != j implies list[i]
                        != list[j] by {
                        if i < walked.len() && j < walked.len() {
                            assert(texts(walked)[i] != texts(walked)[j]);
                        } else if i < walked.len() {
                            assert(texts(walked).contains(texts(walked)[i]));
                        } else {
                            assert(texts(walked).contains(texts(walked)[j]));
                        }
                    }
                }
            }
            Ok(())
        },
    }
}

/// Sets the plugins named in `enabled` from position `from` on to enabled.
fn mark_enabled(plugins: &mut NameMap<Plugin>, enabled: &Vec<String>, from: usize)
    requires
        from <= enabled@.len(),
        forall|i: int|
            from <= i < enabled@.len() ==> old(plugins)@.contains_key(#[trigger] texts(enabled@)[i]),
    ensures
        final(plugins)@ == marked_enabled(old(plugins)@, texts(enabled@).skip(from as int)),
        final(plugins).names() == old(plugins).names(),
{
    let ghost start = plugins@;
    let mut k: usize = from;
    proof {
        assert(texts(enabled@).subrange(from as int, from as int) =~= Seq::<Seq<char>>::empty());
        assert(plugins@ =~= marked_enabled(start, Seq::<Seq<char>>::empty()));
    }
    while k < enabled.len()
        invariant
            from <= k <= enabled@.len(),
            forall|i: int| from <= i < enabled@.len() ==> start.contains_key(#[trigger] texts(enabled@)[i]),
            plugins@ == marked_enabled(start, texts(enabled@).subrange(from as int, k as int)),
            plugins.names() == old(plugins).names(),
        decreases enabled@.len() - k,
    {
        let ghost prior = plugins@;
        let ghost seen = texts(enabled@).subrange(from as int, k as int);
        let ghost name = texts(enabled@)[k as int];
        assert(prior.contains_key(name));
        match plugins.position(enabled[k].as_str()) {
            Some(at) => {
                let blank = Plugin::new(PluginManifest::new(""), String::new());
                let mut plugin = plugins.swap_item(at, blank);
                plugin.state = PluginState::Enabled;
                let _ = plugins.swap_item(at, plugin);
                proof {
                    let longer = texts(enabled@).subrange(from as int, k as int + 1);
                    assert(longer =~= seen.push(name));
                    assert forall|x: Seq<char>| longer.contains(x) <==> (seen.contains(x) || x == name) by {
                        if longer.contains(x) {
                            let j = choose|j: int| 0 <= j < longer.len() && longer[j] == x;
                            if j < seen.len() {
                                assert(seen[j] == x);
                            }
                        }
                        if seen.contains(x) {
                            let j = choose|j: int| 0 <= j < seen.len() && seen[j] == x;
                            assert(longer[j] == x);
                        }
                        if x == name {
                            assert(longer[seen.len() as int] == x);
                        }
                    }
                    assert(plugins@ =~= marked_enabled(start, longer));
                }
            },
            None => {},
        }
        k += 1;
    }
    proof {
        assert(texts(enabled@).subrange(from as int, enabled@.len() as int) =~= texts(enabled@).skip(
            from as int,
        ));
    }
}

/// Marks the positions of the enabled plugins that are `name` or depend on
/// it, directly or through other enabled plugins.
fn falling(plugins: &NameMap<Plugin>, enabled: &Vec<String>, name: &str) -> (flags: Vec<bool>)
    requires
        forall|i: int| 0 <= i < enabled@.len() ==> plugins@.contains_key(#[trigger] texts(enabled@)[i]),
    ensures
        flags@.len() == enabled@.len(),
        forall|i: int|
            0 <= i < flags@.len() ==> #[trigger] flags@[i] == rests_on(
                plugins@,
                texts(enabled@),
                texts(enabled@)[i],
                name@,
            ),
{
    let n = enabled.len();
    let ghost list = texts(enabled@);
    let mut flags: Vec<bool> = Vec::new();
    let mut k: usize = 0;
    while k < n
        invariant
            k <= n,
            n == enabled@.len(),
            list == texts(enabled@),
            flags@.len() == k,
            forall|i: int| 0 <= i < k ==> #[trigger] flags@[i] == (list[i] == name@),
        decreases n - k,
    {
        flags.push(str_eq(enabled[k].as_str(), name));
        k += 1;
    }
    proof {
        assert forall|i: int| 0 <= i < n && #[trigger] flags@[i] implies rests_on(
            plugins@,
            list,
            list[i],
            name@,
        ) by {
            let chain = seq![name@];
            assert(list.contains(list[i]));
            assert(is_chain(plugins@, list, chain));
        }
    }
    let mut changed = true;
    while changed
        invariant
            n == enabled@.len(),
            list == texts(enabled@),
            flags@.len() == n,
            forall|i: int| 0 <= i < n ==> plugins@.contains_key(#[trigger] list[i]),
            forall|i: int| 0 <= i < n && #[trigger] list[i] == name@ ==> flags@[i],
            forall|i: int| 0 <= i < n && #[trigger] flags@[i] ==> rests_on(plugins@, list, list[i], name@),
            !changed ==> closed(plugins@, list, flags@),
        decreases unmarked(flags@), (if changed { 1int } else { 0int }),
    {
        changed = false;
        let ghost at_start = flags@;
        let mut i: usize = 0;
        while i < n
            invariant
                i <= n,
                n == enabled@.len(),
                list == texts(enabled@),
                flags@.len() == n,
                forall|i: int| 0 <= i < n ==> plugins@.contains_key(#[trigger] list[i]),
                forall|i: int| 0 <= i < n && #[trigger] list[i] == name@ ==> flags@[i],
                forall|i: int|
                    0 <= i < n && #[trigger] flags@[i] ==> rests_on(plugins@, list, list[i], name@),
                !changed ==> flags@ == at_start,
                !changed ==> forall|a: int, b: int|
                    0 <= a < i && 0 <= b < n && !#[trigger] flags@[a] && #[trigger] flags@[b] ==> !needs(
                        plugins@,
                        list[a],
                        list[b],
                    ),
                changed ==> unmarked(flags@) < unmarked(at_start),
            decreases n - i,
        {
            if !flags[i] {
                assert(plugins@.contains_key(list[i as int]));
                match plugins.get(enabled[i].as_str()) {
                    Some(plugin) => {
                        let mut j: usize = 0;
                        let mut hit = false;
                        while j < n && !hit
                            invariant
                                j <= n,
                                n == enabled@.len(),
                                list == texts(enabled@),
                                flags@.len() == n,
                                i < n,
                                *plugin == plugins@[list[i as int]],
                                plugins@.contains_key(list[i as int]),
                                forall|b: int|
                                    0 <= b < j && #[trigger] flags@[b] ==> !needs(
                                        plugins@,
                                        list[i as int],
                                        list[b],
                                    ),
                                hit ==> j < n && flags@[j as int] && needs(
                                    plugins@,
                                    list[i as int],
                                    list[j as int],
                                ),
                            decreases n - j, (if hit { 0int } else { 1int }),
                        {
                            if flags[j] && plugin.manifest.dependencies.contains_key(enabled[j].as_str()) {
                                hit = true;
                            } else {
                                j += 1;
                            }
                        }
                        if hit {
                            let ghost unset = flags@;
                            flags.set(i, true);
                            changed = true;
                            proof {
                                lemma_mark_one(unset, i as int);
                                let below = choose|chain: Seq<Seq<char>>| #[trigger]
                                    is_chain(plugins@, list, chain) && chain.first() == list[j as int]
                                        && chain.last() == name@;
                                let chain = seq![list[i as int]] + below;
                                assert(list.contains(list[i as int]));
                                assert forall|t: int| 0 <= t < chain.len() implies list.contains(
                                    #[trigger] chain[t],
                                ) by {
                                    if t > 0 {
                                        assert(chain[t] == below[t - 1]);
                                    }
                                }
                                assert forall|t: int| 0 <= t < chain.len() - 1 implies needs(
                                    plugins@,
                                    #[trigger] chain[t],
                                    chain[t + 1],
                                ) by {
                                    if t > 0 {
                                        assert(chain[t] == below[t - 1]);
                                        assert(chain[t + 1] == below[t - 1 + 1]);
                                        assert(needs(plugins@, below[t - 1], below[t - 1 + 1]));
                                    } else {
                                        assert(chain[1] == below[0]);
                                    }
                                }
                                assert(is_chain(plugins@, list, chain));
                                assert(chain.first() == list[i as int]);
                                assert(chain.last() == below.last());
                            }
                        }
                    },
                    None => {},
                }
            }
            i += 1;
        }
    }
    proof {
        assert forall|i: int| 0 <= i < n && rests_on(plugins@, list, list[i], name@) implies #[trigger] flags@[i] by {
            let chain = choose|chain: Seq<Seq<char>>| #[trigger]
                is_chain(plugins@, list, chain) && chain.first() == list[i] && chain.last() == name@;
            lemma_closed_covers(plugins@, list, flags@, name@, chain);
        }
    }
    flags
}

/// Sets the plugins at the marked positions of `enabled` to installed.
fn sink(plugins: &mut NameMap<Plugin>, enabled: &Vec<String>, flags: &Vec<bool>)
    requires
        flags@.len() == enabled@.len(),
        forall|i: int|
            0 <= i < enabled@.len() ==> old(plugins)@.contains_key(#[trigger] texts(enabled@)[i]),
    ensures
        final(plugins)@ == sunk(old(plugins)@, texts(enabled@), flags@, enabled@.len() as int),
        final(plugins).names() == old(plugins).names(),
{
    let ghost start = plugins@;
    let ghost list = texts(enabled@);
    let mut k: usize = 0;
    proof {
        assert(plugins@ =~= sunk(start, list, flags@, 0));
    }
    while k < enabled.len()
        invariant
            k <= enabled@.len(),
            list == texts(enabled@),
            flags@.len() == enabled@.len(),
            forall|i: int| 0 <= i < enabled@.len() ==> start.contains_key(#[trigger] list[i]),
            plugins@ == sunk(start, list, flags@, k as int),
            plugins.names() == old(plugins).names(),
        decreases enabled@.len() - k,
    {
        let ghost prior = plugins@;
        assert(start.contains_key(list[k as int]));
        if flags[k] {
            match plugins.position(enabled[k].as_str()) {
                Some(at) => {
                    let blank = Plugin::new(PluginManifest::new(""), String::new());
                    let mut plugin = plugins.swap_item(at, blank);
                    plugin.state = PluginState::Installed;
                    let _ = plugins.swap_item(at, plugin);
                },
                None => {},
            }
        }
        proof {
            assert(plugins@ =~= sunk(start, list, flags@, k as int + 1)) by {
                assert forall|x: Seq<char>| start.contains_key(x) implies #[trigger] plugins@[x] == sunk(
                    start,
                    list,
                    flags@,
                    k as int + 1,
                )[x] by {
                    let before = exists|i: int| 0 <= i < k && #[trigger] list[i] == x && flags@[i];
                    let after = exists|i: int| 0 <= i < k + 1 && #[trigger] list[i] == x && flags@[i];
                    if before {
                        let i = choose|i: int| 0 <= i < k && #[trigger] list[i] == x && flags@[i];
                        assert(0 <= i < k + 1 && list[i] == x && flags@[i]);
                    }
                    if x == list[k as int] && flags@[k as int] {
                        assert(0 <= k < k + 1 && list[k as int] == x && flags@[k as int]);
                    }
                    if after && !before {
                        let i = choose|i: int| 0 <= i < k + 1 && #[trigger] list[i] == x && flags@[i];
                        assert(i == k);
                    }
                }
            }
        }
        k += 1;
    }
}

/// The enabled names without those at marked positions.
fn keep_unmarked(
    enabled: Vec<String>,
    flags: &Vec<bool>,
    Ghost(plugins): Ghost<Map<Seq<char>, Plugin>>,
    Ghost(name): Ghost<Seq<char>>,
) -> (kept: Vec<String>)
    requires
        flags@.len() == enabled@.len(),
        forall|i: int|
            0 <= i < flags@.len() ==> #[trigger] flags@[i] == rests_on(
                plugins,
                texts(enabled@),
                texts(enabled@)[i],
                name,
            ),
    ensures
        texts(kept@) == survivors(plugins, texts(enabled@), name, enabled@.len() as int),
{
    let ghost list = texts(enabled@);
    let ghost all = enabled@;
    let n = enabled.len();
    let mut kept: Vec<String> = Vec::new();
    let mut k: usize = 0;
    proof {
        assert(texts(kept@) =~= survivors(plugins, list, name, 0));
    }
    for entry in it: enabled
        invariant
            it.seq() == all,
            list == texts(all),
            n == all.len(),
            k == it.index(),
            flags@.len() == n,
            forall|i: int|
                0 <= i < n ==> #[trigger] flags@[i] == rests_on(plugins, list, list[i], name),
            texts(kept@) == survivors(plugins, list, name, k as int),
    {
        assert(entry@ == list[k as int]);
        if !flags[k] {
            let ghost before = kept@;
            kept.push(entry);
            proof {
                lemma_texts_push(before, kept@.last());
            }
        }
        k += 1;
    }
    kept
}

impl PluginManager {
    /// The plugins and the enabled names.
    pub closed spec fn view(self) -> Registry {
        Registry { plugins: self.plugins@, enabled: texts(self.enabled_plugins@) }
    }

    /// The directories in which the loader of this manager searches.
    pub closed spec fn search_dirs(self) -> Seq<Seq<char>> {
        self.loader@
    }

    /// The names of the known plugins in the order in which they became
    /// known.
    pub closed spec fn known_names(self) -> Seq<Seq<char>> {
        self.plugins.names()
    }

    /// What holds of every manager: its registry is well formed.
    #[verifier::type_invariant]
    pub open spec fn valid(self) -> bool {
        self@.wf()
    }

    /// A manager that knows no plugin and whose loader has the given search
    /// order.
    pub fn with_loader(loader: PluginLoader) -> (manager: Self)
        ensures
            manager@.plugins == Map::<Seq<char>, Plugin>::empty(),
            manager@.enabled == Seq::<Seq<char>>::empty(),
            manager.search_dirs() == loader@,
    {
        let manager = PluginManager { loader, plugins: NameMap::new(), enabled_plugins: Vec::new() };
        proof {
            assert(manager@.enabled =~= Seq::<Seq<char>>::empty());
        }
        manager
    }

    /// A manager that knows no plugin yet and searches the standard
    /// directories of a user with the given configuration and data
    /// directories.
    pub fn new(config_dir: Option<&str>, data_dir: Option<&str>) -> (manager: Self)
        ensures
            manager@.plugins == Map::<Seq<char>, Plugin>::empty(),
            manager@.enabled == Seq::<Seq<char>>::empty(),
            manager.search_dirs() == standard_dirs(
                config_dir,
                data_dir,
                "hyprsupreme/plugins"@,
                "./plugins"@,
            ),
    {
        PluginManager::with_loader(PluginLoader::standard(config_dir, data_dir))
    }

    /// The loader of this manager.
    pub fn loader(&self) -> (loader: &PluginLoader)
        ensures
            loader@ == self.search_dirs(),
    {
        &self.loader
    }

    /// Adds a directory at the end of the loader's search order.
    pub fn add_plugin_dir(&mut self, path: &str)
        ensures
            final(self)@ == old(self)@,
            final(self).search_dirs() == old(self).search_dirs().push(path@),
    {
        proof {
            use_type_invariant(&*self);
        }
        let mut loader = PluginLoader::new();
        std::mem::swap(&mut loader, &mut self.loader);
        loader.add_plugin_dir(path);
        self.loader = loader;
    }

    /// The plugin of a name, if it is known.
    pub fn get_plugin(&self, name: &str) -> (found: Option<&Plugin>)
        ensures
            match found {
                Some(plugin) => self@.plugins.contains_key(name@) && *plugin == self@.plugins[name@],
                None => !self@.plugins.contains_key(name@),
            },
    {
        self.plugins.get(name)
    }

    /// The names of the known plugins, each once, in the order in which they
    /// became known.
    pub fn get_plugins(&self) -> (names: Vec<String>)
        ensures
            texts(names@) == self.known_names(),
            texts(names@).no_duplicates(),
            texts(names@).to_set() == self@.plugins.dom(),
    {
        proof {
            use_type_invariant(&self.plugins);
            lemma_pairing_domain(self.plugins.names(), self.plugins.items());
        }
        self.plugins.keys()
    }

    /// The known plugins, in the order in which they became known.
    pub fn get_all_plugins(&self) -> (all: Vec<&Plugin>)
        ensures
            all@.len() == self.known_names().len(),
            all@.len() == self@.plugins.len(),
            forall|i: int|
                0 <= i < all@.len() ==> self@.plugins.contains_key(self.known_names()[i])
                    && *#[trigger] all@[i] == self@.plugins[self.known_names()[i]],
    {
        let n = self.plugins.len();
        let mut all: Vec<&Plugin> = Vec::new();
        let mut k: usize = 0;
        while k < n
            invariant
                k <= n,
                n == self.plugins.names().len(),
                all@.len() == k,
                forall|i: int|
                    0 <= i < k ==> self.plugins@.contains_key(self.plugins.names()[i])
                        && *#[trigger] all@[i] == self.plugins@[self.plugins.names()[i]],
            decreases n - k,
        {
            all.push(self.plugins.item_at(k));
            k += 1;
        }
        all
    }

    /// The enabled plugins, in the order in which they were enabled.
    pub fn get_enabled_plugins(&self) -> (all: Vec<&Plugin>)
        ensures
            all@.len() == self@.enabled.len(),
            forall|i: int|
                0 <= i < all@.len() ==> self@.plugins.contains_key(self@.enabled[i])
                    && *#[trigger] all@[i] == self@.plugins[self@.enabled[i]],
    {
        proof {
            use_type_invariant(self);
        }
        let mut all: Vec<&Plugin> = Vec::new();
        let mut k: usize = 0;
        while k < self.enabled_plugins.len()
            invariant
                k <= self.enabled_plugins@.len(),
                self@.wf(),
                all@.len() == k,
                forall|i: int|
                    0 <= i < k ==> self@.plugins.contains_key(self@.enabled[i]) && *#[trigger] all@[i]
                        == self@.plugins[self@.enabled[i]],
            decreases self.enabled_plugins@.len() - k,
        {
            assert(self@.plugins.contains_key(self@.enabled[k as int]));
            match self.plugins.get(self.enabled_plugins[k].as_str()) {
                Some(plugin) => {
                    all.push(plugin);
                },
                None => {},
            }
            k += 1;
        }
        all
    }

    /// Whether the plugin of this name is enabled.
    pub fn is_enabled(&self, name: &str) -> (yes: bool)
        ensures
            yes == self@.enabled.contains(name@),
    {
        holds_text(&self.enabled_plugins, name)
    }

    /// Enables a plugin, and before it the plugins that it depends on.
    ///
    /// An unknown name is an error, an enabled plugin is left alone. Each
    /// dependency has to be known and to have a version that meets the
    /// requirement; then it is enabled in the same way. A plugin that is
    /// reached again while its own dependencies are being enabled is
    /// a dependency cycle. Plugins that were enabled before an error stay
    /// enabled.
    pub fn enable_plugin(&mut self, name: &str) -> (done: Result<(), PluginError>)
        ensures
            (final(self)@, fault_of(done)) == old(self)@.enable(name@),
            final(self).search_dirs() == old(self).search_dirs(),
            final(self).known_names() == old(self).known_names(),
    {
        proof {
            use_type_invariant(&*self);
        }
        let mut enabled: Vec<String> = Vec::new();
        std::mem::swap(&mut enabled, &mut self.enabled_plugins);
        let mut plugins: NameMap<Plugin> = NameMap::new();
        std::mem::swap(&mut plugins, &mut self.plugins);
        let ghost start = plugins@;
        let ghost listed = texts(enabled@);
        let before = enabled.len();
        let mut active: Vec<String> = Vec::new();
        proof {
            assert(texts(active@).to_set() =~= Set::<Seq<char>>::empty());
        }
        let done = walk(&plugins, &mut enabled, name, &mut active);
        mark_enabled(&mut plugins, &enabled, before);
        proof {
            let after = texts(enabled@);
            let added = after.skip(before as int);
            assert(plugins@.dom() =~= start.dom());
            assert forall|i: int| 0 <= i < after.len() implies plugins@.contains_key(#[trigger] after[i])
                && plugins@[after[i]].state is Enabled by {
                if i < before {
                    assert(after[i] == listed[i]);
                } else {
                    assert(added[i - before] == after[i]);
                    assert(added.contains(after[i]));
                }
            }
        }
        self.plugins = plugins;
        self.enabled_plugins = enabled;
        done
    }

    /// Disables a plugin, and with it every enabled plugin that depends on
    /// it, directly or through other enabled plugins.
    ///
    /// An unknown name is an error, and a plugin that is not enabled is left
    /// alone.
    pub fn disable_plugin(&mut self, name: &str) -> (done: Result<(), PluginError>)
        ensures
            match done {
                Ok(()) => old(self)@.plugins.contains_key(name@) && final(self)@ == old(self)@.disable(
                    name@,
                ),
                Err(e) => !old(self)@.plugins.contains_key(name@) && final(self)@ == old(self)@ && e@
                    == (Fault::NotFound { name: name@ }),
            },
            final(self).search_dirs() == old(self).search_dirs(),
            final(self).known_names() == old(self).known_names(),
    {
        proof {
            use_type_invariant(&*self);
        }
        if !self.plugins.contains_key(name) {
            return Err(PluginError::NotFound { name: name.to_owned() });
        }
        let mut enabled: Vec<String> = Vec::new();
        std::mem::swap(&mut enabled, &mut self.enabled_plugins);
        let mut plugins: NameMap<Plugin> = NameMap::new();
        std::mem::swap(&mut plugins, &mut self.plugins);
        let ghost start = plugins@;
        let ghost list = texts(enabled@);
        let flags = falling(&plugins, &enabled, name);
        sink(&mut plugins, &enabled, &flags);
        let kept = keep_unmarked(enabled, &flags, Ghost(start), Ghost(name@));
        proof {
            lemma_survivors(start, list, name@, list.len() as int);
            assert(list.take(list.len() as int) =~= list);
            assert(plugins@.dom() =~= start.dom());
            assert forall|x: Seq<char>| start.contains_key(x) implies (rests_on(start, list, x, name@) <==> (
            exists|i: int| 0 <= i < list.len() && #[trigger] list[i] == x && flags@[i])) by {
                if rests_on(start, list, x, name@) {
                    lemma_rests_on_enabled(start, list, x, name@);
                    let i = choose|i: int| 0 <= i < list.len() && list[i] == x;
                    assert(flags@[i]);
                }
            }
            assert(plugins@ =~= old(self)@.disable(name@).plugins);
            assert forall|i: int| 0 <= i < kept@.len() implies plugins@.contains_key(
                #[trigger] texts(kept@)[i],
            ) && plugins@[texts(kept@)[i]].state is Enabled by {
                let x = texts(kept@)[i];
                assert(texts(kept@).contains(x));
                assert(list.contains(x));
                let j = choose|j: int| 0 <= j < list.len() && list[j] == x;
                assert(start.contains_key(list[j]));
            }
        }
        self.plugins = plugins;
        self.enabled_plugins = kept;
        Ok(())
    }

    /// Prepares the call of a command of a plugin. The plugin has to be
    /// known and enabled, and has to declare the command.
    pub fn execute_command(&self, plugin_name: &str, command_name: &str) -> (call: Result<
        ScriptCall,
        PluginError,
    >)
        ensures
            match call {
                Ok(script) => self@.command_fault(plugin_name@, command_name@) is None
                    && script.working_dir@ == self@.plugins[plugin_name@].directory@ && script.program@
                    == joined(
                    self@.plugins[plugin_name@].directory@,
                    self@.plugins[plugin_name@].manifest.commands@[command_position(
                        self@.plugins[plugin_name@].manifest.commands@,
                        command_name@,
                        0,
                    )].script@,
                ),
                Err(e) => self@.command_fault(plugin_name@, command_name@) == Some(e@),
            },
    {
        match self.plugins.get(plugin_name) {
            None => Err(PluginError::NotFound { name: plugin_name.to_owned() }),
            Some(plugin) => {
                if !holds_text(&self.enabled_plugins, plugin_name) {
                    Err(PluginError::NotEnabled { name: plugin_name.to_owned() })
                } else {
                    plugin.execute_command(command_name)
                }
            },
        }
    }

    /// Prepares the dispatch of a hook: one call for each enabled plugin
    /// that declares the hook, in ascending order of the priority number of
    /// its hook. Plugins of equal priority come in the order in which they
    /// were enabled.
    pub fn execute_hook(&self, hook_name: &str) -> (calls: Vec<HookCall>)
        ensures
            slots(calls@) == dispatch_order(
                self@.plugins,
                self@.enabled,
                hook_name@,
                self@.enabled.len() as int,
            ),
            ascending(slots(calls@)),
            forall|i: int, j: int|
                0 <= i < j < calls@.len() ==> (#[trigger] calls@[i]).priority <= (
                #[trigger] calls@[j]).priority,
            forall|i: int| 0 <= i < calls@.len() ==> self@.calls_hook(hook_name@, #[trigger] calls@[i]),
    {
        proof {
            use_type_invariant(self);
        }
        let mut calls: Vec<HookCall> = Vec::new();
        let mut k: usize = 0;
        proof {
            assert(slots(calls@) =~= dispatch_order(self@.plugins, self@.enabled, hook_name@, 0));
        }
        while k < self.enabled_plugins.len()
            invariant
                k <= self.enabled_plugins@.len(),
                self@.wf(),
                slots(calls@) == dispatch_order(self@.plugins, self@.enabled, hook_name@, k as int),
                forall|i: int| 0 <= i < calls@.len() ==> self@.calls_hook(hook_name@, #[trigger] calls@[i]),
            decreases self.enabled_plugins@.len() - k,
        {
            let name = &self.enabled_plugins[k];
            assert(self@.plugins.contains_key(self@.enabled[k as int]));
            match self.plugins.get(name.as_str()) {
                Some(plugin) => {
                    match plugin.manifest.find_hook(hook_name) {
                        Some(hook) => {
                            let call = HookCall {
                                plugin: name.clone(),
                                priority: hook.priority,
                                script: ScriptCall {
                                    program: join_path(plugin.directory.as_str(), hook.script.as_str()),
                                    working_dir: plugin.directory.clone(),
                                },
                            };
                            let ghost before = calls@;
                            let at = place_call(&mut calls, call);
                            proof {
                                assert forall|i: int| 0 <= i < calls@.len() implies self@.calls_hook(
                                    hook_name@,
                                    #[trigger] calls@[i],
                                ) by {
                                    if i < at {
                                        assert(calls@[i] == before[i]);
                                    } else if i > at {
                                        assert(calls@[i] == before[i - 1]);
                                    }
                                }
                            }
                        },
                        None => {},
                    }
                },
                None => {},
            }
            k += 1;
        }
        proof {
            lemma_dispatch_order(self@.plugins, self@.enabled, hook_name@, self@.enabled.len() as int);
            assert forall|i: int, j: int| 0 <= i < j < calls@.len() implies (#[trigger] calls@[i]).priority
                <= (#[trigger] calls@[j]).priority by {
                assert(slots(calls@)[i].1 <= slots(calls@)[j].1);
            }
        }
        calls
    }

    /// The last step of an installation, from what came of the copy: after
    /// the files of the plugin were copied, the plugin is made known in the
    /// installed state, with the directory it was copied to. Where a plugin
    /// of that name was enabled, it is disabled first, and with it what
    /// depends on it. A copy that failed is an error and changes nothing.
    pub fn install_plugin(&mut self, job: InstallCopy, copied: Result<(), String>) -> (done: Result<
        (),
        PluginError,
    >)
        ensures
            match done {
                Ok(()) => copied is Ok && final(self)@ == registered(
                    old(self)@.disable(job.manifest.name@),
                    Plugin {
                        manifest: job.manifest,
                        directory: job.to,
                        state: PluginState::Installed,
                    },
                ),
                Err(e) => copied matches Err(reason) && e@ == (Fault::Io { message: reason@ })
                    && final(self)@ == old(self)@,
            },
            final(self).search_dirs() == old(self).search_dirs(),
    {
        match copied {
            Ok(()) => {
                self.register_plugin(Plugin::new(job.manifest, job.to));
                Ok(())
            },
            Err(reason) => Err(PluginError::Io { message: reason }),
        }
    }

    /// Begins the removal of a plugin: disables it, and with it what
    /// depends on it, and names the directory that is to be deleted.
    pub fn uninstall_plugin(&mut self, name: &str) -> (directory: Result<String, PluginError>)
        ensures
            match directory {
                Ok(path) => old(self)@.plugins.contains_key(name@) && final(self)@ == old(
                    self,
                )@.disable(name@) && path@ == old(self)@.plugins[name@].directory@,
                Err(e) => !old(self)@.plugins.contains_key(name@) && final(self)@ == old(self)@ && e@
                    == (Fault::NotFound { name: name@ }),
            },
            final(self).search_dirs() == old(self).search_dirs(),
    {
        let path = match self.plugins.get(name) {
            Some(plugin) => plugin.directory.clone(),
            None => {
                return Err(PluginError::NotFound { name: name.to_owned() });
            },
        };
        match self.disable_plugin(name) {
            Ok(()) => Ok(path),
            Err(e) => Err(e),
        }
    }

    /// Ends the removal of a plugin: after its directory was deleted, the
    /// plugin is forgotten. A deletion that failed is an error and changes
    /// nothing; so is a name that is not known.
    pub fn forget_plugin(&mut self, name: &str, removed: Result<(), String>) -> (done: Result<(), PluginError>)
        ensures
            match done {
                Ok(()) => removed is Ok && old(self)@.plugins.contains_key(name@) && final(self)@
                    == old(self)@.forget(name@),
                Err(e) => final(self)@ == old(self)@ && match removed {
                    Err(reason) => e@ == (Fault::Io { message: reason@ }),
                    Ok(()) => !old(self)@.plugins.contains_key(name@) && e@ == (Fault::NotFound {
                        name: name@,
                    }),
                },
            },
            final(self).search_dirs() == old(self).search_dirs(),
    {
        proof {
            use_type_invariant(&*self);
        }
        match removed {
            Err(reason) => {
                return Err(PluginError::Io { message: reason });
            },
            Ok(()) => {},
        }
        match self.disable_plugin(name) {
            Err(e) => {
                return Err(e);
            },
            Ok(()) => {},
        }
        proof {
            use_type_invariant(&*self);
            lemma_survivors(
                old(self)@.plugins,
                old(self)@.enabled,
                name@,
                old(self)@.enabled.len() as int,
            );
        }
        let mut enabled: Vec<String> = Vec::new();
        std::mem::swap(&mut enabled, &mut self.enabled_plugins);
        let mut plugins: NameMap<Plugin> = NameMap::new();
        std::mem::swap(&mut plugins, &mut self.plugins);
        let ghost held = plugins@;
        let _ = plugins.remove(name);
        proof {
            lemma_pairing_domain(plugins.names(), plugins.items());
            assert(!texts(enabled@).contains(name@)) by {
                if texts(enabled@).contains(name@) {
                    let list = old(self)@.enabled;
                    assert(list.take(list.len() as int) =~= list);
                    assert(list.contains(name@));
                    assert(is_chain(old(self)@.plugins, list, seq![name@]));
                    assert(rests_on(old(self)@.plugins, list, name@, name@));
                }
            }
            assert forall|i: int| 0 <= i < enabled@.len() implies plugins@.contains_key(
                #[trigger] texts(enabled@)[i],
            ) && plugins@[texts(enabled@)[i]].state is Enabled by {
                assert(held.contains_key(texts(enabled@)[i]));
                assert(texts(enabled@).contains(texts(enabled@)[i]));
            }
        }
        self.plugins = plugins;
        self.enabled_plugins = enabled;
        Ok(())
    }

    /// Makes a plugin known under the name of its manifest, in the state it
    /// comes in. Where a plugin of that name is enabled, it is disabled
    /// first, and with it what depends on it; then the new plugin takes its
    /// place.
    pub fn register_plugin(&mut self, plugin: Plugin)
        ensures
            final(self)@ == replaced(old(self)@, plugin),
            final(self).search_dirs() == old(self).search_dirs(),
    {
        proof {
            use_type_invariant(&*self);
        }
        if holds_text(&self.enabled_plugins, plugin.manifest.name.as_str()) {
            let _ = self.disable_plugin(plugin.manifest.name.as_str());
        } else {
            proof {
                lemma_disable_idle(self@, plugin.manifest.name@);
            }
        }
        proof {
            use_type_invariant(&*self);
            lemma_disabled_not_enabled(old(self)@, plugin.manifest.name@);
        }
        let mut enabled: Vec<String> = Vec::new();
        std::mem::swap(&mut enabled, &mut self.enabled_plugins);
        let mut plugins: NameMap<Plugin> = NameMap::new();
        std::mem::swap(&mut plugins, &mut self.plugins);
        let ghost held = plugins@;
        let name = plugin.manifest.name.clone();
        plugins.insert(name, plugin);
        proof {
            lemma_pairing_domain(plugins.names(), plugins.items());
            assert forall|i: int| 0 <= i < enabled@.len() implies plugins@.contains_key(
                #[trigger] texts(enabled@)[i],
            ) && plugins@[texts(enabled@)[i]].state is Enabled by {
                assert(held.contains_key(texts(enabled@)[i]));
                assert(texts(enabled@).contains(texts(enabled@)[i]));
            }
        }
        self.plugins = plugins;
        self.enabled_plugins = enabled;
    }

    /// Records that a plugin has failed, as its host found: the plugin is
    /// disabled, and with it what depends on it, and its state becomes the
    /// error with the given message. An unknown name is an error.
    pub fn set_plugin_error(&mut self, name: &str, message: String) -> (done: Result<(), PluginError>)
        ensures
            match done {
                Ok(()) => old(self)@.plugins.contains_key(name@) && final(self)@ == old(self)@.failed(
                    name@,
                    message,
                ),
                Err(e) => !old(self)@.plugins.contains_key(name@) && final(self)@ == old(self)@ && e@
                    == (Fault::NotFound { name: name@ }),
            },
            final(self).search_dirs() == old(self).search_dirs(),
    {
        proof {
            use_type_invariant(&*self);
        }
        match self.disable_plugin(name) {
            Err(e) => {
                return Err(e);
            },
            Ok(()) => {},
        }
        proof {
            use_type_invariant(&*self);
            lemma_disabled_not_enabled(old(self)@, name@);
        }
        let mut enabled: Vec<String> = Vec::new();
        std::mem::swap(&mut enabled, &mut self.enabled_plugins);
        let mut plugins: NameMap<Plugin> = NameMap::new();
        std::mem::swap(&mut plugins, &mut self.plugins);
        let ghost held = plugins@;
        match plugins.position(name) {
            Some(at) => {
                let blank = Plugin::new(PluginManifest::new(""), String::new());
                let mut plugin = plugins.swap_item(at, blank);
                plugin.state = PluginState::Error(message);
                let _ = plugins.swap_item(at, plugin);
            },
            None => {},
        }
        proof {
            lemma_pairing_domain(plugins.names(), plugins.items());
            assert(plugins@ =~= old(self)@.failed(name@, message).plugins);
            assert forall|i: int| 0 <= i < enabled@.len() implies plugins@.contains_key(
                #[trigger] texts(enabled@)[i],
            ) && plugins@[texts(enabled@)[i]].state is Enabled by {
                assert(held.contains_key(texts(enabled@)[i]));
                assert(texts(enabled@).contains(texts(enabled@)[i]));
            }
        }
        self.plugins = plugins;
        self.enabled_plugins = enabled;
        Ok(())
    }

    /// Makes the plugins that discovery found known, one after the other.
    pub fn initialize(&mut self, discovered: Vec<Plugin>)
        ensures
            final(self)@ == registered_all(old(self)@, discovered@, discovered@.len() as int),
            final(self).search_dirs() == old(self).search_dirs(),
    {
        let ghost all = discovered@;
        for plugin in it: discovered
            invariant
                it.seq() == all,
                self@ == registered_all(old(self)@, all, it.index() as int),
                self.search_dirs() == old(self).search_dirs(),
        {
            self.register_plugin(plugin);
        }
    }
}

impl Default for PluginManager {
    /// A manager that knows no plugin and searches nowhere.
    fn default() -> (manager: Self)
        ensures
            manager@.plugins == Map::<Seq<char>, Plugin>::empty(),
            manager@.enabled == Seq::<Seq<char>>::empty(),
            manager.search_dirs() == Seq::<Seq<char>>::empty(),
    {
        PluginManager::with_loader(PluginLoader::new())
    }
}

} // verus!
