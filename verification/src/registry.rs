use vstd::prelude::*;
use crate::dispatch::HookCall;
use crate::paths::joined;
use crate::plugin::{dependency_fault, hook_position, Fault, Plugin, PluginError, PluginState};
use crate::version::compatibility;

verus! {

/// What a plugin manager knows: the plugins by name, and the names of the
/// enabled ones in the order in which they were enabled.
#[verifier::ext_equal]
pub struct Registry {
    pub plugins: Map<Seq<char>, Plugin>,
    pub enabled: Seq<Seq<char>>,
}

/// The error of a result, if it is one.
pub open spec fn fault_of<T>(result: Result<T, PluginError>) -> Option<Fault> {
    match result {
        Ok(_) => None,
        Err(e) => Some(e@),
    }
}

/// `plugin` with its state set to enabled.
pub open spec fn as_enabled(plugin: Plugin) -> Plugin {
    Plugin { manifest: plugin.manifest, directory: plugin.directory, state: PluginState::Enabled }
}

/// `plugin` with its state set to installed.
pub open spec fn as_installed(plugin: Plugin) -> Plugin {
    Plugin { manifest: plugin.manifest, directory: plugin.directory, state: PluginState::Installed }
}

/// The plugins with those named in `names` set to enabled.
pub open spec fn marked_enabled(
    plugins: Map<Seq<char>, Plugin>,
    names: Seq<Seq<char>>,
) -> Map<Seq<char>, Plugin> {
    Map::new(
        |k: Seq<char>| plugins.contains_key(k),
        |k: Seq<char>|
            if names.contains(k) {
                as_enabled(plugins[k])
            } else {
                plugins[k]
            },
    )
}

/// How many known plugins are not being enabled at the moment.
pub open spec fn idle(plugins: Map<Seq<char>, Plugin>, active: Set<Seq<char>>) -> nat {
    plugins.dom().difference(active).len()
}

/// Enabling one plugin: the list of enabled names afterwards, and the error
/// if it failed.
///
/// A plugin that is enabled already is left alone. Otherwise its
/// dependencies are enabled first, in the order of its manifest, and then
/// its own name is appended. `active` holds the plugins whose dependencies
/// are being enabled at the moment; to come back to one of them is a cycle.
/// What was appended before a failure stays.
pub open spec fn enable_one(
    plugins: Map<Seq<char>, Plugin>,
    enabled: Seq<Seq<char>>,
    name: Seq<char>,
    active: Set<Seq<char>>,
) -> (Seq<Seq<char>>, Option<Fault>)
    decreases idle(plugins, active), 0nat, 0nat,
    when plugins.dom().finite()
    via enable_one_decreases
{
    if !plugins.contains_key(name) {
        (enabled, Some(Fault::NotFound { name }))
    } else if enabled.contains(name) {
        (enabled, None)
    } else if active.contains(name) {
        (enabled, Some(Fault::DependencyCycle { plugin: name }))
    } else {
        let walked = enable_deps(plugins, enabled, name, 0, active.insert(name));
        if walked.1 is Some {
            walked
        } else {
            (walked.0.push(name), None)
        }
    }
}

/// Enabling the dependencies of `owner` from position `from` on.
///
/// A dependency has to be known and to have a version that meets the
/// requirement, whether it is enabled already or not; then it is enabled.
/// The first dependency that fails ends the walk.
pub open spec fn enable_deps(
    plugins: Map<Seq<char>, Plugin>,
    enabled: Seq<Seq<char>>,
    owner: Seq<char>,
    from: int,
    active: Set<Seq<char>>,
) -> (Seq<Seq<char>>, Option<Fault>)
    decreases idle(plugins, active), 1nat, plugins[owner].manifest.dependencies.names().len() - from,
    when plugins.dom().finite()
    via enable_deps_decreases
{
    let wanted = plugins[owner].manifest.dependencies;
    if from < 0 || from >= wanted.names().len() {
        (enabled, None)
    } else {
        let dependency = wanted.names()[from];
        let requirement = wanted.items()[from]@;
        if !plugins.contains_key(dependency) {
            (enabled, Some(Fault::DependencyMissing { plugin: owner, dependency }))
        } else {
            let version = plugins[dependency].manifest.version@;
            let fault = dependency_fault(
                owner,
                dependency,
                requirement,
                version,
                compatibility(version, requirement),
            );
            if fault is Some {
                (enabled, fault)
            } else {
                let inner = enable_one(plugins, enabled, dependency, active);
                if inner.1 is Some {
                    inner
                } else {
                    enable_deps(plugins, inner.0, owner, from + 1, active)
                }
            }
        }
    }
}

/// One more active plugin leaves one idle plugin fewer.
pub proof fn lemma_one_more_active(
    plugins: Map<Seq<char>, Plugin>,
    active: Set<Seq<char>>,
    name: Seq<char>,
)
    requires
        plugins.dom().finite(),
        plugins.contains_key(name),
        !active.contains(name),
    ensures
        idle(plugins, active.insert(name)) < idle(plugins, active),
{
    let left = plugins.dom().difference(active);
    assert(left.contains(name));
    assert(plugins.dom().difference(active.insert(name)) =~= left.remove(name));
}

#[via_fn]
proof fn enable_one_decreases(
    plugins: Map<Seq<char>, Plugin>,
    enabled: Seq<Seq<char>>,
    name: Seq<char>,
    active: Set<Seq<char>>,
) {
    if plugins.contains_key(name) && !active.contains(name) {
        lemma_one_more_active(plugins, active, name);
    }
}

#[via_fn]
proof fn enable_deps_decreases(
    plugins: Map<Seq<char>, Plugin>,
    enabled: Seq<Seq<char>>,
    owner: Seq<char>,
    from: int,
    active: Set<Seq<char>>,
) {
}

/// The plugin `dependent` names `needed` among its dependencies.
pub open spec fn needs(plugins: Map<Seq<char>, Plugin>, dependent: Seq<char>, needed: Seq<char>) -> bool {
    plugins.contains_key(dependent) && plugins[dependent].manifest.dependencies@.contains_key(needed)
}

/// A chain of enabled plugins, each of which names the next among its
/// dependencies.
pub open spec fn is_chain(
    plugins: Map<Seq<char>, Plugin>,
    enabled: Seq<Seq<char>>,
    chain: Seq<Seq<char>>,
) -> bool {
    &&& chain.len() >= 1
    &&& forall|i: int| 0 <= i < chain.len() ==> enabled.contains(#[trigger] chain[i])
    &&& forall|i: int| 0 <= i < chain.len() - 1 ==> needs(plugins, #[trigger] chain[i], chain[i + 1])
}

/// The enabled plugin `dependent` is `name` or depends on it, directly or
/// through other enabled plugins.
pub open spec fn rests_on(
    plugins: Map<Seq<char>, Plugin>,
    enabled: Seq<Seq<char>>,
    dependent: Seq<char>,
    name: Seq<char>,
) -> bool {
    exists|chain: Seq<Seq<char>>| #[trigger]
        is_chain(plugins, enabled, chain) && chain.first() == dependent && chain.last() == name
}

/// The first `upto` enabled names without those that rest on `name`, in
/// their order.
pub open spec fn survivors(
    plugins: Map<Seq<char>, Plugin>,
    enabled: Seq<Seq<char>>,
    name: Seq<char>,
    upto: int,
) -> Seq<Seq<char>>
    decreases upto,
{
    if upto <= 0 {
        Seq::empty()
    } else if rests_on(plugins, enabled, enabled[upto - 1], name) {
        survivors(plugins, enabled, name, upto - 1)
    } else {
        survivors(plugins, enabled, name, upto - 1).push(enabled[upto - 1])
    }
}

/// The plugins with those set to installed that stand in `list`, before
/// position `upto`, at a position that `flags` marks.
pub open spec fn sunk(
    plugins: Map<Seq<char>, Plugin>,
    list: Seq<Seq<char>>,
    flags: Seq<bool>,
    upto: int,
) -> Map<Seq<char>, Plugin> {
    Map::new(
        |k: Seq<char>| plugins.contains_key(k),
        |k: Seq<char>|
            if exists|i: int| 0 <= i < upto && #[trigger] list[i] == k && flags[i] {
                as_installed(plugins[k])
            } else {
                plugins[k]
            },
    )
}

/// How many positions are not marked.
pub open spec fn unmarked(flags: Seq<bool>) -> nat
    decreases flags.len(),
{
    if flags.len() == 0 {
        0
    } else if flags.last() {
        unmarked(flags.drop_last())
    } else {
        unmarked(flags.drop_last()) + 1
    }
}

/// No plugin at an unmarked position names a plugin at a marked position
/// among its dependencies.
pub open spec fn closed(plugins: Map<Seq<char>, Plugin>, list: Seq<Seq<char>>, flags: Seq<bool>) -> bool {
    forall|a: int, b: int|
        0 <= a < list.len() && 0 <= b < list.len() && !#[trigger] flags[a] && #[trigger] flags[b]
            ==> !needs(plugins, list[a], list[b])
}

/// Marking one more position leaves one unmarked position fewer.
pub proof fn lemma_mark_one(flags: Seq<bool>, at: int)
    requires
        0 <= at < flags.len(),
        !flags[at],
    ensures
        unmarked(flags.update(at, true)) + 1 == unmarked(flags),
    decreases flags.len(),
{
    let marked = flags.update(at, true);
    if at == flags.len() - 1 {
        assert(marked.drop_last() =~= flags.drop_last());
    } else {
        assert(marked.drop_last() =~= flags.drop_last().update(at, true));
        lemma_mark_one(flags.drop_last(), at);
    }
}

/// Where the marks are closed and `name` is marked, everything that rests
/// on `name` is marked.
pub proof fn lemma_closed_covers(
    plugins: Map<Seq<char>, Plugin>,
    list: Seq<Seq<char>>,
    flags: Seq<bool>,
    name: Seq<char>,
    chain: Seq<Seq<char>>,
)
    requires
        flags.len() == list.len(),
        closed(plugins, list, flags),
        forall|i: int| 0 <= i < list.len() && #[trigger] list[i] == name ==> flags[i],
        is_chain(plugins, list, chain),
        chain.last() == name,
    ensures
        forall|i: int| 0 <= i < list.len() && #[trigger] list[i] == chain.first() ==> flags[i],
    decreases chain.len(),
{
    if chain.len() > 1 {
        let tail = chain.skip(1);
        assert forall|i: int| 0 <= i < tail.len() implies list.contains(#[trigger] tail[i]) by {
            assert(tail[i] == chain[i + 1]);
        }
        assert forall|i: int| 0 <= i < tail.len() - 1 implies needs(plugins, #[trigger] tail[i], tail[i + 1]) by {
            assert(tail[i] == chain[i + 1]);
            assert(tail[i + 1] == chain[i + 2]);
            assert(needs(plugins, chain[i + 1], chain[i + 1 + 1]));
        }
        assert(is_chain(plugins, list, tail));
        lemma_closed_covers(plugins, list, flags, name, tail);
        assert(list.contains(chain[1]));
        let b = choose|b: int| 0 <= b < list.len() && list[b] == chain[1];
        assert(list[b] == tail.first());
        assert(flags[b]);
        assert(needs(plugins, chain[0int], chain[0int + 1]));
        assert forall|i: int| 0 <= i < list.len() && #[trigger] list[i] == chain.first() implies flags[i] by {
            if !flags[i] {
                assert(!needs(plugins, list[i], list[b]));
            }
        }
    }
}

/// Nothing rests on a plugin that is not enabled.
pub proof fn lemma_rests_on_enabled(
    plugins: Map<Seq<char>, Plugin>,
    enabled: Seq<Seq<char>>,
    dependent: Seq<char>,
    name: Seq<char>,
)
    requires
        rests_on(plugins, enabled, dependent, name),
    ensures
        enabled.contains(name),
        enabled.contains(dependent),
{
    let chain = choose|chain: Seq<Seq<char>>| #[trigger]
        is_chain(plugins, enabled, chain) && chain.first() == dependent && chain.last() == name;
    assert(enabled.contains(chain[0]));
    assert(enabled.contains(chain[chain.len() - 1]));
}

/// What stays enabled: the names up to `upto` that do not rest on `name`,
/// each as often as before.
pub proof fn lemma_survivors(
    plugins: Map<Seq<char>, Plugin>,
    enabled: Seq<Seq<char>>,
    name: Seq<char>,
    upto: int,
)
    requires
        0 <= upto <= enabled.len(),
        enabled.no_duplicates(),
    ensures
        survivors(plugins, enabled, name, upto).no_duplicates(),
        forall|x: Seq<char>| #[trigger]
            survivors(plugins, enabled, name, upto).contains(x) <==> (enabled.take(upto).contains(x)
                && !rests_on(plugins, enabled, x, name)),
    decreases upto,
{
    let kept = survivors(plugins, enabled, name, upto);
    if upto > 0 {
        let fewer = survivors(plugins, enabled, name, upto - 1);
        let last = enabled[upto - 1];
        lemma_survivors(plugins, enabled, name, upto - 1);
        let longer = enabled.take(upto);
        let shorter = enabled.take(upto - 1);
        assert(longer =~= shorter.push(last));
        assert forall|x: Seq<char>| longer.contains(x) <==> (shorter.contains(x) || x == last) by {
            if longer.contains(x) {
                let j = choose|j: int| 0 <= j < longer.len() && longer[j] == x;
                if j < upto - 1 {
                    assert(shorter[j] == x);
                }
            }
            if shorter.contains(x) {
                let j = choose|j: int| 0 <= j < shorter.len() && shorter[j] == x;
                assert(longer[j] == x);
            }
            if x == last {
                assert(longer[upto - 1] == x);
            }
        }
        assert(!shorter.contains(last)) by {
            if shorter.contains(last) {
                let j = choose|j: int| 0 <= j < shorter.len() && shorter[j] == last;
                assert(enabled[j] == enabled[upto - 1]);
            }
        }
        if !rests_on(plugins, enabled, last, name) {
            assert(kept == fewer.push(last));
            assert forall|x: Seq<char>| kept.contains(x) <==> (fewer.contains(x) || x == last) by {
                if kept.contains(x) {
                    let j = choose|j: int| 0 <= j < kept.len() && kept[j] == x;
                    if j < fewer.len() {
                        assert(fewer[j] == x);
                    }
                }
                if fewer.contains(x) {
                    let j = choose|j: int| 0 <= j < fewer.len() && fewer[j] == x;
                    assert(kept[j] == x);
                }
                if x == last {
                    assert(kept[fewer.len() as int] == x);
                }
            }
            assert(!fewer.contains(last));
            assert forall|i: int, j: int| 0 <= i < kept.len() && 0 <= j < kept.len() && i != j implies kept[i]
                != kept[j] by {
                if i < fewer.len() && j < fewer.len() {
                    assert(fewer[i] != fewer[j]);
                } else if i < fewer.len() {
                    assert(fewer.contains(fewer[i]));
                } else {
                    assert(fewer.contains(fewer[j]));
                }
            }
        }
        assert forall|x: Seq<char>| #[trigger] kept.contains(x) <==> (longer.contains(x) && !rests_on(
            plugins,
            enabled,
            x,
            name,
        )) by {
            assert(fewer.contains(x) <==> (shorter.contains(x) && !rests_on(plugins, enabled, x, name)));
        }
    } else {
        assert(enabled.take(0) =~= Seq::<Seq<char>>::empty());
        assert(kept =~= Seq::<Seq<char>>::empty());
    }
}

impl Registry {
    /// Every enabled name is known, is listed once, and names a plugin in
    /// the enabled state; every plugin is known by the name of its manifest.
    pub open spec fn wf(self) -> bool {
        &&& self.plugins.dom().finite()
        &&& self.enabled.no_duplicates()
        &&& forall|i: int|
            0 <= i < self.enabled.len() ==> self.plugins.contains_key(#[trigger] self.enabled[i])
                && self.plugins[self.enabled[i]].state is Enabled
        &&& forall|k: Seq<char>| #[trigger]
            self.plugins.contains_key(k) ==> self.plugins[k].manifest.name@ == k
    }

    /// The registry after `name` was disabled: every enabled plugin that is
    /// `name` or depends on it, directly or through other enabled plugins,
    /// is in the installed state and has left the enabled list. The others
    /// keep their state and their order.
    pub open spec fn disable(self, name: Seq<char>) -> Registry {
        Registry {
            plugins: Map::new(
                |k: Seq<char>| self.plugins.contains_key(k),
                |k: Seq<char>|
                    if rests_on(self.plugins, self.enabled, k, name) {
                        as_installed(self.plugins[k])
                    } else {
                        self.plugins[k]
                    },
            ),
            enabled: survivors(self.plugins, self.enabled, name, self.enabled.len() as int),
        }
    }

    /// The registry after `name` was disabled and then forgotten.
    pub open spec fn forget(self, name: Seq<char>) -> Registry {
        Registry {
            plugins: self.disable(name).plugins.remove(name),
            enabled: self.disable(name).enabled,
        }
    }

    /// The registry after the host reported that `name` has failed: the
    /// plugin is disabled, and with it what depends on it, and its state is
    /// the error with the host's message.
    pub open spec fn failed(self, name: Seq<char>, message: String) -> Registry {
        let disabled = self.disable(name);
        Registry {
            plugins: disabled.plugins.insert(
                name,
                Plugin {
                    manifest: disabled.plugins[name].manifest,
                    directory: disabled.plugins[name].directory,
                    state: PluginState::Error(message),
                },
            ),
            enabled: disabled.enabled,
        }
    }

    /// Why a command of a plugin cannot be called: the plugin is not known,
    /// or it is not enabled, or it declares no command of that name.
    pub open spec fn command_fault(self, plugin_name: Seq<char>, command_name: Seq<char>) -> Option<Fault> {
        if !self.plugins.contains_key(plugin_name) {
            Some(Fault::NotFound { name: plugin_name })
        } else if !self.enabled.contains(plugin_name) {
            Some(Fault::NotEnabled { name: plugin_name })
        } else if !self.plugins[plugin_name].declares_command(command_name) {
            Some(Fault::CommandNotFound { name: command_name })
        } else {
            None
        }
    }

    /// The call `call` is the call of the hook `hook` of one of the plugins.
    pub open spec fn calls_hook(self, hook: Seq<char>, call: HookCall) -> bool {
        &&& self.plugins.contains_key(call.plugin@)
        &&& self.plugins[call.plugin@].declares_hook(hook)
        &&& call.priority == self.plugins[call.plugin@].hook_priority(hook)
        &&& call.script.working_dir@ == self.plugins[call.plugin@].directory@
        &&& call.script.program@ == joined(
            self.plugins[call.plugin@].directory@,
            self.plugins[call.plugin@].manifest.hooks@[hook_position(
                self.plugins[call.plugin@].manifest.hooks@,
                hook,
                0,
            )].script@,
        )
    }

    /// The registry after an attempt to enable `name`, and the error if the
    /// attempt failed. The plugins that the attempt appended to the enabled
    /// list are in the enabled state, also where it failed later.
    pub open spec fn enable(self, name: Seq<char>) -> (Registry, Option<Fault>) {
        let walked = enable_one(self.plugins, self.enabled, name, Set::empty());
        (
            Registry {
                plugins: marked_enabled(self.plugins, walked.0.skip(self.enabled.len() as int)),
                enabled: walked.0,
            },
            walked.1,
        )
    }
}

/// A walk never appends a plugin that is active.
pub proof fn lemma_walk_appends_idle(
    plugins: Map<Seq<char>, Plugin>,
    enabled: Seq<Seq<char>>,
    name: Seq<char>,
    active: Set<Seq<char>>,
    other: Seq<char>,
)
    requires
        plugins.dom().finite(),
        active.contains(other),
        !enabled.contains(other),
    ensures
        !enable_one(plugins, enabled, name, active).0.contains(other),
    decreases idle(plugins, active), 0nat, 0nat,
{
    if plugins.contains_key(name) && !enabled.contains(name) && !active.contains(name) {
        lemma_one_more_active(plugins, active, name);
        lemma_deps_append_idle(plugins, enabled, name, 0, active.insert(name), other);
        let walked = enable_deps(plugins, enabled, name, 0, active.insert(name));
        if walked.1 is None {
            let list = walked.0.push(name);
            if list.contains(other) {
                let i = choose|i: int| 0 <= i < list.len() && list[i] == other;
                if i < walked.0.len() {
                    assert(walked.0[i] == other);
                }
            }
        }
    }
}

/// A walk over dependencies never appends a plugin that is active.
pub proof fn lemma_deps_append_idle(
    plugins: Map<Seq<char>, Plugin>,
    enabled: Seq<Seq<char>>,
    owner: Seq<char>,
    from: int,
    active: Set<Seq<char>>,
    other: Seq<char>,
)
    requires
        plugins.dom().finite(),
        active.contains(other),
        !enabled.contains(other),
    ensures
        !enable_deps(plugins, enabled, owner, from, active).0.contains(other),
    decreases idle(plugins, active), 1nat, plugins[owner].manifest.dependencies.names().len() - from,
{
    let wanted = plugins[owner].manifest.dependencies;
    if 0 <= from < wanted.names().len() {
        let dependency = wanted.names()[from];
        let requirement = wanted.items()[from]@;
        if plugins.contains_key(dependency) {
            let version = plugins[dependency].manifest.version@;
            let fault = dependency_fault(
                owner,
                dependency,
                requirement,
                version,
                compatibility(version, requirement),
            );
            if fault is None {
                lemma_walk_appends_idle(plugins, enabled, dependency, active, other);
                let inner = enable_one(plugins, enabled, dependency, active);
                if inner.1 is None {
                    lemma_deps_append_idle(plugins, inner.0, owner, from + 1, active, other);
                }
            }
        }
    }
}

/// The registry with one more plugin, known by the name of its manifest and
/// in the state it comes in. It takes the place of a plugin of the same
/// name.
pub open spec fn registered(registry: Registry, plugin: Plugin) -> Registry {
    Registry { plugins: registry.plugins.insert(plugin.manifest.name@, plugin), enabled: registry.enabled }
}

/// The registry after a plugin was made known: a plugin of the same name is
/// disabled first, and with it what depends on it; then the new plugin takes
/// its place, in the state it comes in.
pub open spec fn replaced(registry: Registry, plugin: Plugin) -> Registry {
    registered(registry.disable(plugin.manifest.name@), plugin)
}

/// The registry after the plugins up to position `upto` were made known one
/// after the other.
pub open spec fn registered_all(registry: Registry, plugins: Seq<Plugin>, upto: int) -> Registry
    decreases upto,
{
    if upto <= 0 {
        registry
    } else {
        replaced(registered_all(registry, plugins, upto - 1), plugins[upto - 1])
    }
}

/// An enabled plugin that names an enabled plugin among its dependencies
/// rests on it.
pub proof fn lemma_dependent_rests(
    plugins: Map<Seq<char>, Plugin>,
    enabled: Seq<Seq<char>>,
    dependent: Seq<char>,
    name: Seq<char>,
)
    requires
        enabled.contains(dependent),
        enabled.contains(name),
        needs(plugins, dependent, name),
    ensures
        rests_on(plugins, enabled, dependent, name),
{
    let chain = seq![dependent, name];
    assert(is_chain(plugins, enabled, chain));
}

/// Resting on a plugin carries over: what rests on a plugin that rests on
/// `name` rests on `name`.
pub proof fn lemma_rests_carries(
    plugins: Map<Seq<char>, Plugin>,
    enabled: Seq<Seq<char>>,
    dependent: Seq<char>,
    between: Seq<char>,
    name: Seq<char>,
)
    requires
        rests_on(plugins, enabled, dependent, between),
        rests_on(plugins, enabled, between, name),
    ensures
        rests_on(plugins, enabled, dependent, name),
{
    let upper = choose|chain: Seq<Seq<char>>| #[trigger]
        is_chain(plugins, enabled, chain) && chain.first() == dependent && chain.last() == between;
    let lower = choose|chain: Seq<Seq<char>>| #[trigger]
        is_chain(plugins, enabled, chain) && chain.first() == between && chain.last() == name;
    let chain = upper.drop_last() + lower;
    let cut = upper.len() - 1;
    assert forall|i: int| 0 <= i < chain.len() implies enabled.contains(#[trigger] chain[i]) by {
        if i < cut {
            assert(chain[i] == upper[i]);
        } else {
            assert(chain[i] == lower[i - cut]);
        }
    }
    assert forall|i: int| 0 <= i < chain.len() - 1 implies needs(plugins, #[trigger] chain[i], chain[i + 1]) by {
        if i + 1 < cut {
            assert(chain[i] == upper[i]);
            assert(chain[i + 1] == upper[i + 1]);
            assert(needs(plugins, upper[i], upper[i + 1]));
        } else if i < cut {
            assert(chain[i] == upper[i]);
            assert(chain[i + 1] == lower[0]);
            assert(lower[0] == upper[i + 1]);
            assert(needs(plugins, upper[i], upper[i + 1]));
        } else {
            assert(chain[i] == lower[i - cut]);
            assert(chain[i + 1] == lower[i - cut + 1]);
            assert(needs(plugins, lower[i - cut], lower[i - cut + 1]));
        }
    }
    assert(is_chain(plugins, enabled, chain));
    assert(chain.last() == lower.last());
    if cut > 0 {
        assert(chain.first() == upper[0]);
    }
}

/// Disabling leaves a registry well formed.
pub proof fn lemma_disable_wf(registry: Registry, name: Seq<char>)
    requires
        registry.wf(),
    ensures
        registry.disable(name).wf(),
{
    let after = registry.disable(name);
    let n = registry.enabled.len() as int;
    lemma_survivors(registry.plugins, registry.enabled, name, n);
    assert(registry.enabled.take(n) =~= registry.enabled);
    assert(after.plugins.dom() =~= registry.plugins.dom());
    assert forall|i: int| 0 <= i < after.enabled.len() implies after.plugins.contains_key(
        #[trigger] after.enabled[i],
    ) && after.plugins[after.enabled[i]].state is Enabled by {
        let x = after.enabled[i];
        assert(after.enabled.contains(x));
        assert(registry.enabled.contains(x));
        let j = choose|j: int| 0 <= j < n && registry.enabled[j] == x;
        assert(registry.plugins.contains_key(registry.enabled[j]));
    }
}

/// Disabling a plugin disables everything that depends on it: an enabled
/// plugin that is `name` or depends on it, directly or through other enabled
/// plugins, is no longer enabled afterwards and is in the installed state.
/// An enabled plugin that does not depend on it stays enabled.
pub proof fn lemma_disable_clears_dependents(registry: Registry, name: Seq<char>, dependent: Seq<char>)
    requires
        registry.wf(),
        registry.enabled.contains(dependent),
    ensures
        rests_on(registry.plugins, registry.enabled, dependent, name) ==> !registry.disable(
            name,
        ).enabled.contains(dependent) && registry.disable(name).plugins[dependent].state is Installed,
        !rests_on(registry.plugins, registry.enabled, dependent, name) ==> registry.disable(
            name,
        ).enabled.contains(dependent) && registry.disable(name).plugins[dependent]
            == registry.plugins[dependent],
{
    let n = registry.enabled.len() as int;
    lemma_survivors(registry.plugins, registry.enabled, name, n);
    assert(registry.enabled.take(n) =~= registry.enabled);
    let j = choose|j: int| 0 <= j < n && registry.enabled[j] == dependent;
    assert(registry.plugins.contains_key(registry.enabled[j]));
}

/// After a plugin was disabled, no enabled plugin names it or any other
/// disabled plugin among its dependencies: what is left enabled does not
/// rest on what was taken away.
pub proof fn lemma_disable_leaves_no_dependent(registry: Registry, name: Seq<char>, left: Seq<char>, gone: Seq<char>)
    requires
        registry.wf(),
        registry.disable(name).enabled.contains(left),
        rests_on(registry.plugins, registry.enabled, gone, name),
    ensures
        !needs(registry.plugins, left, gone),
{
    let n = registry.enabled.len() as int;
    lemma_survivors(registry.plugins, registry.enabled, name, n);
    assert(registry.enabled.take(n) =~= registry.enabled);
    if needs(registry.plugins, left, gone) {
        lemma_rests_on_enabled(registry.plugins, registry.enabled, gone, name);
        lemma_dependent_rests(registry.plugins, registry.enabled, left, gone);
        lemma_rests_carries(registry.plugins, registry.enabled, left, gone, name);
    }
}

/// A walk only appends to the list of enabled names.
pub proof fn lemma_walk_extends(
    plugins: Map<Seq<char>, Plugin>,
    enabled: Seq<Seq<char>>,
    name: Seq<char>,
    active: Set<Seq<char>>,
)
    requires
        plugins.dom().finite(),
    ensures
        enabled.is_prefix_of(enable_one(plugins, enabled, name, active).0),
    decreases idle(plugins, active), 0nat, 0nat,
{
    if plugins.contains_key(name) && !enabled.contains(name) && !active.contains(name) {
        lemma_one_more_active(plugins, active, name);
        lemma_deps_extend(plugins, enabled, name, 0, active.insert(name));
    }
}

/// A walk over dependencies only appends to the list of enabled names.
pub proof fn lemma_deps_extend(
    plugins: Map<Seq<char>, Plugin>,
    enabled: Seq<Seq<char>>,
    owner: Seq<char>,
    from: int,
    active: Set<Seq<char>>,
)
    requires
        plugins.dom().finite(),
    ensures
        enabled.is_prefix_of(enable_deps(plugins, enabled, owner, from, active).0),
    decreases idle(plugins, active), 1nat, plugins[owner].manifest.dependencies.names().len() - from,
{
    let wanted = plugins[owner].manifest.dependencies;
    if 0 <= from < wanted.names().len() {
        let dependency = wanted.names()[from];
        let requirement = wanted.items()[from]@;
        if plugins.contains_key(dependency) {
            let version = plugins[dependency].manifest.version@;
            let fault = dependency_fault(
                owner,
                dependency,
                requirement,
                version,
                compatibility(version, requirement),
            );
            if fault is None {
                lemma_walk_extends(plugins, enabled, dependency, active);
                let inner = enable_one(plugins, enabled, dependency, active);
                if inner.1 is None {
                    lemma_deps_extend(plugins, inner.0, owner, from + 1, active);
                }
            }
        }
    }
}

/// A walk over dependencies fails where one of them, from the starting
/// position on, is not known.
pub proof fn lemma_deps_fail_at_missing(
    plugins: Map<Seq<char>, Plugin>,
    enabled: Seq<Seq<char>>,
    owner: Seq<char>,
    from: int,
    active: Set<Seq<char>>,
    missing: int,
)
    requires
        plugins.dom().finite(),
        0 <= from <= missing < plugins[owner].manifest.dependencies.names().len(),
        !plugins.contains_key(plugins[owner].manifest.dependencies.names()[missing]),
    ensures
        enable_deps(plugins, enabled, owner, from, active).1 is Some,
    decreases missing - from,
{
    let wanted = plugins[owner].manifest.dependencies;
    let dependency = wanted.names()[from];
    if from < missing && plugins.contains_key(dependency) {
        let requirement = wanted.items()[from]@;
        let version = plugins[dependency].manifest.version@;
        let fault = dependency_fault(
            owner,
            dependency,
            requirement,
            version,
            compatibility(version, requirement),
        );
        if fault is None {
            let inner = enable_one(plugins, enabled, dependency, active);
            if inner.1 is None {
                lemma_deps_fail_at_missing(plugins, inner.0, owner, from + 1, active, missing);
            }
        }
    }
}

/// The dependency at position `at` of `owner` is known, is enabled, and has
/// a version that meets what `owner` asks for.
pub open spec fn settled(
    plugins: Map<Seq<char>, Plugin>,
    enabled: Seq<Seq<char>>,
    owner: Seq<char>,
    at: int,
) -> bool {
    let wanted = plugins[owner].manifest.dependencies;
    let dependency = wanted.names()[at];
    let requirement = wanted.items()[at]@;
    &&& plugins.contains_key(dependency)
    &&& enabled.contains(dependency)
    &&& dependency_fault(
        owner,
        dependency,
        requirement,
        plugins[dependency].manifest.version@,
        compatibility(plugins[dependency].manifest.version@, requirement),
    ) is None
}

/// A walk over dependencies that are all enabled already and of a fitting
/// version passes them without a change.
pub proof fn lemma_deps_pass_enabled(
    plugins: Map<Seq<char>, Plugin>,
    enabled: Seq<Seq<char>>,
    owner: Seq<char>,
    from: int,
    active: Set<Seq<char>>,
    upto: int,
)
    requires
        plugins.dom().finite(),
        plugins.contains_key(owner),
        0 <= from <= upto <= plugins[owner].manifest.dependencies.names().len(),
        forall|j: int| from <= j < upto ==> settled(plugins, enabled, owner, j),
    ensures
        enable_deps(plugins, enabled, owner, from, active) == if upto
            < plugins[owner].manifest.dependencies.names().len() {
            enable_deps(plugins, enabled, owner, upto, active)
        } else {
            (enabled, None::<Fault>)
        },
    decreases upto - from,
{
    if from < upto {
        assert(settled(plugins, enabled, owner, from));
        let dependency = plugins[owner].manifest.dependencies.names()[from];
        assert(enable_one(plugins, enabled, dependency, active) == (enabled, None::<Fault>));
        lemma_deps_pass_enabled(plugins, enabled, owner, from + 1, active, upto);
    }
}

/// Enabling a plugin that depends on an unknown plugin fails, and the plugin
/// is left as it was: it is not enabled, and its state is unchanged.
pub proof fn lemma_missing_dependency_fails(registry: Registry, name: Seq<char>, missing: int)
    requires
        registry.wf(),
        registry.plugins.contains_key(name),
        !registry.enabled.contains(name),
        0 <= missing < registry.plugins[name].manifest.dependencies.names().len(),
        !registry.plugins.contains_key(registry.plugins[name].manifest.dependencies.names()[missing]),
    ensures
        registry.enable(name).1 is Some,
        !registry.enable(name).0.enabled.contains(name),
        registry.enable(name).0.plugins[name] == registry.plugins[name],
{
    let active = Set::<Seq<char>>::empty().insert(name);
    lemma_deps_fail_at_missing(registry.plugins, registry.enabled, name, 0, active, missing);
    lemma_deps_append_idle(registry.plugins, registry.enabled, name, 0, active, name);
    lemma_deps_extend(registry.plugins, registry.enabled, name, 0, active);
    let walked = enable_deps(registry.plugins, registry.enabled, name, 0, active);
    let added = walked.0.skip(registry.enabled.len() as int);
    if added.contains(name) {
        let i = choose|i: int| 0 <= i < added.len() && added[i] == name;
        assert(walked.0[i + registry.enabled.len()] == name);
    }
}

/// Where the unknown dependency is the first that is not settled, enabling
/// the plugin fails with the error that names the two, and the registry is
/// left as it was.
pub proof fn lemma_missing_dependency_error(registry: Registry, name: Seq<char>, missing: int)
    requires
        registry.wf(),
        registry.plugins.contains_key(name),
        !registry.enabled.contains(name),
        0 <= missing < registry.plugins[name].manifest.dependencies.names().len(),
        !registry.plugins.contains_key(registry.plugins[name].manifest.dependencies.names()[missing]),
        forall|j: int| 0 <= j < missing ==> settled(registry.plugins, registry.enabled, name, j),
    ensures
        registry.enable(name).1 == Some(
            Fault::DependencyMissing {
                plugin: name,
                dependency: registry.plugins[name].manifest.dependencies.names()[missing],
            },
        ),
        registry.enable(name).0 == registry,
{
    let active = Set::<Seq<char>>::empty().insert(name);
    lemma_deps_pass_enabled(registry.plugins, registry.enabled, name, 0, active, missing);
    let after = registry.enable(name).0;
    assert(registry.enabled.skip(registry.enabled.len() as int) =~= Seq::<Seq<char>>::empty());
    assert(after.plugins =~= registry.plugins);
    assert(after =~= registry);
}

/// Every name of the list is the name of a known plugin.
pub open spec fn all_known(plugins: Map<Seq<char>, Plugin>, list: Seq<Seq<char>>) -> bool {
    forall|i: int| 0 <= i < list.len() ==> plugins.contains_key(#[trigger] list[i])
}

/// A walk leaves a list of known plugins without repetition as such a list.
pub proof fn lemma_walk_keeps_list(
    plugins: Map<Seq<char>, Plugin>,
    enabled: Seq<Seq<char>>,
    name: Seq<char>,
    active: Set<Seq<char>>,
)
    requires
        plugins.dom().finite(),
        enabled.no_duplicates(),
        all_known(plugins, enabled),
    ensures
        enable_one(plugins, enabled, name, active).0.no_duplicates(),
        all_known(plugins, enable_one(plugins, enabled, name, active).0),
    decreases idle(plugins, active), 0nat, 0nat,
{
    if plugins.contains_key(name) && !enabled.contains(name) && !active.contains(name) {
        lemma_one_more_active(plugins, active, name);
        let inside = active.insert(name);
        lemma_deps_keep_list(plugins, enabled, name, 0, inside);
        lemma_deps_append_idle(plugins, enabled, name, 0, inside, name);
        let walked = enable_deps(plugins, enabled, name, 0, inside);
        if walked.1 is None {
            let list = walked.0.push(name);
            assert forall|i: int, j: int| 0 <= i < list.len() && 0 <= j < list.len() && i != j implies list[i]
                != list[j] by {
                if i < walked.0.len() && j < walked.0.len() {
                    assert(walked.0[i] != walked.0[j]);
                } else if i < walked.0.len() {
                    assert(walked.0.contains(walked.0[i]));
                } else {
                    assert(walked.0.contains(walked.0[j]));
                }
            }
            assert forall|i: int| 0 <= i < list.len() implies plugins.contains_key(#[trigger] list[i]) by {
                if i < walked.0.len() {
                    assert(list[i] == walked.0[i]);
                }
            }
        }
    }
}

/// A walk over dependencies leaves a list of known plugins without
/// repetition as such a list.
pub proof fn lemma_deps_keep_list(
    plugins: Map<Seq<char>, Plugin>,
    enabled: Seq<Seq<char>>,
    owner: Seq<char>,
    from: int,
    active: Set<Seq<char>>,
)
    requires
        plugins.dom().finite(),
        enabled.no_duplicates(),
        all_known(plugins, enabled),
    ensures
        enable_deps(plugins, enabled, owner, from, active).0.no_duplicates(),
        all_known(plugins, enable_deps(plugins, enabled, owner, from, active).0),
    decreases idle(plugins, active), 1nat, plugins[owner].manifest.dependencies.names().len() - from,
{
    let wanted = plugins[owner].manifest.dependencies;
    if 0 <= from < wanted.names().len() {
        let dependency = wanted.names()[from];
        let requirement = wanted.items()[from]@;
        if plugins.contains_key(dependency) {
            let version = plugins[dependency].manifest.version@;
            let fault = dependency_fault(
                owner,
                dependency,
                requirement,
                version,
                compatibility(version, requirement),
            );
            if fault is None {
                lemma_walk_keeps_list(plugins, enabled, dependency, active);
                let inner = enable_one(plugins, enabled, dependency, active);
                if inner.1 is None {
                    lemma_deps_keep_list(plugins, inner.0, owner, from + 1, active);
                }
            }
        }
    }
}

/// Enabling leaves a registry well formed, whether it succeeds or fails.
pub proof fn lemma_enable_wf(registry: Registry, name: Seq<char>)
    requires
        registry.wf(),
    ensures
        registry.enable(name).0.wf(),
{
    let empty = Set::<Seq<char>>::empty();
    let walked = enable_one(registry.plugins, registry.enabled, name, empty);
    let after = registry.enable(name).0;
    let before = registry.enabled.len() as int;
    lemma_walk_keeps_list(registry.plugins, registry.enabled, name, empty);
    lemma_walk_extends(registry.plugins, registry.enabled, name, empty);
    assert(after.plugins.dom() =~= registry.plugins.dom());
    let added = walked.0.skip(before);
    assert forall|i: int| 0 <= i < after.enabled.len() implies after.plugins.contains_key(
        #[trigger] after.enabled[i],
    ) && after.plugins[after.enabled[i]].state is Enabled by {
        if i < before {
            assert(after.enabled[i] == registry.enabled[i]);
        } else {
            assert(added[i - before] == after.enabled[i]);
            assert(added.contains(after.enabled[i]));
        }
    }
}

/// The names up to `upto` all stay where none of them rests on `name`.
pub proof fn lemma_survivors_all(
    plugins: Map<Seq<char>, Plugin>,
    enabled: Seq<Seq<char>>,
    name: Seq<char>,
    upto: int,
)
    requires
        0 <= upto <= enabled.len(),
        !enabled.contains(name),
    ensures
        survivors(plugins, enabled, name, upto) == enabled.take(upto),
    decreases upto,
{
    if upto > 0 {
        lemma_survivors_all(plugins, enabled, name, upto - 1);
        if rests_on(plugins, enabled, enabled[upto - 1], name) {
            lemma_rests_on_enabled(plugins, enabled, enabled[upto - 1], name);
        }
        assert(enabled.take(upto) =~= enabled.take(upto - 1).push(enabled[upto - 1]));
    } else {
        assert(enabled.take(0) =~= Seq::<Seq<char>>::empty());
    }
}

/// Disabling a plugin that is not enabled changes nothing.
pub proof fn lemma_disable_idle(registry: Registry, name: Seq<char>)
    requires
        !registry.enabled.contains(name),
    ensures
        registry.disable(name) == registry,
{
    let n = registry.enabled.len() as int;
    lemma_survivors_all(registry.plugins, registry.enabled, name, n);
    assert(registry.enabled.take(n) =~= registry.enabled);
    assert forall|k: Seq<char>| !rests_on(registry.plugins, registry.enabled, k, name) by {
        if rests_on(registry.plugins, registry.enabled, k, name) {
            lemma_rests_on_enabled(registry.plugins, registry.enabled, k, name);
        }
    }
    assert(registry.disable(name).plugins =~= registry.plugins);
    assert(registry.disable(name) =~= registry);
}

/// A plugin that was disabled is not enabled.
pub proof fn lemma_disabled_not_enabled(registry: Registry, name: Seq<char>)
    requires
        registry.enabled.no_duplicates(),
    ensures
        !registry.disable(name).enabled.contains(name),
{
    let n = registry.enabled.len() as int;
    lemma_survivors(registry.plugins, registry.enabled, name, n);
    assert(registry.enabled.take(n) =~= registry.enabled);
    if registry.enabled.contains(name) {
        assert(is_chain(registry.plugins, registry.enabled, seq![name]));
        assert(rests_on(registry.plugins, registry.enabled, name, name));
    }
}

/// Registering a plugin under a name that is not enabled leaves a registry
/// well formed.
pub proof fn lemma_registered_wf(registry: Registry, plugin: Plugin)
    requires
        registry.wf(),
        !registry.enabled.contains(plugin.manifest.name@),
    ensures
        registered(registry, plugin).wf(),
{
    let after = registered(registry, plugin);
    assert forall|i: int| 0 <= i < after.enabled.len() implies after.plugins.contains_key(
        #[trigger] after.enabled[i],
    ) && after.plugins[after.enabled[i]].state is Enabled by {
        assert(registry.plugins.contains_key(registry.enabled[i]));
        assert(registry.enabled.contains(registry.enabled[i]));
    }
}

/// Making a plugin known leaves a registry well formed, and the plugin
/// stands in it as it came: a plugin that comes as installed is installed,
/// whatever stood under its name before.
pub proof fn lemma_replaced_wf(registry: Registry, plugin: Plugin)
    requires
        registry.wf(),
    ensures
        replaced(registry, plugin).wf(),
        replaced(registry, plugin).plugins[plugin.manifest.name@] == plugin,
        !replaced(registry, plugin).enabled.contains(plugin.manifest.name@),
{
    lemma_disable_wf(registry, plugin.manifest.name@);
    lemma_disabled_not_enabled(registry, plugin.manifest.name@);
    lemma_registered_wf(registry.disable(plugin.manifest.name@), plugin);
}

/// Reporting a failure leaves a registry well formed.
pub proof fn lemma_failed_wf(registry: Registry, name: Seq<char>, message: String)
    requires
        registry.wf(),
        registry.plugins.contains_key(name),
    ensures
        registry.failed(name, message).wf(),
        !registry.failed(name, message).enabled.contains(name),
{
    let disabled = registry.disable(name);
    lemma_disable_wf(registry, name);
    lemma_disabled_not_enabled(registry, name);
    let after = registry.failed(name, message);
    assert(disabled.plugins.contains_key(name));
    assert forall|i: int| 0 <= i < after.enabled.len() implies after.plugins.contains_key(
        #[trigger] after.enabled[i],
    ) && after.plugins[after.enabled[i]].state is Enabled by {
        assert(disabled.plugins.contains_key(disabled.enabled[i]));
        assert(disabled.enabled.contains(disabled.enabled[i]));
    }
}

} // verus!
