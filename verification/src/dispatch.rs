use vstd::prelude::*;
use crate::name_map::NameMap;
use crate::plugin::{Plugin, ScriptCall, ScriptRun};

verus! {

/// One call of a hook: the plugin, the priority of its hook, and the script
/// to run.
#[derive(Clone, Debug, PartialEq, Eq)]
pub struct HookCall {
    pub plugin: String,
    pub priority: i32,
    pub script: ScriptCall,
}

/// The plugin names and priorities of a list of calls.
pub open spec fn slots(calls: Seq<HookCall>) -> Seq<(Seq<char>, int)> {
    calls.map_values(|c: HookCall| (c.plugin@, c.priority as int))
}

/// No entry has a lower priority number than an entry before it.
pub open spec fn ascending(order: Seq<(Seq<char>, int)>) -> bool {
    forall|i: int, j: int| 0 <= i < j < order.len() ==> (#[trigger] order[i]).1 <= (#[trigger] order[j]).1
}

/// `sorted` with `entry` put behind every entry whose priority number is not
/// higher than its own.
pub open spec fn placed(sorted: Seq<(Seq<char>, int)>, entry: (Seq<char>, int)) -> Seq<(Seq<char>, int)>
    decreases sorted.len(),
{
    if sorted.len() == 0 || sorted.last().1 <= entry.1 {
        sorted.push(entry)
    } else {
        placed(sorted.drop_last(), entry).push(sorted.last())
    }
}

/// The order in which a hook is dispatched to the first `upto` enabled
/// plugins: those that declare the hook, by ascending priority number, and
/// among equal priorities in the order in which they were enabled.
pub open spec fn dispatch_order(
    plugins: Map<Seq<char>, Plugin>,
    enabled: Seq<Seq<char>>,
    hook: Seq<char>,
    upto: int,
) -> Seq<(Seq<char>, int)>
    decreases upto,
{
    if upto <= 0 {
        Seq::empty()
    } else {
        let rest = dispatch_order(plugins, enabled, hook, upto - 1);
        let name = enabled[upto - 1];
        if plugins.contains_key(name) && plugins[name].declares_hook(hook) {
            placed(rest, (name, plugins[name].hook_priority(hook)))
        } else {
            rest
        }
    }
}

/// Placing an entry is inserting it at the position behind which every
/// entry has a higher priority number and before which the last entry has
/// none.
pub proof fn lemma_placed_at(sorted: Seq<(Seq<char>, int)>, entry: (Seq<char>, int), at: int)
    requires
        0 <= at <= sorted.len(),
        forall|t: int| at <= t < sorted.len() ==> (#[trigger] sorted[t]).1 > entry.1,
        at > 0 ==> sorted[at - 1].1 <= entry.1,
    ensures
        placed(sorted, entry) == sorted.insert(at, entry),
    decreases sorted.len(),
{
    if at == sorted.len() {
        assert(sorted.insert(at, entry) =~= sorted.push(entry));
    } else {
        assert(sorted.last().1 > entry.1);
        lemma_placed_at(sorted.drop_last(), entry, at);
        assert(sorted.drop_last().insert(at, entry).push(sorted.last()) =~= sorted.insert(at, entry));
    }
}

/// Placing an entry into an ascending list gives an ascending list with
/// that one entry more.
pub proof fn lemma_placed(sorted: Seq<(Seq<char>, int)>, entry: (Seq<char>, int))
    requires
        ascending(sorted),
    ensures
        ascending(placed(sorted, entry)),
        placed(sorted, entry).len() == sorted.len() + 1,
        forall|x: (Seq<char>, int)| #[trigger]
            placed(sorted, entry).contains(x) <==> (sorted.contains(x) || x == entry),
    decreases sorted.len(),
{
    let result = placed(sorted, entry);
    if sorted.len() == 0 || sorted.last().1 <= entry.1 {
        assert forall|i: int, j: int| 0 <= i < j < result.len() implies (#[trigger] result[i]).1 <= (
        #[trigger] result[j]).1 by {
            if j == sorted.len() {
                assert(result[i] == sorted[i]);
                if i < sorted.len() - 1 {
                    assert(sorted[i].1 <= sorted[sorted.len() - 1].1);
                }
            } else {
                assert(result[i] == sorted[i] && result[j] == sorted[j]);
            }
        }
        assert forall|x: (Seq<char>, int)| #[trigger] result.contains(x) <==> (sorted.contains(x) || x
            == entry) by {
            if result.contains(x) {
                let k = choose|k: int| 0 <= k < result.len() && result[k] == x;
                if k < sorted.len() {
                    assert(sorted[k] == x);
                }
            }
            if sorted.contains(x) {
                let k = choose|k: int| 0 <= k < sorted.len() && sorted[k] == x;
                assert(result[k] == x);
            }
            if x == entry {
                assert(result[sorted.len() as int] == x);
            }
        }
    } else {
        let shorter = sorted.drop_last();
        let last = sorted.last();
        assert(ascending(shorter)) by {
            assert forall|i: int, j: int| 0 <= i < j < shorter.len() implies (#[trigger] shorter[i]).1 <= (
            #[trigger] shorter[j]).1 by {
                assert(shorter[i] == sorted[i] && shorter[j] == sorted[j]);
            }
        }
        lemma_placed(shorter, entry);
        let inner = placed(shorter, entry);
        assert(result == inner.push(last));
        assert forall|x: (Seq<char>, int)| #[trigger] result.contains(x) <==> (sorted.contains(x) || x
            == entry) by {
            if result.contains(x) {
                let k = choose|k: int| 0 <= k < result.len() && result[k] == x;
                if k < inner.len() {
                    assert(inner[k] == x);
                    assert(inner.contains(x));
                    if shorter.contains(x) {
                        let t = choose|t: int| 0 <= t < shorter.len() && shorter[t] == x;
                        assert(sorted[t] == x);
                    }
                } else {
                    assert(sorted[sorted.len() - 1] == x);
                }
            }
            if sorted.contains(x) {
                let k = choose|k: int| 0 <= k < sorted.len() && sorted[k] == x;
                if k < shorter.len() {
                    assert(shorter[k] == x);
                    assert(shorter.contains(x));
                    assert(inner.contains(x));
                    let t = choose|t: int| 0 <= t < inner.len() && inner[t] == x;
                    assert(result[t] == x);
                } else {
                    assert(result[inner.len() as int] == x);
                }
            }
            if x == entry {
                assert(inner.contains(x));
                let t = choose|t: int| 0 <= t < inner.len() && inner[t] == x;
                assert(result[t] == x);
            }
        }
        assert forall|i: int, j: int| 0 <= i < j < result.len() implies (#[trigger] result[i]).1 <= (
        #[trigger] result[j]).1 by {
            if j < inner.len() {
                assert(result[i] == inner[i] && result[j] == inner[j]);
            } else {
                assert(result[i] == inner[i]);
                assert(inner.contains(inner[i]));
                if inner[i] == entry {
                } else {
                    assert(shorter.contains(inner[i]));
                    let t = choose|t: int| 0 <= t < shorter.len() && shorter[t] == inner[i];
                    assert(sorted[t] == inner[i]);
                    assert(sorted[t].1 <= sorted[sorted.len() - 1].1);
                }
            }
        }
    }
}

/// Hooks are dispatched in ascending order of priority, to the enabled
/// plugins that declare the hook and to no others, each with the priority of
/// its hook.
pub proof fn lemma_dispatch_order(
    plugins: Map<Seq<char>, Plugin>,
    enabled: Seq<Seq<char>>,
    hook: Seq<char>,
    upto: int,
)
    requires
        0 <= upto <= enabled.len(),
    ensures
        ascending(dispatch_order(plugins, enabled, hook, upto)),
        forall|x: (Seq<char>, int)| #[trigger]
            dispatch_order(plugins, enabled, hook, upto).contains(x) <==> (exists|i: int|
                0 <= i < upto && #[trigger] enabled[i] == x.0 && plugins.contains_key(x.0)
                    && plugins[x.0].declares_hook(hook) && x.1 == plugins[x.0].hook_priority(hook)),
    decreases upto,
{
    let order = dispatch_order(plugins, enabled, hook, upto);
    if upto > 0 {
        lemma_dispatch_order(plugins, enabled, hook, upto - 1);
        let rest = dispatch_order(plugins, enabled, hook, upto - 1);
        let name = enabled[upto - 1];
        let takes = plugins.contains_key(name) && plugins[name].declares_hook(hook);
        if takes {
            lemma_placed(rest, (name, plugins[name].hook_priority(hook)));
        }
        assert forall|x: (Seq<char>, int)| #[trigger] order.contains(x) <==> (exists|i: int|
            0 <= i < upto && #[trigger] enabled[i] == x.0 && plugins.contains_key(x.0)
                && plugins[x.0].declares_hook(hook) && x.1 == plugins[x.0].hook_priority(hook)) by {
            let listed = |i: int|
                0 <= i < upto && enabled[i] == x.0 && plugins.contains_key(x.0)
                    && plugins[x.0].declares_hook(hook) && x.1 == plugins[x.0].hook_priority(hook);
            if order.contains(x) {
                if rest.contains(x) {
                    let i = choose|i: int|
                        0 <= i < upto - 1 && #[trigger] enabled[i] == x.0 && plugins.contains_key(x.0)
                            && plugins[x.0].declares_hook(hook) && x.1 == plugins[x.0].hook_priority(
                            hook,
                        );
                    assert(listed(i));
                } else {
                    assert(takes && x == (name, plugins[name].hook_priority(hook)));
                    assert(listed(upto - 1));
                }
            }
            if exists|i: int|
                0 <= i < upto && #[trigger] enabled[i] == x.0 && plugins.contains_key(x.0)
                    && plugins[x.0].declares_hook(hook) && x.1 == plugins[x.0].hook_priority(hook) {
                let i = choose|i: int|
                    0 <= i < upto && #[trigger] enabled[i] == x.0 && plugins.contains_key(x.0)
                        && plugins[x.0].declares_hook(hook) && x.1 == plugins[x.0].hook_priority(hook);
                if i < upto - 1 {
                    assert(rest.contains(x));
                } else {
                    assert(x.0 == name);
                    assert(x =~= (name, plugins[name].hook_priority(hook)));
                }
            }
        }
    } else {
        assert(order =~= Seq::<(Seq<char>, int)>::empty());
    }
}

/// Puts a call into a list of calls that is in dispatch order, and tells
/// where it went.
pub fn place_call(calls: &mut Vec<HookCall>, call: HookCall) -> (at: usize)
    ensures
        at <= old(calls)@.len(),
        final(calls)@ == old(calls)@.insert(at as int, call),
        slots(final(calls)@) == placed(slots(old(calls)@), (call.plugin@, call.priority as int)),
{
    let ghost before = calls@;
    let mut at: usize = calls.len();
    while at > 0 && calls[at - 1].priority > call.priority
        invariant
            at <= calls@.len(),
            calls@ == before,
            forall|t: int| at <= t < before.len() ==> (#[trigger] slots(before)[t]).1 > call.priority,
        decreases at,
    {
        at -= 1;
    }
    proof {
        if at > 0 {
            assert(slots(before)[at - 1].1 <= call.priority);
        }
        lemma_placed_at(slots(before), (call.plugin@, call.priority as int), at as int);
    }
    calls.insert(at, call);
    proof {
        assert(slots(calls@) =~= slots(before).insert(at as int, (call.plugin@, call.priority as int)));
    }
    at
}

/// The outputs of the first `upto` calls that succeeded, by plugin name.
/// What did not run, could not start or failed has no entry.
pub open spec fn gathered(calls: Seq<HookCall>, runs: Seq<ScriptRun>, upto: int) -> Map<Seq<char>, String>
    decreases upto,
{
    if upto <= 0 {
        Map::empty()
    } else {
        let rest = gathered(calls, runs, upto - 1);
        match runs[upto - 1] {
            ScriptRun::Exited { success: true, stdout, .. } => rest.insert(calls[upto - 1].plugin@, stdout),
            _ => rest,
        }
    }
}

/// How many calls have a run to look at.
pub open spec fn paired(calls: Seq<HookCall>, runs: Seq<ScriptRun>) -> int {
    if calls.len() <= runs.len() {
        calls.len() as int
    } else {
        runs.len() as int
    }
}

/// Gathers what the calls of a hook printed: for each call, in order, the
/// standard output of its run if the run succeeded. A script that failed
/// is left out and does not stop the others.
pub fn collect_hook_results(calls: &Vec<HookCall>, runs: Vec<ScriptRun>) -> (results: NameMap<String>)
    ensures
        results@ == gathered(calls@, runs@, paired(calls@, runs@)),
{
    let ghost all = runs@;
    let n = runs.len();
    let mut results: NameMap<String> = NameMap::new();
    let mut k: usize = 0;
    for run in it: runs
        invariant
            it.seq() == all,
            all.len() == n,
            k == it.index(),
            results@ == gathered(calls@, all, if k <= calls@.len() { k as int } else { calls@.len() as int }),
    {
        if k < calls.len() {
            match run {
                ScriptRun::Exited { success, stdout, stderr } => {
                    if success {
                        results.insert(calls[k].plugin.clone(), stdout);
                    }
                },
                _ => {},
            }
        }
        k += 1;
    }
    results
}

} // verus!
