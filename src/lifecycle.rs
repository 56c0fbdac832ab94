use crate::instance::{fired, GGInstance, InstanceView};
use crate::key::{ascii_lower, ascii_lower_char, instance_key, lower_of};
use crate::registry::{
    drop_all_but, keep_only, lemma_map_of_fired, live_port, map_of, unique_keys, Entry, Registry,
};
use vstd::prelude::*;
use vstd::utf8::is_ascii_chars;

verus! {

/// What a start request does after consulting the registry.
pub enum StartStep {
    /// A live instance already serves the workspace on this port.
    Reuse(u16),
    /// No live instance: a new one must be launched and registered.
    Launch,
}

/// The registry check of a start request for key `k`, given whether the
/// registered instance's task is still running: the step to take, and the
/// registry afterwards. A stale entry is evicted.
pub open spec fn start_check(m: Map<Seq<char>, InstanceView>, k: Seq<char>, running: bool) -> (
    StartStep,
    Map<Seq<char>, InstanceView>,
) {
    match live_port(m, k, running) {
        Some(p) => (StartStep::Reuse(p), m),
        None => (StartStep::Launch, m.remove(k)),
    }
}

/// The registry key of an optional exempt path.
pub open spec fn except_key(p: Option<String>) -> Option<Seq<char>> {
    match p {
        Some(s) => Some(lower_of(s@)),
        None => None,
    }
}

/// The registry check of a start, given whether the registered task for
/// `key` still runs: reports the port of a live instance, or evicts a stale
/// entry and asks for a launch.
pub fn start_step(reg: &mut Registry, key: &String, running: bool) -> (r: StartStep)
    requires
        old(reg).wf(),
    ensures
        final(reg).wf(),
        (r, final(reg)@) == start_check(old(reg)@, key@, running),
{
    match reg.port_of(key) {
        Some(p) => {
            if running {
                return StartStep::Reuse(p);
            }
        },
        None => {},
    }
    let _stale = reg.remove(key);
    StartStep::Launch
}

/// The first half of a start: asks whether the task registered for `key`
/// still runs, then takes the step that [`start_step`] gives for the answer.
///
/// The launch that follows a `Launch` happens outside the registry, so that
/// slow binding and spawning never hold up other workspaces. Two first
/// starts of one key that run at once may therefore both launch: the later
/// [`complete_start`] wins, and the earlier task runs on unregistered until
/// it ends by itself (see [`lemma_concurrent_first_starts_last_wins`]).
pub fn begin_start(reg: &mut Registry, key: &String) -> (r: StartStep)
    requires
        old(reg).wf(),
    ensures
        final(reg).wf(),
        exists|running: bool| (r, final(reg)@) == start_check(old(reg)@, key@, running),
        !old(reg)@.contains_key(key@) ==> r is Launch && final(reg)@ == old(reg)@,
{
    let running = reg.task_running(key);
    let r = start_step(reg, key, running);
    assert(old(reg)@.remove(key@) =~= old(reg)@ || old(reg)@.contains_key(key@));
    r
}

/// The second half of a start: registers the freshly launched `instance`
/// under `key` and returns its port. An entry already there for `key` is
/// overwritten: the last registration of a key wins.
pub fn complete_start(reg: &mut Registry, key: String, instance: GGInstance) -> (r: u16)
    requires
        old(reg).wf(),
    ensures
        final(reg).wf(),
        final(reg)@ == old(reg)@.insert(key@, instance@),
        r == instance@.port,
{
    let port = instance.port();
    reg.insert(key, instance);
    port
}

/// Stops the instance of the workspace at `path`: removes it from the
/// registry, fires its shutdown signal and returns the fired record. An
/// unknown workspace is left alone and nothing is fired.
pub fn stop_gg_web(reg: &mut Registry, path: &str) -> (r: Option<GGInstance>)
    requires
        old(reg).wf(),
    ensures
        final(reg).wf(),
        final(reg)@ == old(reg)@.remove(lower_of(path@)),
        !old(reg)@.contains_key(lower_of(path@)) ==> final(reg)@ == old(reg)@,
        r is Some <==> old(reg)@.contains_key(lower_of(path@)),
        r is Some ==> r.unwrap()@ == fired(old(reg)@[lower_of(path@)]),
{
    let key = instance_key(path);
    match reg.remove(&key) {
        Some(mut inst) => {
            inst.fire_shutdown();
            Some(inst)
        },
        None => {
            assert(old(reg)@.remove(key@) =~= old(reg)@);
            None
        },
    }
}

/// Stops every instance but that of the workspace at `except_path`, if one
/// is given: removes them from the registry in one pass, fires each one's
/// shutdown signal, and returns the fired entries.
pub fn stop_all_gg_web(reg: &mut Registry, except_path: Option<String>) -> (r: Vec<Entry>)
    requires
        old(reg).wf(),
    ensures
        final(reg).wf(),
        final(reg)@ == keep_only(old(reg)@, except_key(except_path)),
        unique_keys(r@),
        map_of(r@).dom() == drop_all_but(old(reg)@, except_key(except_path)).dom(),
        forall|k: Seq<char>| #[trigger]
            map_of(r@).contains_key(k) ==> map_of(r@)[k] == fired(old(reg)@[k]),
{
    let except_key: Option<String> = match &except_path {
        Some(p) => Some(instance_key(p.as_str())),
        None => None,
    };
    let mut removed = reg.remove_all_except(&except_key);
    let ghost taken = removed@;
    let mut stopped: Vec<Entry> = Vec::new();
    while removed.len() > 0
        invariant
            stopped@.len() + removed@.len() == taken.len(),
            removed@ == taken.subrange(stopped@.len() as int, taken.len() as int),
            forall|j: int|
                0 <= j < stopped@.len() ==> #[trigger] stopped@[j].key@ == taken[j].key@
                    && stopped@[j].instance@ == fired(taken[j].instance@),
        decreases removed@.len(),
    {
        let ghost n = stopped@.len() as int;
        let mut e = removed.remove(0);
        assert(e == taken[n]);
        e.instance.fire_shutdown();
        stopped.push(e);
        assert(removed@ =~= taken.subrange(n + 1, taken.len() as int));
    }
    proof {
        lemma_map_of_fired(taken, stopped@);
    }
    stopped
}

/// A first start of a key that finds nothing registered does not reserve
/// the key: two such starts running at once both launch, the later
/// [`complete_start`] overwrites the earlier entry, and the earlier task runs
/// on unregistered until it ends by itself or the process exits.
pub proof fn lemma_concurrent_first_starts_last_wins(
    m: Map<Seq<char>, InstanceView>,
    k: Seq<char>,
    v1: InstanceView,
    v2: InstanceView,
    r1: bool,
    r2: bool,
)
    requires
        !m.contains_key(k),
    ensures
        start_check(m, k, r1).0 == StartStep::Launch,
        start_check(m, k, r2).0 == StartStep::Launch,
        start_check(m, k, r1).1.insert(k, v1).insert(k, v2) == m.insert(k, v2),
{
    assert(m.remove(k) =~= m);
    assert(m.insert(k, v1).insert(k, v2) =~= m.insert(k, v2));
}

/// Starting a workspace whose instance was just registered and still runs
/// reuses that instance: the same port comes back and nothing is launched.
pub proof fn lemma_start_idempotent(m: Map<Seq<char>, InstanceView>, k: Seq<char>, inst: InstanceView)
    ensures
        start_check(m.insert(k, inst), k, true) == (StartStep::Reuse(inst.port), m.insert(k, inst)),
{
}

/// Two ASCII paths that differ only in letter case fold to one key, so a
/// start of the second reuses the live instance of the first.
pub proof fn lemma_case_variants_reuse(
    m: Map<Seq<char>, InstanceView>,
    a: Seq<char>,
    b: Seq<char>,
    inst: InstanceView,
)
    requires
        is_ascii_chars(a),
        is_ascii_chars(b),
        a.len() == b.len(),
        forall|i: int| 0 <= i < a.len() ==> ascii_lower_char(#[trigger] a[i]) == ascii_lower_char(b[i]),
    ensures
        ascii_lower(a) == ascii_lower(b),
        start_check(m.insert(ascii_lower(a), inst), ascii_lower(b), true) == (
            StartStep::Reuse(inst.port),
            m.insert(ascii_lower(a), inst),
        ),
{
    assert(ascii_lower(a) =~= ascii_lower(b));
}

/// Once the task of a registered instance has finished, a start evicts the
/// stale entry and the newly launched instance, with its own port, takes
/// its place.
pub proof fn lemma_stale_relaunch(m: Map<Seq<char>, InstanceView>, k: Seq<char>, fresh: InstanceView)
    ensures
        start_check(m, k, false).0 == StartStep::Launch,
        start_check(m, k, false).1.insert(k, fresh) == m.insert(k, fresh),
        m.insert(k, fresh)[k].port == fresh.port,
{
    assert(m.remove(k).insert(k, fresh) =~= m.insert(k, fresh));
}

/// Stop-all with an exempt workspace among three removes the other two and
/// leaves the exempt one registered with its port unchanged.
pub proof fn lemma_stop_all_exemption(
    m: Map<Seq<char>, InstanceView>,
    a: Seq<char>,
    b: Seq<char>,
    c: Seq<char>,
)
    requires
        m.contains_key(a),
        m.contains_key(b),
        m.contains_key(c),
        a != b,
        b != c,
        a != c,
    ensures
        keep_only(m, Some(b)).contains_key(b),
        keep_only(m, Some(b))[b] == m[b],
        !keep_only(m, Some(b)).contains_key(a),
        !keep_only(m, Some(b)).contains_key(c),
        drop_all_but(m, Some(b)).contains_key(a),
        drop_all_but(m, Some(b)).contains_key(c),
        !drop_all_but(m, Some(b)).contains_key(b),
{
}

/// Steps of starts for two distinct keys commute: neither the registry
/// check nor the registration for `k1` changes the step taken for `k2`, and
/// each pair of steps leaves the same registry in either order. So every
/// interleaving of two concurrent starts for distinct keys ends as if one
/// start ran after the other.
pub proof fn lemma_distinct_key_steps_commute(
    m: Map<Seq<char>, InstanceView>,
    k1: Seq<char>,
    k2: Seq<char>,
    r1: bool,
    r2: bool,
    v1: InstanceView,
    v2: InstanceView,
)
    requires
        k1 != k2,
    ensures
        start_check(start_check(m, k1, r1).1, k2, r2).0 == start_check(m, k2, r2).0,
        start_check(m.insert(k1, v1), k2, r2).0 == start_check(m, k2, r2).0,
        start_check(start_check(m, k1, r1).1, k2, r2).1 == start_check(start_check(m, k2, r2).1, k1, r1).1,
        start_check(m.insert(k1, v1), k2, r2).1 == start_check(m, k2, r2).1.insert(k1, v1),
        m.insert(k1, v1).insert(k2, v2) == m.insert(k2, v2).insert(k1, v1),
{
    let a = start_check(m, k1, r1).1;
    let b = start_check(m, k2, r2).1;
    assert(start_check(a, k2, r2).1 =~= start_check(b, k1, r1).1);
    assert(start_check(m.insert(k1, v1), k2, r2).1 =~= b.insert(k1, v1));
    assert(m.insert(k1, v1).insert(k2, v2) =~= m.insert(k2, v2).insert(k1, v1));
}

/// Two starts for distinct keys that both launch register both instances,
/// each under its own key with its own port, and leave every other entry as
/// it was.
pub proof fn lemma_distinct_starts_register_both(
    m: Map<Seq<char>, InstanceView>,
    k1: Seq<char>,
    k2: Seq<char>,
    r1: bool,
    r2: bool,
    v1: InstanceView,
    v2: InstanceView,
)
    requires
        k1 != k2,
        start_check(m, k1, r1).0 == StartStep::Launch,
        start_check(m, k2, r2).0 == StartStep::Launch,
    ensures
        ({
            let f = start_check(start_check(m, k1, r1).1, k2, r2).1.insert(k1, v1).insert(k2, v2);
            &&& f.contains_key(k1) && f[k1] == v1
            &&& f.contains_key(k2) && f[k2] == v2
            &&& forall|k: Seq<char>|
                k != k1 && k != k2 ==> (#[trigger] f.contains_key(k) == m.contains_key(k)) && (
                m.contains_key(k) ==> f[k] == m[k])
        }),
{
}

/// Firing a shutdown signal a second time changes nothing.
pub proof fn lemma_fire_twice(v: InstanceView)
    ensures
        fired(fired(v)) == fired(v),
{
}

} // verus!
