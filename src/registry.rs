use crate::instance::{fired, GGInstance, InstanceView};
use vstd::prelude::*;

verus! {

/// One registry entry: a normalized workspace key and its instance.
pub struct Entry {
    pub key: String,
    pub instance: GGInstance,
}

/// The map that a sequence of entries describes; a later entry for a key
/// overrides an earlier one.
pub open spec fn map_of(s: Seq<Entry>) -> Map<Seq<char>, InstanceView>
    decreases s.len(),
{
    if s.len() == 0 {
        Map::empty()
    } else {
        map_of(s.drop_last()).insert(s.last().key@, s.last().instance@)
    }
}

/// No two entries share a key.
pub open spec fn unique_keys(s: Seq<Entry>) -> bool {
    forall|i: int, j: int| 0 <= i < j < s.len() ==> s[i].key@ != s[j].key@
}

/// The characters of an optional key.
pub open spec fn key_view(o: Option<String>) -> Option<Seq<char>> {
    match o {
        Some(e) => Some(e@),
        None => None,
    }
}

/// What stop-all leaves: the exempt key's entry, if there is one.
pub open spec fn keep_only(
    m: Map<Seq<char>, InstanceView>,
    except: Option<Seq<char>>,
) -> Map<Seq<char>, InstanceView> {
    match except {
        Some(e) => m.restrict(set![e]),
        None => Map::empty(),
    }
}

/// What stop-all takes out: every entry but the exempt key's.
pub open spec fn drop_all_but(
    m: Map<Seq<char>, InstanceView>,
    except: Option<Seq<char>>,
) -> Map<Seq<char>, InstanceView> {
    match except {
        Some(e) => m.remove(e),
        None => m,
    }
}

/// The port that a lookup of `k` reports, given whether the instance's task
/// is still running: stale entries are not reported.
pub open spec fn live_port(m: Map<Seq<char>, InstanceView>, k: Seq<char>, running: bool) -> Option<
    u16,
> {
    if m.contains_key(k) && running {
        Some(m[k].port)
    } else {
        None
    }
}

proof fn lemma_map_of_contains(s: Seq<Entry>, k: Seq<char>)
    ensures
        map_of(s).contains_key(k) <==> exists|i: int| 0 <= i < s.len() && s[i].key@ == k,
    decreases s.len(),
{
    if s.len() > 0 {
        lemma_map_of_contains(s.drop_last(), k);
        if map_of(s.drop_last()).contains_key(k) {
            let i = choose|i: int| 0 <= i < s.drop_last().len() && s.drop_last()[i].key@ == k;
            assert(s[i].key@ == k);
        }
        if exists|i: int| 0 <= i < s.len() && s[i].key@ == k {
            let i = choose|i: int| 0 <= i < s.len() && s[i].key@ == k;
            if i < s.len() - 1 {
                assert(s.drop_last()[i].key@ == k);
            }
        }
    }
}

proof fn lemma_map_of_value(s: Seq<Entry>, i: int)
    requires
        unique_keys(s),
        0 <= i < s.len(),
    ensures
        map_of(s).contains_key(s[i].key@),
        map_of(s)[s[i].key@] == s[i].instance@,
    decreases s.len(),
{
    if i < s.len() - 1 {
        assert(s.drop_last()[i] == s[i]);
        lemma_map_of_value(s.drop_last(), i);
    }
}

proof fn lemma_map_of_remove(s: Seq<Entry>, i: int)
    requires
        unique_keys(s),
        0 <= i < s.len(),
    ensures
        map_of(s.remove(i)) =~= map_of(s).remove(s[i].key@),
        unique_keys(s.remove(i)),
    decreases s.len(),
{
    let k = s[i].key@;
    let dl = s.drop_last();
    if i == s.len() - 1 {
        assert(s.remove(i) =~= dl);
        lemma_map_of_contains(dl, k);
    } else {
        assert(s.remove(i).drop_last() =~= dl.remove(i));
        assert(dl[i] == s[i]);
        lemma_map_of_remove(dl, i);
        assert(s.remove(i).last() == s.last());
    }
}

/// Firing each record of a sequence keeps its keys and fires each value of
/// the map it describes.
pub proof fn lemma_map_of_fired(s: Seq<Entry>, t: Seq<Entry>)
    requires
        s.len() == t.len(),
        forall|j: int|
            0 <= j < s.len() ==> #[trigger] t[j].key@ == s[j].key@ && t[j].instance@ == fired(
                s[j].instance@,
            ),
    ensures
        map_of(t).dom() == map_of(s).dom(),
        forall|k: Seq<char>| #[trigger]
            map_of(t).contains_key(k) ==> map_of(t)[k] == fired(map_of(s)[k]),
        unique_keys(s) ==> unique_keys(t),
    decreases s.len(),
{
    if s.len() > 0 {
        let (sd, td) = (s.drop_last(), t.drop_last());
        assert forall|j: int| 0 <= j < sd.len() implies #[trigger] td[j].key@ == sd[j].key@
            && td[j].instance@ == fired(sd[j].instance@) by {
            assert(td[j] == t[j] && sd[j] == s[j]);
        }
        lemma_map_of_fired(sd, td);
        assert(t.last().key@ == s.last().key@);
        assert(map_of(t).dom() =~= map_of(s).dom());
    }
    if unique_keys(s) {
        assert forall|i: int, j: int| 0 <= i < j < t.len() implies t[i].key@ != t[j].key@ by {
            assert(t[i].key@ == s[i].key@ && t[j].key@ == s[j].key@);
        }
    }
}

proof fn lemma_push_fresh(s: Seq<Entry>, e: Entry)
    requires
        unique_keys(s),
        !map_of(s).contains_key(e.key@),
    ensures
        unique_keys(s.push(e)),
        map_of(s.push(e)) == map_of(s).insert(e.key@, e.instance@),
{
    lemma_map_of_contains(s, e.key@);
    assert(s.push(e).drop_last() =~= s);
}

/// Whether `key` is the exempt key of a stop-all.
fn is_exempt(except: &Option<String>, key: &String) -> (r: bool)
    ensures
        r == (except.is_some() && except.unwrap()@ == key@),
{
    match except {
        Some(e) => *e == *key,
        None => false,
    }
}

/// The map from normalized workspace key to live instance record.
pub struct Registry {
    entries: Vec<Entry>,
}

impl View for Registry {
    type V = Map<Seq<char>, InstanceView>;

    closed spec fn view(&self) -> Map<Seq<char>, InstanceView> {
        map_of(self.entries@)
    }
}

impl Registry {
    /// The registry holds at most one entry per key.
    pub closed spec fn wf(&self) -> bool {
        unique_keys(self.entries@)
    }

    /// An empty registry.
    pub fn new() -> (r: Self)
        ensures
            r.wf(),
            r@ == Map::<Seq<char>, InstanceView>::empty(),
    {
        Registry { entries: Vec::new() }
    }

    /// The index of the entry for `key`, if there is one.
    fn position(&self, key: &String) -> (r: Option<usize>)
        requires
            self.wf(),
        ensures
            r.is_some() <==> self@.contains_key(key@),
            r.is_some() ==> r.unwrap() < self.entries@.len() && self.entries@[r.unwrap() as int].key@
                == key@,
    {
        let mut i: usize = 0;
        while i < self.entries.len()
            invariant
                i <= self.entries@.len(),
                forall|j: int| 0 <= j < i ==> self.entries@[j].key@ != key@,
            decreases self.entries@.len() - i,
        {
            if self.entries[i].key == *key {
                proof {
                    lemma_map_of_contains(self.entries@, key@);
                }
                return Some(i);
            }
            i = i + 1;
        }
        proof {
            lemma_map_of_contains(self.entries@, key@);
        }
        None
    }

    /// Whether the registry has an entry for `key`, live or stale.
    pub fn contains(&self, key: &String) -> (r: bool)
        requires
            self.wf(),
        ensures
            r == self@.contains_key(key@),
    {
        self.position(key).is_some()
    }

    /// The port of the entry for `key`, live or stale.
    pub fn port_of(&self, key: &String) -> (r: Option<u16>)
        requires
            self.wf(),
        ensures
            r == (if self@.contains_key(key@) {
                Some(self@[key@].port)
            } else {
                None
            }),
    {
        match self.position(key) {
            Some(i) => {
                proof {
                    lemma_map_of_value(self.entries@, i as int);
                }
                Some(self.entries[i].instance.port())
            },
            None => None,
        }
    }

    /// Whether an entry for `key` exists and its task is still running. The
    /// answer reflects the moment of the call: a task may finish at any time.
    pub fn task_running(&self, key: &String) -> (r: bool)
        requires
            self.wf(),
        ensures
            r ==> self@.contains_key(key@),
    {
        match self.position(key) {
            Some(i) => self.entries[i].instance.is_running(),
            None => false,
        }
    }

    /// The port that a lookup of `key` reports, given whether the task
    /// registered for it still runs: stale entries are not reported.
    pub fn lookup_step(&self, key: &String, running: bool) -> (r: Option<u16>)
        requires
            self.wf(),
        ensures
            r == live_port(self@, key@, running),
    {
        if running {
            self.port_of(key)
        } else {
            None
        }
    }

    /// The port of the live instance for `key`. An entry whose task has
    /// finished is stale and is not reported; it stays in the registry.
    pub fn lookup(&self, key: &String) -> (r: Option<u16>)
        requires
            self.wf(),
        ensures
            exists|running: bool| r == live_port(self@, key@, running),
    {
        let running = self.task_running(key);
        self.lookup_step(key, running)
    }

    /// Removes and returns the entry for `key`, if any.
    pub fn remove(&mut self, key: &String) -> (r: Option<GGInstance>)
        requires
            old(self).wf(),
        ensures
            final(self).wf(),
            final(self)@ == old(self)@.remove(key@),
            r.is_some() <==> old(self)@.contains_key(key@),
            r.is_some() ==> r.unwrap()@ == old(self)@[key@],
    {
        match self.position(key) {
            Some(i) => {
                proof {
                    lemma_map_of_value(self.entries@, i as int);
                    lemma_map_of_remove(self.entries@, i as int);
                }
                let e = self.entries.remove(i);
                Some(e.instance)
            },
            None => {
                assert(self@.remove(key@) =~= self@);
                None
            },
        }
    }

    /// Stores `instance` under `key`, replacing any entry for that key.
    pub fn insert(&mut self, key: String, instance: GGInstance)
        requires
            old(self).wf(),
        ensures
            final(self).wf(),
            final(self)@ == old(self)@.insert(key@, instance@),
    {
        let ghost m = self@;
        match self.position(&key) {
            Some(i) => {
                proof {
                    lemma_map_of_remove(self.entries@, i as int);
                }
                self.entries.remove(i);
            },
            None => {
                assert(self@.remove(key@) =~= self@);
            },
        }
        assert(self@ == m.remove(key@));
        let e = Entry { key, instance };
        proof {
            lemma_push_fresh(self.entries@, e);
        }
        self.entries.push(e);
        assert(self@ =~= m.insert(key@, instance@));
    }

    /// Removes and returns, in one pass, every entry whose key is not
    /// `except`; with no exempt key, every entry.
    pub fn remove_all_except(&mut self, except: &Option<String>) -> (r: Vec<Entry>)
        requires
            old(self).wf(),
        ensures
            final(self).wf(),
            final(self)@ == keep_only(old(self)@, key_view(*except)),
            map_of(r@) == drop_all_but(old(self)@, key_view(*except)),
            unique_keys(r@),
    {
        let ghost ex = key_view(*except);
        let ghost s = self.entries@;
        let mut rest: Vec<Entry> = Vec::new();
        std::mem::swap(&mut self.entries, &mut rest);
        let mut removed: Vec<Entry> = Vec::new();
        let ghost mut i: int = 0;
        assert(s.subrange(0, 0) =~= Seq::<Entry>::empty());
        assert(keep_only(Map::empty(), ex) =~= Map::empty());
        assert(drop_all_but(Map::empty(), ex) =~= Map::empty());
        while rest.len() > 0
            invariant
                0 <= i <= s.len(),
                unique_keys(s),
                rest@ == s.subrange(i, s.len() as int),
                ex == key_view(*except),
                self.entries@.len() <= 1,
                self.entries@.len() == 1 ==> ex is Some && self.entries@[0].key@ == ex.unwrap()
                    && exists|j: int| 0 <= j < i && s[j].key@ == ex.unwrap(),
                unique_keys(self.entries@),
                map_of(self.entries@) == keep_only(map_of(s.subrange(0, i)), ex),
                map_of(removed@) == drop_all_but(map_of(s.subrange(0, i)), ex),
                unique_keys(removed@),
            decreases rest@.len(),
        {
            let e = rest.remove(0);
            let ghost prev = s.subrange(0, i);
            assert(e == s[i]);
            assert(s.subrange(0, i + 1).drop_last() =~= prev);
            assert(map_of(s.subrange(0, i + 1)) == map_of(prev).insert(e.key@, e.instance@));
            proof {
                i = i + 1;
            }
            assert(rest@ =~= s.subrange(i, s.len() as int));
            let ghost k = e.key@;
            let ghost v = e.instance@;
            if is_exempt(except, &e.key) {
                proof {
                    if self.entries@.len() == 1 {
                        let j = choose|j: int| 0 <= j < i - 1 && s[j].key@ == ex.unwrap();
                        assert(s[j].key@ == s[i - 1].key@);
                    }
                }
                let ghost kept = self.entries@;
                assert(kept.push(e).drop_last() =~= kept);
                self.entries.push(e);
                assert(keep_only(map_of(prev).insert(k, v), ex) =~= keep_only(map_of(prev), ex).insert(k, v));
                assert(drop_all_but(map_of(prev).insert(k, v), ex) =~= drop_all_but(map_of(prev), ex));
            } else {
                let ghost gone = removed@;
                proof {
                    if map_of(gone).contains_key(k) {
                        lemma_map_of_contains(prev, k);
                        let j = choose|j: int| 0 <= j < prev.len() && prev[j].key@ == k;
                        assert(s[j].key@ == s[i - 1].key@);
                    }
                    lemma_push_fresh(gone, e);
                }
                removed.push(e);
                assert(keep_only(map_of(prev).insert(k, v), ex) =~= keep_only(map_of(prev), ex));
                assert(drop_all_but(map_of(prev).insert(k, v), ex) =~= drop_all_but(map_of(prev), ex).insert(k, v));
            }
        }
        assert(s.subrange(0, s.len() as int) =~= s);
        removed
    }
}

} // verus!
