use vstd::prelude::*;

verus! {

/// The (key, value) pairs of `es`, keys seen as character sequences.
pub open spec fn entry_views<V>(es: Seq<(String, V)>) -> Seq<(Seq<char>, V)> {
    es.map_values(|e: (String, V)| (e.0@, e.1))
}

pub open spec fn keys_of<V>(es: Seq<(Seq<char>, V)>) -> Seq<Seq<char>> {
    es.map_values(|e: (Seq<char>, V)| e.0)
}

/// The mapping that recording each pair of `es` in turn builds: a later pair
/// replaces an earlier one with the same key.
pub open spec fn map_of<V>(es: Seq<(Seq<char>, V)>) -> Map<Seq<char>, V>
    decreases es.len(),
{
    if es.len() == 0 {
        Map::empty()
    } else {
        map_of(es.drop_last()).insert(es.last().0, es.last().1)
    }
}

proof fn lemma_map_of<V>(es: Seq<(Seq<char>, V)>)
    ensures
        forall|k: Seq<char>|
            #[trigger] map_of(es).contains_key(k) <==> keys_of(es).contains(k),
        keys_of(es).no_duplicates() ==> forall|i: int|
            0 <= i < es.len() ==> #[trigger] map_of(es)[es[i].0] == es[i].1,
    decreases es.len(),
{
    if es.len() > 0 {
        let d = es.drop_last();
        let last = es.last();
        lemma_map_of(d);
        let kd = keys_of(d);
        let ke = keys_of(es);
        assert(ke =~= kd.push(last.0));
        assert(map_of(es) == map_of(d).insert(last.0, last.1));
        assert forall|k: Seq<char>| #[trigger]
            map_of(es).contains_key(k) <==> ke.contains(k) by {
            if kd.contains(k) {
                let j = choose|j: int| 0 <= j < kd.len() && kd[j] == k;
                assert(ke[j] == k);
            }
            if ke.contains(k) {
                let j = choose|j: int| 0 <= j < ke.len() && ke[j] == k;
                if j < d.len() {
                    assert(kd[j] == k);
                } else {
                    assert(k == last.0);
                }
            }
            if k == last.0 {
                assert(ke[es.len() - 1] == k);
            }
        }
        if ke.no_duplicates() {
            assert(kd.no_duplicates()) by {
                assert forall|a: int, b: int|
                    0 <= a < kd.len() && 0 <= b < kd.len() && a != b implies kd[a] != kd[b] by {
                    assert(ke[a] == kd[a]);
                    assert(ke[b] == kd[b]);
                }
            }
            assert forall|i: int| 0 <= i < es.len() implies #[trigger] map_of(es)[es[i].0]
                == es[i].1 by {
                if i < d.len() {
                    assert(ke[i] == es[i].0);
                    assert(ke[es.len() - 1] == last.0);
                    assert(es[i] == d[i]);
                    assert(map_of(d)[d[i].0] == d[i].1);
                }
            }
        }
    }
}

/// Values under text keys, each key once, in the order first recorded.
pub struct Keyed<V> {
    entries: Vec<(String, V)>,
}

impl<V> Keyed<V> {
    pub closed spec fn view(&self) -> Map<Seq<char>, V> {
        map_of(entry_views(self.entries@))
    }

    /// Each key is recorded once.
    pub closed spec fn wf(&self) -> bool {
        keys_of(entry_views(self.entries@)).no_duplicates()
    }
}

impl<V: Copy> Keyed<V> {
    /// No keys.
    pub fn new() -> (r: Self)
        ensures
            r.wf(),
            r.view() == Map::<Seq<char>, V>::empty(),
    {
        let r = Keyed { entries: Vec::new() };
        assert(keys_of(entry_views(r.entries@)) =~= Seq::<Seq<char>>::empty());
        r
    }

    fn find(&self, key: &String) -> (r: Option<usize>)
        requires
            self.wf(),
        ensures
            match r {
                Some(i) => i < self.entries@.len() && self.entries@[i as int].0@ == key@,
                None => !self.view().contains_key(key@),
            },
    {
        proof {
            lemma_map_of(entry_views(self.entries@));
        }
        let mut i: usize = 0;
        while i < self.entries.len()
            invariant
                i <= self.entries@.len(),
                forall|j: int| 0 <= j < i ==> (#[trigger] self.entries@[j]).0@ != key@,
            decreases self.entries@.len() - i,
        {
            if self.entries[i].0 == *key {
                return Some(i);
            }
            i = i + 1;
        }
        proof {
            let ks = keys_of(entry_views(self.entries@));
            if ks.contains(key@) {
                let j = ks.index_of(key@);
                assert(self.entries@[j].0@ == ks[j]);
            }
        }
        None
    }

    /// The value under `key`, if any.
    pub fn get(&self, key: &String) -> (r: Option<V>)
        requires
            self.wf(),
        ensures
            r == if self.view().contains_key(key@) {
                Some(self.view()[key@])
            } else {
                None::<V>
            },
    {
        proof {
            lemma_map_of(entry_views(self.entries@));
        }
        match self.find(key) {
            Some(i) => {
                let ghost ev = entry_views(self.entries@);
                assert(keys_of(ev)[i as int] == key@);
                assert(map_of(ev)[ev[i as int].0] == ev[i as int].1);
                Some(self.entries[i].1)
            },
            None => None,
        }
    }

    /// Records `value` under `key`, replacing what was there.
    pub fn set(&mut self, key: &String, value: V)
        requires
            old(self).wf(),
        ensures
            final(self).wf(),
            final(self).view() == old(self).view().insert(key@, value),
    {
        proof {
            lemma_map_of(entry_views(self.entries@));
        }
        let ghost old_es = entry_views(self.entries@);
        match self.find(key) {
            Some(i) => {
                self.entries.set(i, (key.clone(), value));
                let ghost new_es = entry_views(self.entries@);
                assert(new_es =~= old_es.update(i as int, (key@, value)));
                assert(keys_of(new_es) =~= keys_of(old_es));
                proof {
                    lemma_map_of(new_es);
                    assert forall|k: Seq<char>| #[trigger] map_of(new_es).contains_key(k) implies
                        map_of(new_es)[k] == map_of(old_es).insert(key@, value)[k] by {
                        let nk = keys_of(new_es);
                        let j = choose|j: int| 0 <= j < nk.len() && nk[j] == k;
                        assert(nk[j] == new_es[j].0);
                        assert(map_of(new_es)[new_es[j].0] == new_es[j].1);
                        if j != i {
                            assert(nk[i as int] == key@);
                            assert(k != key@);
                            assert(old_es[j] == new_es[j]);
                            assert(map_of(old_es)[old_es[j].0] == old_es[j].1);
                        }
                    }
                    assert forall|k: Seq<char>| #[trigger]
                        map_of(old_es).insert(key@, value).contains_key(k) implies map_of(
                        new_es,
                    ).contains_key(k) by {
                        if k == key@ {
                            assert(keys_of(new_es)[i as int] == k);
                        }
                    }
                }
                assert(map_of(new_es) =~= map_of(old_es).insert(key@, value));
            },
            None => {
                self.entries.push((key.clone(), value));
                let ghost new_es = entry_views(self.entries@);
                assert(new_es =~= old_es.push((key@, value)));
                assert(new_es.drop_last() =~= old_es);
                assert(keys_of(new_es) =~= keys_of(old_es).push(key@));
                assert(!keys_of(old_es).contains(key@));
                assert(keys_of(new_es).no_duplicates()) by {
                    assert forall|a: int, b: int|
                        0 <= a < keys_of(new_es).len() && 0 <= b < keys_of(new_es).len() && a
                            != b implies keys_of(new_es)[a] != keys_of(new_es)[b] by {
                        if a < old_es.len() && b < old_es.len() {
                        } else if a < old_es.len() {
                            assert(keys_of(old_es)[a] == keys_of(new_es)[a]);
                        } else if b < old_es.len() {
                            assert(keys_of(old_es)[b] == keys_of(new_es)[b]);
                        }
                    }
                }
            },
        }
    }

    /// Forgets `key`; a key not recorded is fine.
    pub fn remove(&mut self, key: &String)
        requires
            old(self).wf(),
        ensures
            final(self).wf(),
            final(self).view() == old(self).view().remove(key@),
    {
        proof {
            lemma_map_of(entry_views(self.entries@));
        }
        let ghost old_es = entry_views(self.entries@);
        match self.find(key) {
            Some(i) => {
                self.entries.remove(i);
                let ghost new_es = entry_views(self.entries@);
                assert(new_es =~= old_es.remove(i as int));
                let ghost ok = keys_of(old_es);
                let ghost nk = keys_of(new_es);
                assert(nk =~= ok.remove(i as int));
                assert(nk.no_duplicates()) by {
                    assert forall|a: int, b: int|
                        0 <= a < nk.len() && 0 <= b < nk.len() && a != b implies nk[a]
                            != nk[b] by {
                        let a2 = if a < i {
                            a
                        } else {
                            a + 1
                        };
                        let b2 = if b < i {
                            b
                        } else {
                            b + 1
                        };
                        assert(nk[a] == ok[a2]);
                        assert(nk[b] == ok[b2]);
                    }
                }
                proof {
                    lemma_map_of(new_es);
                    assert forall|k: Seq<char>| #[trigger] map_of(new_es).contains_key(k) implies
                        map_of(old_es).remove(key@).contains_key(k) && map_of(new_es)[k]
                        == map_of(old_es)[k] by {
                        let j = nk.index_of(k);
                        let j2 = if j < i {
                            j
                        } else {
                            j + 1
                        };
                        assert(new_es[j] == old_es[j2]);
                        assert(ok[j2] == k);
                        assert(ok[i as int] == key@);
                    }
                    assert forall|k: Seq<char>| #[trigger]
                        map_of(old_es).remove(key@).contains_key(k) implies map_of(
                        new_es,
                    ).contains_key(k) by {
                        let j = ok.index_of(k);
                        assert(ok[i as int] == key@);
                        if j < i {
                            assert(nk[j] == k);
                        } else {
                            assert(nk[j - 1] == k);
                        }
                    }
                }
                assert(map_of(new_es) =~= map_of(old_es).remove(key@));
            },
            None => {
                assert(map_of(old_es) =~= map_of(old_es).remove(key@));
            },
        }
    }

    /// The recorded pairs.
    pub fn entries(&self) -> (r: Vec<(String, V)>)
        ensures
            map_of(entry_views(r@)) == self.view(),
    {
        let mut out: Vec<(String, V)> = Vec::new();
        let mut i: usize = 0;
        while i < self.entries.len()
            invariant
                i <= self.entries@.len(),
                entry_views(out@) == entry_views(self.entries@).take(i as int),
            decreases self.entries@.len() - i,
        {
            let e = &self.entries[i];
            let ghost before = entry_views(out@);
            out.push((e.0.clone(), e.1));
            assert(entry_views(out@) =~= before.push(entry_views(self.entries@)[i as int]));
            assert(entry_views(self.entries@).take(i + 1) =~= entry_views(self.entries@).take(
                i as int,
            ).push(entry_views(self.entries@)[i as int]));
            i = i + 1;
        }
        assert(entry_views(self.entries@).take(i as int) =~= entry_views(self.entries@));
        out
    }

    /// Records the pairs of `es` in turn; a later pair replaces an earlier one
    /// with the same key.
    pub fn from_entries(es: Vec<(String, V)>) -> (r: Self)
        ensures
            r.wf(),
            r.view() == map_of(entry_views(es@)),
    {
        let mut r = Self::new();
        let mut i: usize = 0;
        assert(entry_views(es@).take(0) =~= Seq::<(Seq<char>, V)>::empty());
        while i < es.len()
            invariant
                i <= es@.len(),
                r.wf(),
                r.view() == map_of(entry_views(es@).take(i as int)),
            decreases es@.len() - i,
        {
            r.set(&es[i].0, es[i].1);
            assert(entry_views(es@).take(i + 1).drop_last() =~= entry_views(es@).take(i as int));
            i = i + 1;
        }
        assert(entry_views(es@).take(i as int) =~= entry_views(es@));
        r
    }
}

/// What a map holds under `key`, if anything.
pub open spec fn lookup<V>(m: Map<Seq<char>, V>, key: Seq<char>) -> Option<V> {
    if m.contains_key(key) {
        Some(m[key])
    } else {
        None
    }
}

/// Each caller's default departure (stop and lead time in minutes) and
/// default destination (stop), keyed by the caller's identifier.
pub struct PreferenceStore {
    departures: Keyed<(usize, u64)>,
    destinations: Keyed<usize>,
}

impl PreferenceStore {
    pub closed spec fn wf(&self) -> bool {
        self.departures.wf() && self.destinations.wf()
    }

    /// Default departure stop and lead time, by caller.
    pub closed spec fn departures(&self) -> Map<Seq<char>, (usize, u64)> {
        self.departures.view()
    }

    /// Default destination stop, by caller.
    pub closed spec fn destinations(&self) -> Map<Seq<char>, usize> {
        self.destinations.view()
    }

    /// A store with no caller.
    pub fn new() -> (r: Self)
        ensures
            r.wf(),
            r.departures() == Map::<Seq<char>, (usize, u64)>::empty(),
            r.destinations() == Map::<Seq<char>, usize>::empty(),
    {
        PreferenceStore { departures: Keyed::new(), destinations: Keyed::new() }
    }

    /// The caller's default departure stop and lead time.
    pub fn get_departure(&self, caller: &str) -> (r: Option<(usize, u64)>)
        requires
            self.wf(),
        ensures
            r == lookup(self.departures(), caller@),
    {
        self.departures.get(&caller.to_owned())
    }

    /// Records the caller's default departure, replacing any earlier one.
    pub fn set_departure(&mut self, caller: &str, stop_id: usize, lead_minutes: u64)
        requires
            old(self).wf(),
        ensures
            final(self).wf(),
            final(self).departures() == old(self).departures().insert(
                caller@,
                (stop_id, lead_minutes),
            ),
            final(self).destinations() == old(self).destinations(),
    {
        self.departures.set(&caller.to_owned(), (stop_id, lead_minutes));
    }

    /// The caller's default destination stop.
    pub fn get_destination(&self, caller: &str) -> (r: Option<usize>)
        requires
            self.wf(),
        ensures
            r == lookup(self.destinations(), caller@),
    {
        self.destinations.get(&caller.to_owned())
    }

    /// Records the caller's default destination, replacing any earlier one.
    pub fn set_destination(&mut self, caller: &str, stop_id: usize)
        requires
            old(self).wf(),
        ensures
            final(self).wf(),
            final(self).destinations() == old(self).destinations().insert(caller@, stop_id),
            final(self).departures() == old(self).departures(),
    {
        self.destinations.set(&caller.to_owned(), stop_id);
    }

    /// Forgets everything recorded for the caller; nothing to forget is fine.
    pub fn clear_all(&mut self, caller: &str)
        requires
            old(self).wf(),
        ensures
            final(self).wf(),
            final(self).departures() == old(self).departures().remove(caller@),
            final(self).destinations() == old(self).destinations().remove(caller@),
    {
        let key = caller.to_owned();
        self.departures.remove(&key);
        self.destinations.remove(&key);
    }

    /// The recorded default departures, one pair per caller.
    pub fn departure_entries(&self) -> (r: Vec<(String, (usize, u64))>)
        requires
            self.wf(),
        ensures
            map_of(entry_views(r@)) == self.departures(),
    {
        self.departures.entries()
    }

    /// The recorded default destinations, one pair per caller.
    pub fn destination_entries(&self) -> (r: Vec<(String, usize)>)
        requires
            self.wf(),
        ensures
            map_of(entry_views(r@)) == self.destinations(),
    {
        self.destinations.entries()
    }

    /// Rebuilds a store from recorded pairs; where a caller appears twice, the
    /// later pair wins.
    pub fn from_entries(
        departures: Vec<(String, (usize, u64))>,
        destinations: Vec<(String, usize)>,
    ) -> (r: Self)
        ensures
            r.wf(),
            r.departures() == map_of(entry_views(departures@)),
            r.destinations() == map_of(entry_views(destinations@)),
    {
        PreferenceStore {
            departures: Keyed::from_entries(departures),
            destinations: Keyed::from_entries(destinations),
        }
    }
}

/// Recording a default departure and reading it back gives what was recorded;
/// after a caller's data is cleared, neither of its defaults remains.
pub proof fn lemma_store_read_back(
    before: PreferenceStore,
    after_set: PreferenceStore,
    after_clear: PreferenceStore,
    caller: Seq<char>,
    stop_id: usize,
    lead_minutes: u64,
)
    requires
        after_set.departures() == before.departures().insert(caller, (stop_id, lead_minutes)),
        after_clear.departures() == before.departures().remove(caller),
        after_clear.destinations() == before.destinations().remove(caller),
    ensures
        lookup(after_set.departures(), caller) == Some((stop_id, lead_minutes)),
        lookup(after_clear.departures(), caller) is None,
        lookup(after_clear.destinations(), caller) is None,
{
}

/// Writing out a store's pairs and rebuilding a store from them gives back
/// the same contents.
pub proof fn lemma_snapshot_round_trip(
    store: PreferenceStore,
    departures: Seq<(String, (usize, u64))>,
    destinations: Seq<(String, usize)>,
    restored: PreferenceStore,
)
    requires
        map_of(entry_views(departures)) == store.departures(),
        map_of(entry_views(destinations)) == store.destinations(),
        restored.departures() == map_of(entry_views(departures)),
        restored.destinations() == map_of(entry_views(destinations)),
    ensures
        restored.departures() == store.departures(),
        restored.destinations() == store.destinations(),
{
}

} // verus!
