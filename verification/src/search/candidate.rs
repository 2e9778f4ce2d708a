//! Candidate sets: the entities a search has found so far, each with the
//! evidence that found it.
use vstd::prelude::*;

use std::collections::HashMap;

use crate::ids::EntityID;
use crate::search::signal::{Signal, SignalSet};

verus! {

broadcast use vstd::std_specs::hash::group_hash_axioms;

/// The signals that `m` holds for `k`, or none.
pub open spec fn signals_at(m: Map<usize, Seq<Signal>>, k: usize) -> Seq<Signal> {
    if m.contains_key(k) {
        m[k]
    } else {
        seq![]
    }
}

/// `m` with one more signal for `k`.
pub open spec fn with_signal(m: Map<usize, Seq<Signal>>, k: usize, s: Signal) -> Map<
    usize,
    Seq<Signal>,
> {
    m.insert(k, signals_at(m, k).push(s))
}

/// Every candidate of either map, with the signals of `a` followed by those of `b`.
pub open spec fn merged(a: Map<usize, Seq<Signal>>, b: Map<usize, Seq<Signal>>) -> Map<
    usize,
    Seq<Signal>,
> {
    Map::new(
        |k: usize| a.contains_key(k) || b.contains_key(k),
        |k: usize| signals_at(a, k) + signals_at(b, k),
    )
}

/// The candidates of both maps, with the signals of `a` followed by those of `b`.
pub open spec fn common(a: Map<usize, Seq<Signal>>, b: Map<usize, Seq<Signal>>) -> Map<
    usize,
    Seq<Signal>,
> {
    Map::new(|k: usize| a.contains_key(k) && b.contains_key(k), |k: usize| a[k] + b[k])
}

/// A union holds the candidates of either set, and an intersection those of
/// both; each keeps the signals of the first set before those of the second.
pub proof fn lemma_union_intersection_members(a: Map<usize, Seq<Signal>>, b: Map<usize, Seq<Signal>>)
    ensures
        merged(a, b).dom() == a.dom().union(b.dom()),
        common(a, b).dom() == a.dom().intersect(b.dom()),
        forall|k: usize| #[trigger] merged(a, b).contains_key(k) ==> merged(a, b)[k] == signals_at(a, k) + signals_at(b, k),
        forall|k: usize| #[trigger] common(a, b).contains_key(k) ==> common(a, b)[k] == a[k] + b[k],
{
    assert(merged(a, b).dom() =~= a.dom().union(b.dom()));
    assert(common(a, b).dom() =~= a.dom().intersect(b.dom()));
}

/// Adding a signal makes the entity a candidate with that signal last, and
/// counts it once: the number of candidates grows by one exactly when the
/// entity was not a candidate before.
pub proof fn lemma_add_signal_count(m: Map<usize, Seq<Signal>>, k: usize, s: Signal)
    requires
        m.dom().finite(),
    ensures
        with_signal(m, k, s).dom().finite(),
        with_signal(m, k, s).contains_key(k),
        with_signal(m, k, s)[k] == signals_at(m, k).push(s),
        with_signal(m, k, s).len() == m.len() + (if m.contains_key(k) {
            0int
        } else {
            1int
        }),
        forall|j: usize| j != k ==> (#[trigger] with_signal(m, k, s).contains_key(j) == m.contains_key(j)),
{
    assert(with_signal(m, k, s).dom() =~= m.dom().insert(k));
}

/// The candidates after adding each (entity index, signal) in order to `m`.
pub open spec fn with_additions(m: Map<usize, Seq<Signal>>, adds: Seq<(usize, Signal)>) -> Map<usize, Seq<Signal>>
    decreases adds.len(),
{
    if adds.len() == 0 {
        m
    } else {
        with_signal(with_additions(m, adds.drop_last()), adds.last().0, adds.last().1)
    }
}

/// After any run of `add_signal` calls on an empty set, the candidates are
/// exactly the entities added, so their number is the number of distinct
/// entities, not of signals.
pub proof fn lemma_additions_count(adds: Seq<(usize, Signal)>)
    ensures
        with_additions(Map::empty(), adds).dom() == adds.map_values(|a: (usize, Signal)| a.0).to_set(),
        with_additions(Map::empty(), adds).dom().finite(),
        with_additions(Map::empty(), adds).len() == adds.map_values(|a: (usize, Signal)| a.0).to_set().len(),
    decreases adds.len(),
{
    let ks = adds.map_values(|a: (usize, Signal)| a.0);
    if adds.len() == 0 {
        assert(ks.to_set() =~= Set::<usize>::empty());
        assert(with_additions(Map::<usize, Seq<Signal>>::empty(), adds).dom() =~= Set::<usize>::empty());
    } else {
        let init = adds.drop_last();
        lemma_additions_count(init);
        let m = with_additions(Map::empty(), init);
        lemma_add_signal_count(m, adds.last().0, adds.last().1);
        let ki = init.map_values(|a: (usize, Signal)| a.0);
        assert(ks =~= ki.push(adds.last().0));
        assert(ks.to_set() =~= ki.to_set().insert(adds.last().0)) by {
            assert forall|x: usize| ks.to_set().contains(x) <==> ki.to_set().insert(adds.last().0).contains(x) by {
                if ks.contains(x) {
                    let j = choose|j: int| 0 <= j < ks.len() && ks[j] == x;
                    if j < ki.len() {
                        assert(ki[j] == x);
                    }
                }
                if ki.contains(x) {
                    let j = choose|j: int| 0 <= j < ki.len() && ki[j] == x;
                    assert(ks[j] == x);
                }
                if x == adds.last().0 {
                    assert(ks[ki.len() as int] == x);
                }
            }
        }
        assert(with_additions(Map::empty(), adds).dom() =~= m.dom().insert(adds.last().0));
    }
}

/// `m` with one more signal `s` for each entity of `ids`, in order.
pub open spec fn with_signals(m: Map<usize, Seq<Signal>>, ids: Seq<EntityID>, s: Signal) -> Map<
    usize,
    Seq<Signal>,
>
    decreases ids.len(),
{
    if ids.len() == 0 {
        m
    } else {
        with_signal(with_signals(m, ids.drop_last(), s), ids.last().index, s)
    }
}

/// `m` with one more signal `s` for each entity of each list, list by list.
pub open spec fn with_signal_lists(m: Map<usize, Seq<Signal>>, lists: Seq<Seq<EntityID>>, s: Signal) -> Map<
    usize,
    Seq<Signal>,
>
    decreases lists.len(),
{
    if lists.len() == 0 {
        m
    } else {
        with_signals(with_signal_lists(m, lists.drop_last(), s), lists.last(), s)
    }
}

/// An entity found by a search, with the evidence that found it.
#[derive(Debug)]
pub struct Candidate {
    pub entity: EntityID,
    pub signals: SignalSet,
}

/// The candidates of a search, keyed by entity.
#[derive(Debug)]
pub struct CandidateSet {
    entities: HashMap<usize, Candidate>,
}

/// The keys of a map, each once.
fn keys_of(m: &HashMap<usize, Candidate>) -> (r: Vec<usize>)
    ensures
        r@.to_set() == m@.dom(),
        r@.no_duplicates(),
{
    let mut out: Vec<usize> = Vec::new();
    for k in it: m.keys()
        invariant
            out@ =~= it.seq().unref().take(it.index() as int),
            it.seq().unref().to_set() == m@.dom(),
            it.seq().unref().no_duplicates(),
            it.index() == it.seq().len() ==> out@ =~= it.seq().unref(),
    {
        out.push(*k);
    }
    out
}

fn copy_signals(s: &Vec<Signal>) -> (r: Vec<Signal>)
    ensures
        r@ == s@,
{
    let mut r: Vec<Signal> = Vec::new();
    let mut i: usize = 0;
    while i < s.len()
        invariant
            i <= s.len(),
            r@ =~= s@.take(i as int),
        decreases s.len() - i,
    {
        r.push(s[i]);
        i += 1;
    }
    assert(s@.take(s.len() as int) =~= s@);
    r
}

proof fn lemma_push_to_set(s: Seq<usize>, k: usize)
    ensures
        s.push(k).to_set() == s.to_set().insert(k),
{
    assert forall|x: usize| #[trigger] s.push(k).to_set().contains(x) == s.to_set().insert(k).contains(x) by {
        if s.push(k).contains(x) {
            let i = choose|i: int| 0 <= i < s.push(k).len() && s.push(k)[i] == x;
            if i < s.len() {
                assert(s[i] == x);
            }
        }
        if s.contains(x) {
            let i = choose|i: int| 0 <= i < s.len() && s[i] == x;
            assert(s.push(k)[i] == x);
        }
        if x == k {
            assert(s.push(k)[s.len() as int] == k);
        }
    }
    assert(s.push(k).to_set() =~= s.to_set().insert(k));
}

impl CandidateSet {
    /// The candidates: each entity index with its signals.
    pub closed spec fn view(&self) -> Map<usize, Seq<Signal>> {
        self.entities@.map_values(|c: Candidate| c.signals@)
    }

    /// Each candidate is stored under the index of its entity, with at least
    /// one signal.
    pub closed spec fn wf(&self) -> bool {
        forall|k: usize| #[trigger]
            self.entities@.contains_key(k) ==> self.entities@[k].entity.index == k
                && self.entities@[k].signals@.len() > 0
    }

    /// A well-formed set holds finitely many candidates, each with at least
    /// one signal: what `default`, `add_signal`, `union`, `intersection`,
    /// `union_with` and `intersect_with` keep.
    pub proof fn lemma_candidates(&self)
        requires
            self.wf(),
        ensures
            self.view().dom().finite(),
            forall|k: usize| #[trigger] self.view().contains_key(k) ==> self.view()[k].len() > 0,
    {
        assert(self.view().dom() =~= self.entities@.dom());
    }

    /// The candidate for an entity.
    pub fn get(&self, entity: EntityID) -> (r: Option<&Candidate>)
        requires
            self.wf(),
        ensures
            match r {
                Some(c) => self.view().contains_key(entity.index) && c.signals@ == self.view()[entity.index]
                    && c.entity == entity && c.signals@.len() > 0,
                None => !self.view().contains_key(entity.index),
            },
    {
        self.entities.get(&entity.index)
    }

    /// Records one more signal for an entity, making it a candidate if it was not.
    pub fn add_signal(&mut self, entity: EntityID, signal: Signal)
        requires
            old(self).wf(),
        ensures
            final(self).wf(),
            final(self).view() == with_signal(old(self).view(), entity.index, signal),
    {
        let k = entity.index;
        let c = match self.entities.remove(&k) {
            Some(mut c) => {
                c.signals.push(signal);
                c
            },
            None => {
                let mut signals: Vec<Signal> = Vec::new();
                signals.push(signal);
                Candidate { entity, signals }
            },
        };
        self.entities.insert(k, c);
        assert(self.view() =~= with_signal(old(self).view(), k, signal));
    }

    /// Records one signal `s` for each entity of `ids`, in order.
    pub fn add_signals(&mut self, ids: &Vec<EntityID>, s: Signal)
        requires
            old(self).wf(),
        ensures
            final(self).wf(),
            final(self).view() == with_signals(old(self).view(), ids@, s),
    {
        let mut i: usize = 0;
        while i < ids.len()
            invariant
                i <= ids@.len(),
                self.wf(),
                self.view() == with_signals(old(self).view(), ids@.take(i as int), s),
            decreases ids.len() - i,
        {
            assert(ids@.take(i + 1).drop_last() =~= ids@.take(i as int));
            self.add_signal(ids[i], s);
            i += 1;
        }
        assert(ids@.take(ids.len() as int) =~= ids@);
    }

    /// Appends the signals of `other` to those of `self`, candidate by candidate.
    fn absorb(&mut self, other: &CandidateSet)
        requires
            old(self).wf(),
            other.wf(),
        ensures
            final(self).wf(),
            final(self).view() == merged(old(self).view(), other.view()),
    {
        let keys = keys_of(&other.entities);
        let ghost a = self.view();
        let ghost b = other.view();
        let mut i: usize = 0;
        while i < keys.len()
            invariant
                i <= keys@.len(),
                keys@.to_set() == other.entities@.dom(),
                keys@.no_duplicates(),
                b == other.view(),
                other.wf(),
                self.wf(),
                self.view() =~= merged(a, b.restrict(keys@.take(i as int).to_set())),
            decreases keys.len() - i,
        {
            let k = keys[i];
            assert(keys@.to_set().contains(k));
            let theirs = match other.entities.get(&k) {
                Some(c) => copy_signals(&c.signals),
                None => Vec::new(),
            };
            let ghost before = self.view();
            let c = match self.entities.remove(&k) {
                Some(mut c) => {
                    assert(c.entity.index == k);
                    let mut j: usize = 0;
                    let ghost start = c.signals@;
                    while j < theirs.len()
                        invariant
                            c.entity.index == k,
                            j <= theirs@.len(),
                            c.signals@ =~= start + theirs@.take(j as int),
                        decreases theirs.len() - j,
                    {
                        c.signals.push(theirs[j]);
                        j += 1;
                    }
                    assert(theirs@.take(theirs.len() as int) =~= theirs@);
                    c
                },
                None => Candidate { entity: EntityID { index: k }, signals: theirs },
            };
            self.entities.insert(k, c);
            proof {
                let p = keys@.take(i as int).to_set();
                let p2 = keys@.take(i + 1).to_set();
                assert(keys@.take(i + 1) =~= keys@.take(i as int).push(k));
                lemma_push_to_set(keys@.take(i as int), k);
                assert(!keys@.take(i as int).contains(k)) by {
                    if keys@.take(i as int).contains(k) {
                        let x = choose|x: int| 0 <= x < i && keys@.take(i as int)[x] == k;
                        assert(keys@[x] == keys@[i as int]);
                    }
                }
                assert(p2 == p.insert(k));
                assert(!p.contains(k));
                assert(b.contains_key(k));
                assert(theirs@ == b[k]);
                assert(signals_at(before, k) == signals_at(a, k));
                assert(self.view() =~= before.insert(k, signals_at(before, k) + theirs@));
                assert(self.view() =~= merged(a, b.restrict(p2)));
            }
            i += 1;
        }
        proof {
            assert(keys@.take(keys.len() as int) =~= keys@);
            assert(b.restrict(keys@.to_set()) =~= b);
        }
    }

    /// All candidates of either set; a candidate of both keeps the signals of
    /// `self` followed by those of `other`.
    pub fn union(self, other: Self) -> (r: Self)
        requires
            self.wf(),
            other.wf(),
        ensures
            r.wf(),
            r.view() == merged(self.view(), other.view()),
    {
        let mut result = self;
        result.absorb(&other);
        result
    }

    /// The candidates of both sets, with the signals of `self` followed by
    /// those of `other`.
    pub fn intersection(self, other: &Self) -> (r: Self)
        requires
            self.wf(),
            other.wf(),
        ensures
            r.wf(),
            r.view() == common(self.view(), other.view()),
    {
        let keys = keys_of(&self.entities);
        let mut result = CandidateSet { entities: HashMap::new() };
        let ghost a = self.view();
        let ghost b = other.view();
        let mut i: usize = 0;
        while i < keys.len()
            invariant
                i <= keys@.len(),
                keys@.to_set() == self.entities@.dom(),
                keys@.no_duplicates(),
                a == self.view(),
                b == other.view(),
                self.wf(),
                other.wf(),
                result.wf(),
                result.view() =~= common(a, b).restrict(keys@.take(i as int).to_set()),
            decreases keys.len() - i,
        {
            let k = keys[i];
            assert(keys@.to_set().contains(k));
            let ghost before = result.view();
            if let Some(theirs) = other.entities.get(&k) {
                let mine = match self.entities.get(&k) {
                    Some(c) => copy_signals(&c.signals),
                    None => Vec::new(),
                };
                assert(a.contains_key(k) && mine@ == a[k]);
                assert(b.contains_key(k) && theirs.signals@ == b[k]);
                let mut signals = mine;
                let mut j: usize = 0;
                let ghost start = signals@;
                while j < theirs.signals.len()
                    invariant
                        j <= theirs.signals@.len(),
                        signals@ =~= start + theirs.signals@.take(j as int),
                    decreases theirs.signals.len() - j,
                {
                    signals.push(theirs.signals[j]);
                    j += 1;
                }
                assert(theirs.signals@.take(theirs.signals.len() as int) =~= theirs.signals@);
                result.entities.insert(k, Candidate { entity: EntityID { index: k }, signals });
            }
            proof {
                let p = keys@.take(i as int).to_set();
                let p2 = keys@.take(i + 1).to_set();
                assert(keys@.take(i + 1) =~= keys@.take(i as int).push(k));
                lemma_push_to_set(keys@.take(i as int), k);
                assert(p2 == p.insert(k));
                if b.contains_key(k) {
                    assert(result.view() =~= before.insert(k, a[k] + b[k]));
                } else {
                    assert(result.view() == before);
                }
                assert(result.view() =~= common(a, b).restrict(p2));
            }
            i += 1;
        }
        proof {
            assert(keys@.take(keys.len() as int) =~= keys@);
            assert(common(a, b).restrict(keys@.to_set()) =~= common(a, b));
        }
        result
    }

    /// Adds every signal of `other` to this set, candidate by candidate.
    pub fn union_with(&mut self, other: CandidateSet)
        requires
            old(self).wf(),
            other.wf(),
        ensures
            final(self).wf(),
            final(self).view() == merged(old(self).view(), other.view()),
    {
        self.absorb(&other);
    }

    /// Keeps only the candidates that `other` also has; their signals are kept as they are.
    pub fn intersect_with(&mut self, other: &CandidateSet)
        requires
            old(self).wf(),
            other.wf(),
        ensures
            final(self).wf(),
            final(self).view() == old(self).view().restrict(other.view().dom()),
    {
        let keys = keys_of(&self.entities);
        let ghost a = self.view();
        let ghost d = other.view().dom();
        let mut i: usize = 0;
        while i < keys.len()
            invariant
                i <= keys@.len(),
                keys@.to_set() == a.dom(),
                keys@.no_duplicates(),
                d == other.view().dom(),
                self.wf(),
                forall|k: usize| #[trigger] self.view().contains_key(k) ==> a.contains_key(k) && self.view()[k] == a[k],
                forall|k: usize| #[trigger] a.contains_key(k) ==> (self.view().contains_key(k) <==> (d.contains(k) || !keys@.take(i as int).contains(k))),
            decreases keys.len() - i,
        {
            let k = keys[i];
            let ghost before = self.view();
            if !other.entities.contains_key(&k) {
                self.entities.remove(&k);
                assert(self.view() =~= before.remove(k));
            } else {
                assert(other.view().dom().contains(k));
            }
            proof {
                assert(keys@.take(i + 1) =~= keys@.take(i as int).push(k));
                assert forall|x: usize| #[trigger] a.contains_key(x) implies (self.view().contains_key(x) <==> (d.contains(x) || !keys@.take(i + 1).contains(x))) by {
                    if x != k {
                        assert(keys@.take(i + 1).contains(x) == keys@.take(i as int).contains(x));
                    } else {
                        assert(keys@.take(i + 1)[i as int] == k);
                    }
                }
            }
            i += 1;
        }
        proof {
            assert(keys@.take(keys.len() as int) =~= keys@);
            assert forall|x: usize| #[trigger] a.contains_key(x) implies keys@.contains(x) by {
                assert(keys@.to_set().contains(x));
            }
            assert(self.view() =~= a.restrict(d));
        }
    }

    /// Whether an entity is a candidate.
    pub fn contains(&self, entity: EntityID) -> (r: bool)
        ensures
            r == self.view().contains_key(entity.index),
    {
        self.entities.contains_key(&entity.index)
    }

    /// Every candidate once, in no particular order.
    pub fn iter(&self) -> (r: Vec<&Candidate>)
        requires
            self.wf(),
        ensures
            r@.len() == self.view().len(),
            forall|i: int|
                0 <= i < r@.len() ==> self.view().contains_key(r@[i].entity.index)
                    && r@[i].signals@ == self.view()[r@[i].entity.index],
            forall|i: int, j: int|
                0 <= i < j < r@.len() ==> r@[i].entity != r@[j].entity,
            forall|k: usize|
                self.view().contains_key(k) ==> exists|i: int| 0 <= i < r@.len() && #[trigger] r@[i].entity.index == k,
    {
        let keys = keys_of(&self.entities);
        let mut out: Vec<&Candidate> = Vec::new();
        let mut i: usize = 0;
        while i < keys.len()
            invariant
                i <= keys@.len(),
                keys@.to_set() == self.entities@.dom(),
                keys@.no_duplicates(),
                self.wf(),
                out@.len() == i,
                forall|x: int| 0 <= x < i ==> #[trigger] out@[x].entity.index == keys@[x]
                    && self.view().contains_key(keys@[x])
                    && out@[x].signals@ == self.view()[keys@[x]],
            decreases keys.len() - i,
        {
            let k = keys[i];
            assert(keys@.to_set().contains(k));
            match self.entities.get(&k) {
                Some(c) => {
                    assert(c.entity.index == k);
                    assert(self.view()[k] == c.signals@);
                    out.push(c);
                },
                None => {},
            }
            i += 1;
        }
        proof {
            assert(keys@.to_set().len() == keys@.len()) by {
                keys@.unique_seq_to_set();
            }
            assert(self.view().dom() =~= self.entities@.dom());
            assert forall|a: int, b: int| 0 <= a < b < out@.len() implies out@[a].entity != out@[b].entity by {
                assert(out@[a].entity.index == keys@[a]);
                assert(out@[b].entity.index == keys@[b]);
            }
            assert forall|k: usize| self.view().contains_key(k) implies exists|i: int|
                0 <= i < out@.len() && #[trigger] out@[i].entity.index == k by {
                assert(keys@.to_set().contains(k));
                let x = choose|x: int| 0 <= x < keys@.len() && keys@[x] == k;
                assert(out@[x].entity.index == k);
            }
        }
        out
    }

    /// The number of candidates.
    pub fn len(&self) -> (r: usize)
        ensures
            self.view().dom().finite(),
            r == self.view().len(),
    {
        assert(self.view().dom() =~= self.entities@.dom());
        self.entities.len()
    }

    /// Whether there are no candidates.
    pub fn is_empty(&self) -> (r: bool)
        ensures
            self.view().dom().finite(),
            r == (self.view().len() == 0),
            r == (self.view().dom() == Set::<usize>::empty()),
    {
        assert(self.view().dom() =~= self.entities@.dom());
        self.entities.is_empty()
    }
}

impl Default for CandidateSet {
    /// No candidates.
    fn default() -> (r: Self)
        ensures
            r.wf(),
            r.view() == Map::<usize, Seq<Signal>>::empty(),
    {
        let r = CandidateSet { entities: HashMap::new() };
        assert(r.view() =~= Map::<usize, Seq<Signal>>::empty());
        r
    }
}

} // verus!
