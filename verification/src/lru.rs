//! A cache of vectors that forgets the least recently used one when it is full.

use vstd::hash_map::StringHashMap;
use vstd::prelude::*;

verus! {

/// A vector and the moment it was last used, on the cache's own count of uses.
pub struct Stamped {
    pub vector: Seq<i32>,
    pub tick: nat,
}

/// What a cache holds: its entries by key, the number of uses so far, and how many entries it may
/// hold.
pub struct Contents {
    pub entries: Map<Seq<char>, Stamped>,
    pub tick: nat,
    pub cap: nat,
}

/// Whether `key` is the entry that was not used for longest.
pub open spec fn least_recent(entries: Map<Seq<char>, Stamped>, key: Seq<char>) -> bool {
    &&& entries.contains_key(key)
    &&& forall|k: Seq<char>|
        #![trigger entries.contains_key(k)]
        entries.contains_key(k) ==> entries[key].tick <= entries[k].tick
}

/// The entry that was not used for longest.
pub open spec fn victim(entries: Map<Seq<char>, Stamped>) -> Seq<char> {
    choose|key: Seq<char>| least_recent(entries, key)
}

impl Contents {
    /// No more entries than it may hold, and no two of them last used at the same moment.
    pub open spec fn valid(self) -> bool {
        &&& self.entries.dom().finite()
        &&& self.entries.len() <= self.cap
        &&& forall|k: Seq<char>|
            #![trigger self.entries.contains_key(k)]
            self.entries.contains_key(k) ==> self.entries[k].tick <= self.tick
        &&& forall|j: Seq<char>, k: Seq<char>|
            #![trigger self.entries.contains_key(j), self.entries.contains_key(k)]
            self.entries.contains_key(j) && self.entries.contains_key(k) && j != k
                ==> self.entries[j].tick != self.entries[k].tick
    }

    /// The vector held under `key`.
    pub open spec fn found(self, key: Seq<char>) -> Option<Seq<i32>> {
        if self.entries.contains_key(key) {
            Some(self.entries[key].vector)
        } else {
            None
        }
    }

    /// The contents after `key` was looked up: an entry that was found is the latest used.
    pub open spec fn after_get(self, key: Seq<char>) -> Contents {
        if self.cap == 0 {
            self
        } else {
            Contents {
                entries: if self.entries.contains_key(key) {
                    self.entries.insert(
                        key,
                        Stamped { vector: self.entries[key].vector, tick: self.tick + 1 },
                    )
                } else {
                    self.entries
                },
                tick: self.tick + 1,
                cap: self.cap,
            }
        }
    }

    /// The contents after `vector` was put under `key`: where that is one entry too many, the one
    /// that was not used for longest is gone.
    pub open spec fn after_put(self, key: Seq<char>, vector: Seq<i32>) -> Contents {
        if self.cap == 0 {
            self
        } else {
            let filled = self.entries.insert(key, Stamped { vector, tick: self.tick + 1 });
            Contents {
                entries: if filled.len() > self.cap {
                    filled.remove(victim(filled))
                } else {
                    filled
                },
                tick: self.tick + 1,
                cap: self.cap,
            }
        }
    }
}

struct Entry {
    key: String,
    vector: Vec<i32>,
    tick: u64,
}

/// The cache. A key is found by its hash; the entry that leaves a full cache is looked for.
pub struct Lru {
    index: StringHashMap<usize>,
    entries: Vec<Entry>,
    tick: u64,
    cap: usize,
}

impl View for Lru {
    type V = Contents;

    closed spec fn view(&self) -> Contents {
        Contents {
            entries: Map::new(
                |k: Seq<char>| self.index@.contains_key(k),
                |k: Seq<char>|
                    Stamped {
                        vector: self.entries@[self.index@[k] as int].vector@,
                        tick: self.entries@[self.index@[k] as int].tick as nat,
                    },
            ),
            tick: self.tick as nat,
            cap: self.cap as nat,
        }
    }
}

impl Lru {
    /// The index names every entry by its key, once.
    spec fn indexed(self) -> bool {
        &&& self.index@.dom().finite()
        &&& self.index@.len() == self.entries@.len()
        &&& forall|k: Seq<char>|
            #![trigger self.index@.contains_key(k)]
            self.index@.contains_key(k) ==> {
                &&& self.index@[k] < self.entries@.len()
                &&& self.entries@[self.index@[k] as int].key@ == k
            }
        &&& forall|i: int|
            #![trigger self.entries@[i]]
            0 <= i < self.entries@.len() ==> {
                &&& self.index@.contains_key(self.entries@[i].key@)
                &&& self.index@[self.entries@[i].key@] == i
            }
    }

    /// The cache is in order.
    pub closed spec fn wf(self) -> bool {
        &&& self.indexed()
        &&& self@.valid()
    }

    /// A cache that is in order holds valid contents.
    pub proof fn lemma_valid(self)
        requires
            self.wf(),
        ensures
            self@.valid(),
    {
    }

    /// An empty cache for `cap` entries; with 0 it holds nothing, ever.
    pub fn new(cap: usize) -> (r: Lru)
        ensures
            r.wf(),
            r@ == (Contents { entries: Map::empty(), tick: 0, cap: cap as nat }),
    {
        let r: Lru = Lru { index: StringHashMap::new(), entries: Vec::new(), tick: 0, cap };
        assert(r@.entries =~= Map::empty());
        r
    }

    /// How many entries it holds.
    pub fn len(&self) -> (r: usize)
        requires
            self.wf(),
        ensures
            r == self@.entries.len(),
            r <= self@.cap,
    {
        assert(self@.entries.dom() =~= self.index@.dom());
        self.entries.len()
    }

    /// How many entries it may hold.
    pub fn capacity(&self) -> (r: usize)
        ensures
            r == self@.cap,
    {
        self.cap
    }

    /// How many uses it has counted.
    pub fn uses(&self) -> (r: u64)
        ensures
            r == self@.tick,
    {
        self.tick
    }

    /// The vector under `key`, which becomes the latest used.
    pub fn get(&mut self, key: &str) -> (r: Option<Vec<i32>>)
        requires
            old(self).wf(),
            old(self)@.cap > 0 ==> old(self)@.tick < u64::MAX,
        ensures
            final(self).wf(),
            final(self)@ == old(self)@.after_get(key@),
            match r {
                Some(v) => old(self)@.found(key@) == Some(v@),
                None => old(self)@.found(key@) is None,
            },
            r is Some <==> old(self)@.entries.contains_key(key@),
            r matches Some(v) ==> v@ == old(self)@.entries[key@].vector,
            final(self)@.cap == old(self)@.cap,
            final(self)@.entries.dom() == old(self)@.entries.dom(),
            forall|k: Seq<char>|
                #![trigger final(self)@.entries[k]]
                old(self)@.entries.contains_key(k) ==> final(self)@.entries[k].vector
                    == old(self)@.entries[k].vector,
            forall|k: Seq<char>|
                #![trigger final(self)@.entries[k].tick]
                old(self)@.entries.contains_key(k) && k != key@ ==> final(self)@.entries[k]
                    == old(self)@.entries[k],
            old(self)@.cap > 0 ==> final(self)@.tick == old(self)@.tick + 1,
            r is Some ==> final(self)@.entries[key@].tick == old(self)@.tick + 1,
    {
        assert(self.cap > 0 ==> self@.after_get(key@).entries.dom() =~= self@.entries.dom());
        if self.cap == 0 {
            assert(self@.entries.dom() =~= Set::empty());
            return None;
        }
        let ghost before = *self;
        self.tick = self.tick + 1;
        let tick: u64 = self.tick;
        let slot: Option<usize> = match self.index.get(key) {
            Some(i) => Some(*i),
            None => None,
        };
        match slot {
            Some(i) => {
                self.entries[i].tick = tick;
                let vector: Vec<i32> = self.entries[i].vector.clone();
                proof {
                    assert(self@.entries =~= before@.after_get(key@).entries);
                    lemma_restamped(before@, key@, before@.entries[key@].vector);
                    assert(self@.entries.dom() =~= before@.entries.dom());
                    assert(vector@ =~= before.entries@[i as int].vector@);
                }
                Some(vector)
            },
            None => {
                assert(self@.entries =~= before@.entries);
                None
            },
        }
    }

    /// Puts `val` under `key`, which becomes the latest used. Where that is one entry too many, the
    /// one that was not used for longest leaves.
    pub fn put(&mut self, key: String, val: Vec<i32>)
        requires
            old(self).wf(),
            old(self)@.cap > 0 ==> old(self)@.tick < u64::MAX,
        ensures
            final(self).wf(),
            final(self)@ == old(self)@.after_put(key@, val@),
            final(self)@.cap == old(self)@.cap,
            old(self)@.cap == 0 ==> final(self)@ == old(self)@,
            old(self)@.cap > 0 ==> final(self)@.entries.contains_key(key@)
                && final(self)@.entries[key@].vector == val@,
            forall|k: Seq<char>|
                #![trigger final(self)@.entries.contains_key(k)]
                final(self)@.entries.contains_key(k) && k != key@ ==> {
                    &&& old(self)@.entries.contains_key(k)
                    &&& final(self)@.entries[k] == old(self)@.entries[k]
                },
            old(self)@.entries.len() < old(self)@.cap ==> forall|k: Seq<char>|
                #![trigger final(self)@.entries.contains_key(k)]
                old(self)@.entries.contains_key(k) ==> final(self)@.entries.contains_key(k),
    {
        proof {
            if self.cap > 0 {
                law_put_is_read_back(self@, key@, val@);
            }
        }
        if self.cap == 0 {
            return;
        }
        let ghost before = *self;
        let ghost name = key@;
        let ghost vector = val@;
        self.tick = self.tick + 1;
        let tick: u64 = self.tick;
        let slot: Option<usize> = match self.index.get(key.as_str()) {
            Some(i) => Some(*i),
            None => None,
        };
        match slot {
            Some(i) => {
                self.entries[i].vector = val;
                self.entries[i].tick = tick;
            },
            None => {
                let at: usize = self.entries.len();
                self.index.insert(key.clone(), at);
                self.entries.push(Entry { key, vector: val, tick });
            },
        }
        let ghost filled = before@.entries.insert(
            name,
            Stamped { vector, tick: before@.tick + 1 },
        );
        proof {
            assert(self@.entries =~= filled);
            lemma_restamped(before@, name, vector);
            assert(self@.entries.dom() =~= self.index@.dom());
            assert(before@.entries.dom() =~= before.index@.dom());
        }
        if self.entries.len() > self.cap {
            self.evict();
        }
    }

    /// Drops the entry that was not used for longest.
    fn evict(&mut self)
        requires
            old(self).indexed(),
            old(self)@.entries.len() == old(self)@.cap + 1,
            old(self)@.entries.len() == old(self).entries@.len(),
            forall|k: Seq<char>|
                #![trigger old(self)@.entries.contains_key(k)]
                old(self)@.entries.contains_key(k) ==> old(self)@.entries[k].tick <= old(self)@.tick,
            forall|j: Seq<char>, k: Seq<char>|
                #![trigger old(self)@.entries.contains_key(j), old(self)@.entries.contains_key(k)]
                old(self)@.entries.contains_key(j) && old(self)@.entries.contains_key(k) && j != k
                    ==> old(self)@.entries[j].tick != old(self)@.entries[k].tick,
        ensures
            final(self).wf(),
            final(self)@ == (Contents {
                entries: old(self)@.entries.remove(victim(old(self)@.entries)),
                tick: old(self)@.tick,
                cap: old(self)@.cap,
            }),
    {
        let ghost before = *self;
        let mut oldest: usize = 0;
        let mut i: usize = 1;
        while i < self.entries.len()
            invariant
                *self == before,
                0 <= oldest < i <= self.entries@.len(),
                forall|j: int|
                    #![trigger self.entries@[j]]
                    0 <= j < i ==> self.entries@[oldest as int].tick <= self.entries@[j].tick,
            decreases self.entries.len() - i,
        {
            if self.entries[i].tick < self.entries[oldest].tick {
                oldest = i;
            }
            i = i + 1;
        }
        let ghost gone = self.entries@[oldest as int].key@;
        proof {
            let e = before@.entries;
            assert(e.contains_key(gone));
            assert forall|k: Seq<char>| #![trigger e.contains_key(k)] e.contains_key(k) implies
                e[gone].tick <= e[k].tick by {
                assert(before.index@.contains_key(k));
            }
            assert(least_recent(e, gone));
            let v = victim(e);
            assert(least_recent(e, v));
            if v != gone {
                assert(e.contains_key(v) && e.contains_key(gone));
                assert(e[v].tick != e[gone].tick);
            }
        }
        let removed: Entry = self.entries.swap_remove(oldest);
        self.index.remove(removed.key.as_str());
        if oldest < self.entries.len() {
            let moved: String = self.entries[oldest].key.clone();
            self.index.insert(moved, oldest);
        }
        proof {
            let n = before.entries@.len();
            assert(removed.key@ == gone);
            assert(self.index@.dom() =~= before.index@.dom().remove(gone));
            assert forall|k: Seq<char>| #![trigger self.index@.contains_key(k)]
                self.index@.contains_key(k) implies {
                &&& self.index@[k] < self.entries@.len()
                &&& self.entries@[self.index@[k] as int].key@ == k
            } by {
                assert(before.index@.contains_key(k));
            }
            assert forall|j: int| #![trigger self.entries@[j]] 0 <= j < self.entries@.len() implies {
                &&& self.index@.contains_key(self.entries@[j].key@)
                &&& self.index@[self.entries@[j].key@] == j
            } by {
                let from: int = if j == oldest { n - 1 } else { j };
                assert(self.entries@[j] == before.entries@[from]);
                assert(before.index@[before.entries@[from].key@] == from);
                assert(before.index@[gone] == oldest);
            }
            assert(self@.entries =~= before@.entries.remove(gone));
            assert(before@.entries.dom() =~= before.index@.dom());
            assert(self@.entries.dom() =~= self.index@.dom());
            assert forall|k: Seq<char>| #![trigger self@.entries.contains_key(k)]
                self@.entries.contains_key(k) implies self@.entries[k].tick <= self@.tick by {
                assert(before@.entries.contains_key(k));
            }
            assert forall|j: Seq<char>, k: Seq<char>|
                #![trigger self@.entries.contains_key(j), self@.entries.contains_key(k)]
                self@.entries.contains_key(j) && self@.entries.contains_key(k) && j != k implies
                self@.entries[j].tick != self@.entries[k].tick by {
                assert(before@.entries.contains_key(j) && before@.entries.contains_key(k));
            }
        }
    }
}

/// Contents stay valid when an entry is used at a moment later than all others.
proof fn lemma_restamped(c: Contents, key: Seq<char>, vector: Seq<i32>)
    requires
        c.valid(),
    ensures
        ({
            let e = c.entries.insert(key, Stamped { vector, tick: c.tick + 1 });
            &&& forall|k: Seq<char>|
                #![trigger e.contains_key(k)]
                e.contains_key(k) ==> e[k].tick <= c.tick + 1
            &&& forall|j: Seq<char>, k: Seq<char>|
                #![trigger e.contains_key(j), e.contains_key(k)]
                e.contains_key(j) && e.contains_key(k) && j != k ==> e[j].tick != e[k].tick
        }),
{
    let e = c.entries.insert(key, Stamped { vector, tick: c.tick + 1 });
    assert forall|k: Seq<char>| #![trigger e.contains_key(k)] e.contains_key(k) implies e[k].tick
        <= c.tick + 1 by {
        if k != key {
            assert(c.entries.contains_key(k));
        }
    }
    assert forall|j: Seq<char>, k: Seq<char>|
        #![trigger e.contains_key(j), e.contains_key(k)]
        e.contains_key(j) && e.contains_key(k) && j != k implies e[j].tick != e[k].tick by {
        if j != key {
            assert(c.entries.contains_key(j));
        }
        if k != key {
            assert(c.entries.contains_key(k));
        }
    }
}

/// Some entry of a cache that holds any was not used for longest.
proof fn lemma_victim(entries: Map<Seq<char>, Stamped>)
    requires
        entries.dom().finite(),
        entries.len() > 0,
    ensures
        least_recent(entries, victim(entries)),
    decreases entries.len(),
{
    let k = entries.dom().choose();
    assert(entries.contains_key(k));
    let rest = entries.remove(k);
    if rest.len() == 0 {
        assert forall|j: Seq<char>| #![trigger entries.contains_key(j)] entries.contains_key(
            j,
        ) implies entries[k].tick <= entries[j].tick by {
            if j != k {
                assert(rest.dom().contains(j));
                assert(rest.dom().len() == 0);
                assert(rest.dom() =~= Set::empty());
            }
        }
        assert(least_recent(entries, k));
    } else {
        lemma_victim(rest);
        let v = victim(rest);
        let w = if entries[k].tick <= entries[v].tick { k } else { v };
        assert forall|j: Seq<char>| #![trigger entries.contains_key(j)] entries.contains_key(
            j,
        ) implies entries[w].tick <= entries[j].tick by {
            if j != k {
                assert(rest.contains_key(j));
            }
        }
        assert(least_recent(entries, w));
    }
}

/// The entry that was used last is not the one that leaves.
proof fn lemma_victim_is_not_the_latest(entries: Map<Seq<char>, Stamped>, key: Seq<char>)
    requires
        entries.dom().finite(),
        entries.contains_key(key),
        entries.len() > 1,
        forall|k: Seq<char>|
            #![trigger entries.contains_key(k)]
            entries.contains_key(k) && k != key ==> entries[k].tick < entries[key].tick,
    ensures
        least_recent(entries, victim(entries)),
        victim(entries) != key,
{
    lemma_victim(entries);
    let rest = entries.remove(key);
    assert(rest.dom() =~= entries.dom().remove(key));
    let other = rest.dom().choose();
    assert(rest.dom().contains(other));
    assert(entries.contains_key(other));
}

/// A cache with room for anything gives back what was put into it.
pub proof fn law_put_is_read_back(c: Contents, key: Seq<char>, vector: Seq<i32>)
    requires
        c.valid(),
        c.cap > 0,
    ensures
        c.after_put(key, vector).found(key) == Some(vector),
{
    let filled = c.entries.insert(key, Stamped { vector, tick: c.tick + 1 });
    if filled.len() > c.cap {
        assert forall|k: Seq<char>| #![trigger filled.contains_key(k)] filled.contains_key(k) && k
            != key implies filled[k].tick < filled[key].tick by {
            assert(c.entries.contains_key(k));
        }
        lemma_victim_is_not_the_latest(filled, key);
    }
}

/// Putting an entry changes no other one, save that a full cache drops the entry that was not used
/// for longest, and no second one.
pub proof fn law_put_drops_only_the_least_recent(
    c: Contents,
    key: Seq<char>,
    vector: Seq<i32>,
    other: Seq<char>,
)
    requires
        c.valid(),
        c.cap > 0,
        other != key,
    ensures
        ({
            let filled = c.entries.insert(key, Stamped { vector, tick: c.tick + 1 });
            &&& c.after_put(key, vector).found(other) == if filled.len() > c.cap && other == victim(
                filled,
            ) {
                None
            } else {
                c.found(other)
            }
            &&& filled.len() > c.cap ==> least_recent(filled, victim(filled)) && victim(filled) != key
        }),
{
    let filled = c.entries.insert(key, Stamped { vector, tick: c.tick + 1 });
    if filled.len() > c.cap {
        assert forall|k: Seq<char>| #![trigger filled.contains_key(k)] filled.contains_key(k) && k
            != key implies filled[k].tick < filled[key].tick by {
            assert(c.entries.contains_key(k));
        }
        lemma_victim_is_not_the_latest(filled, key);
    }
}

/// Where there is room for one more entry, or the key is there already, putting an entry drops nothing: what is
/// there afterwards is what was there, and the entry.
pub proof fn law_nothing_leaves_while_there_is_room(c: Contents, key: Seq<char>, vector: Seq<i32>)
    requires
        c.valid(),
        c.cap > 0,
        c.entries.contains_key(key) || c.entries.len() < c.cap,
    ensures
        c.after_put(key, vector).cap == c.cap,
        c.after_put(key, vector).tick == c.tick + 1,
        c.after_put(key, vector).entries == c.entries.insert(
            key,
            Stamped { vector, tick: c.tick + 1 },
        ),
{
    if c.entries.contains_key(key) {
        assert(c.entries.insert(key, Stamped { vector, tick: c.tick + 1 }).dom()
            =~= c.entries.dom());
    }
}

/// A full cache that gets an entry of a new key drops the one entry whose last use is furthest back, and keeps
/// all the others as they are.
pub proof fn law_a_full_cache_drops_the_entry_used_longest_ago(
    c: Contents,
    key: Seq<char>,
    vector: Seq<i32>,
    oldest: Seq<char>,
)
    requires
        c.valid(),
        c.cap > 0,
        c.entries.len() == c.cap,
        !c.entries.contains_key(key),
        c.entries.contains_key(oldest),
        forall|k: Seq<char>|
            #![trigger c.entries.contains_key(k)]
            c.entries.contains_key(k) && k != oldest ==> c.entries[oldest].tick < c.entries[k].tick,
    ensures
        c.after_put(key, vector).cap == c.cap,
        c.after_put(key, vector).tick == c.tick + 1,
        c.after_put(key, vector).entries == c.entries.remove(oldest).insert(
            key,
            Stamped { vector, tick: c.tick + 1 },
        ),
{
    let filled = c.entries.insert(key, Stamped { vector, tick: c.tick + 1 });
    assert(filled.len() == c.cap + 1);
    assert forall|k: Seq<char>| #![trigger filled.contains_key(k)] filled.contains_key(k) && k
        != key implies filled[k].tick < filled[key].tick by {
        assert(c.entries.contains_key(k));
    }
    lemma_victim_is_not_the_latest(filled, key);
    assert(filled.contains_key(oldest));
    assert(c.entries.contains_key(victim(filled)));
    assert(filled.remove(oldest) =~= c.entries.remove(oldest).insert(
        key,
        Stamped { vector, tick: c.tick + 1 },
    ));
}

/// Looking a key up is a use of that entry and of no other: it alone is stamped anew, later than every other,
/// and what is there stays there.
pub proof fn law_a_look_stamps_what_it_finds_alone(c: Contents, key: Seq<char>, other: Seq<char>)
    requires
        c.valid(),
        c.cap > 0,
    ensures
        c.after_get(key).cap == c.cap,
        c.after_get(key).tick == c.tick + 1,
        c.after_get(key).entries.dom() == c.entries.dom(),
        other != key && c.entries.contains_key(other) ==> c.after_get(key).entries[other]
            == c.entries[other],
        other != key && c.entries.contains_key(key) && c.entries.contains_key(other)
            ==> c.after_get(key).entries[key].tick > c.after_get(key).entries[other].tick,
        c.found(other) is Some <==> c.entries.contains_key(other),
        c.entries.contains_key(other) ==> c.found(other) == Some(c.entries[other].vector),
{
    assert(c.after_get(key).entries.dom() =~= c.entries.dom());
}

/// Looking a key up changes no vector: it decides only what leaves later.
pub proof fn law_get_keeps_every_vector(c: Contents, key: Seq<char>, other: Seq<char>)
    ensures
        c.after_get(key).found(other) == c.found(other),
{
}

/// Whether `key` is the entry that was used last.
pub open spec fn latest(c: Contents, key: Seq<char>) -> bool {
    c.entries.contains_key(key) && c.entries[key].tick == c.tick
}

/// Looking an entry up, or putting it, makes it the one that was used last.
pub proof fn law_use_makes_latest(c: Contents, key: Seq<char>, vector: Seq<i32>)
    requires
        c.valid(),
        c.cap > 0,
    ensures
        c.found(key) is Some ==> latest(c.after_get(key), key),
        latest(c.after_put(key, vector), key),
{
    law_put_is_read_back(c, key, vector);
}

/// The contents after entries were put, one after the other.
pub open spec fn after_puts(c: Contents, puts: Seq<(Seq<char>, Seq<i32>)>) -> Contents
    decreases puts.len(),
{
    if puts.len() == 0 {
        c
    } else {
        after_puts(c, puts.drop_last()).after_put(puts.last().0, puts.last().1)
    }
}

/// The entries that were used after `key` was.
spec fn newer(c: Contents, key: Seq<char>) -> Set<Seq<char>> {
    c.entries.dom().filter(|k: Seq<char>| c.entries[k].tick > c.entries[key].tick)
}

/// An entry that was used last stays while fewer others are put than there is room for: what leaves a
/// full cache is always something that was not used for longer.
pub proof fn law_the_latest_outlives_fewer_puts_than_room(
    c: Contents,
    key: Seq<char>,
    puts: Seq<(Seq<char>, Seq<i32>)>,
)
    requires
        c.valid(),
        latest(c, key),
        puts.len() < c.cap,
        forall|i: int| 0 <= i < puts.len() ==> (#[trigger] puts[i]).0 != key,
    ensures
        after_puts(c, puts).found(key) == c.found(key),
{
    lemma_newer_are_few(c, key, puts);
}

proof fn lemma_newer_are_few(c: Contents, key: Seq<char>, puts: Seq<(Seq<char>, Seq<i32>)>)
    requires
        c.valid(),
        latest(c, key),
        puts.len() < c.cap,
        forall|i: int| 0 <= i < puts.len() ==> (#[trigger] puts[i]).0 != key,
    ensures
        after_puts(c, puts).valid(),
        after_puts(c, puts).cap == c.cap,
        after_puts(c, puts).entries.contains_key(key),
        after_puts(c, puts).entries[key] == c.entries[key],
        newer(after_puts(c, puts), key).len() <= puts.len(),
    decreases puts.len(),
{
    if puts.len() == 0 {
        assert forall|k: Seq<char>| !newer(c, key).contains(k) by {
            if newer(c, key).contains(k) {
                assert(c.entries.contains_key(k));
            }
        }
        assert(newer(c, key) =~= Set::empty());
    } else {
        let init = puts.drop_last();
        assert forall|i: int| 0 <= i < init.len() implies (#[trigger] init[i]).0 != key by {
            assert(init[i] == puts[i]);
        }
        lemma_newer_are_few(c, key, init);
        let before = after_puts(c, init);
        let other = puts.last().0;
        assert(puts[puts.len() - 1] == puts.last());
        let filled = before.entries.insert(
            other,
            Stamped { vector: puts.last().1, tick: before.tick + 1 },
        );
        let end = before.after_put(other, puts.last().1);
        law_operations_keep_contents_valid(before, other, puts.last().1);
        let grown = newer(before, key).insert(other);
        if filled.len() > before.cap {
            lemma_victim(filled);
            if victim(filled) == key {
                assert forall|k: Seq<char>| filled.dom().remove(key).contains(k) implies grown.contains(
                    k,
                ) by {
                    if k != other {
                        assert(filled.contains_key(k));
                        assert(before.entries.contains_key(k) && before.entries.contains_key(key));
                        assert(filled[key].tick <= filled[k].tick);
                    }
                }
                vstd::set_lib::lemma_len_subset(filled.dom().remove(key), grown);
                assert(false);
            }
        }
        assert forall|k: Seq<char>| newer(end, key).contains(k) implies grown.contains(k) by {
            if k != other {
                assert(before.entries.contains_key(k));
            }
        }
        vstd::set_lib::lemma_len_subset(newer(end, key), grown);
    }
}

/// Whatever is looked up or put, the cache never holds more than it may, and every entry keeps a
/// moment of last use of its own.
pub proof fn law_operations_keep_contents_valid(c: Contents, key: Seq<char>, vector: Seq<i32>)
    requires
        c.valid(),
    ensures
        c.after_get(key).valid(),
        c.after_put(key, vector).valid(),
{
    if c.cap > 0 {
        if c.entries.contains_key(key) {
            lemma_restamped(c, key, c.entries[key].vector);
            assert(c.after_get(key).entries.dom() =~= c.entries.dom());
        }
        lemma_restamped(c, key, vector);
        let filled = c.entries.insert(key, Stamped { vector, tick: c.tick + 1 });
        if filled.len() > c.cap {
            lemma_victim(filled);
            let left = filled.remove(victim(filled));
            assert forall|k: Seq<char>| #![trigger left.contains_key(k)] left.contains_key(
                k,
            ) implies left[k].tick <= c.tick + 1 by {
                assert(filled.contains_key(k));
            }
            assert forall|j: Seq<char>, k: Seq<char>|
                #![trigger left.contains_key(j), left.contains_key(k)]
                left.contains_key(j) && left.contains_key(k) && j != k implies left[j].tick
                != left[k].tick by {
                assert(filled.contains_key(j) && filled.contains_key(k));
            }
        }
    }
}

/// Valid contents are no more than there is room for, and of any two entries one was used later.
pub proof fn law_valid_contents_fit_and_have_an_order(
    c: Contents,
    a: Seq<char>,
    b: Seq<char>,
)
    requires
        c.valid(),
    ensures
        c.entries.dom().finite(),
        c.entries.len() <= c.cap,
        c.entries.contains_key(a) ==> c.entries[a].tick <= c.tick,
        c.entries.contains_key(a) && c.entries.contains_key(b) && a != b ==> c.entries[a].tick
            < c.entries[b].tick || c.entries[b].tick < c.entries[a].tick,
{
}

/// A cache for no entries holds none and finds none, whatever is put into it.
pub proof fn law_without_room_nothing_is_kept(c: Contents, key: Seq<char>, vector: Seq<i32>)
    requires
        c.valid(),
        c.cap == 0,
    ensures
        c.after_put(key, vector) == c,
        c.after_get(key) == c,
        c.found(key) is None,
{
    assert(c.entries.dom() =~= Set::empty());
}

} // verus!
