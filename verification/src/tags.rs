use vstd::prelude::*;
use std::collections::hash_map::DefaultHasher;
use std::hash::{Hash, Hasher};
use vstd::std_specs::hash::DefaultHasherAdditionalSpecFns;

verus! {

/// The writes that `<str as Hash>::hash` makes to a hasher for a string.
pub uninterp spec fn str_hash_writes(s: Seq<char>) -> Seq<Seq<u8>>;

/// Calls `<str as Hash>::hash`, which writes the string to the hasher; what it
/// writes is named `str_hash_writes`.
#[verifier::external_body]
fn hash_str(s: &str, state: &mut DefaultHasher)
    ensures
        final(state)@ == old(state)@ + str_hash_writes(s@),
{
    s.hash(state)
}

/// The hash of a tag: what a fresh `DefaultHasher` finishes with after the
/// tag is hashed into it.
pub open spec fn tag_hash(s: Seq<char>) -> u64 {
    DefaultHasher::spec_finish(str_hash_writes(s))
}

/// Hashes a tag with a fresh `DefaultHasher`.
pub fn hash_tag(s: &str) -> (h: u64)
    ensures
        h == tag_hash(s@),
{
    let mut h = DefaultHasher::new();
    hash_str(s, &mut h);
    assert(h@ =~= str_hash_writes(s@));
    h.finish()
}

/// The number of buckets of a `TagMap`.
pub const BUCKETS: usize = 128;

/// The bucket that holds a key.
pub open spec fn bucket_of(k: Seq<char>) -> int {
    (tag_hash(k) as usize) as int % (BUCKETS as int)
}

fn bucket_index(k: &str) -> (b: usize)
    ensures
        b == bucket_of(k@),
        b < BUCKETS,
{
    (hash_tag(k) as usize) % BUCKETS
}

/// A map from actor addresses (tags) to values, kept in buckets by the hash
/// of the tag, each key once.
pub struct TagMap<V> {
    buckets: Vec<Vec<(String, V)>>,
    count: usize,
    contents: Ghost<Map<Seq<char>, V>>,
}

impl<V> View for TagMap<V> {
    type V = Map<Seq<char>, V>;

    closed spec fn view(&self) -> Map<Seq<char>, V> {
        self.contents@
    }
}

impl<V> TagMap<V> {
    closed spec fn entry(&self, b: int, i: int) -> (String, V) {
        self.buckets@[b]@[i]
    }

    closed spec fn bucket_len(&self, b: int) -> int {
        self.buckets@[b]@.len() as int
    }

    /// Each entry sits in the bucket of its key, once, and the entries are
    /// exactly the keys and values of the map.
    pub closed spec fn wf(&self) -> bool {
        &&& self.buckets@.len() == BUCKETS
        &&& forall|b: int, i: int|
            0 <= b < BUCKETS && 0 <= i < self.bucket_len(b) ==> {
                &&& bucket_of(#[trigger] self.entry(b, i).0@) == b
                &&& self.contents@.contains_key(self.entry(b, i).0@)
                &&& self.contents@[self.entry(b, i).0@] == self.entry(b, i).1
            }
        &&& forall|b: int, i: int, j: int|
            0 <= b < BUCKETS && 0 <= i < j < self.bucket_len(b) ==> #[trigger] self.entry(b, i).0@
                != #[trigger] self.entry(b, j).0@
        &&& forall|k: Seq<char>| #[trigger]
            self.contents@.contains_key(k) ==> exists|i: int|
                0 <= i < self.bucket_len(bucket_of(k)) && #[trigger] self.entry(bucket_of(k), i).0@ == k
        &&& self.contents@.dom().finite()
        &&& self.count == self.contents@.len()
    }

    /// A well-formed map has finitely many keys, at most `usize::MAX`.
    pub proof fn lemma_len_bound(&self)
        requires
            self.wf(),
        ensures
            self@.dom().finite(),
            self@.len() <= usize::MAX,
    {
    }

    /// An empty map.
    pub fn new() -> (m: Self)
        ensures
            m.wf(),
            m@ == Map::<Seq<char>, V>::empty(),
    {
        let mut buckets: Vec<Vec<(String, V)>> = Vec::new();
        let mut b: usize = 0;
        while b < BUCKETS
            invariant
                b <= BUCKETS,
                buckets@.len() == b,
                forall|c: int| 0 <= c < b ==> (#[trigger] buckets@[c])@.len() == 0,
            decreases BUCKETS - b,
        {
            buckets.push(Vec::new());
            b = b + 1;
        }
        TagMap { buckets, count: 0, contents: Ghost(Map::empty()) }
    }

    /// The number of keys.
    pub fn len(&self) -> (n: usize)
        requires
            self.wf(),
        ensures
            n == self@.len(),
    {
        self.count
    }

    fn find(&self, k: &String) -> (r: (usize, Option<usize>))
        requires
            self.wf(),
        ensures
            r.0 == bucket_of(k@),
            match r.1 {
                Some(i) => i < self.bucket_len(r.0 as int) && self.entry(r.0 as int, i as int).0@ == k@,
                None => !self@.contains_key(k@),
            },
    {
        let b = bucket_index(k.as_str());
        let bucket = &self.buckets[b];
        let mut i: usize = 0;
        while i < bucket.len()
            invariant
                self.wf(),
                b == bucket_of(k@),
                b < BUCKETS,
                *bucket == self.buckets@[b as int],
                i <= bucket@.len(),
                forall|j: int| 0 <= j < i ==> self.entry(b as int, j).0@ != k@,
            decreases bucket@.len() - i,
        {
            if bucket[i].0 == *k {
                return (b, Some(i));
            }
            i = i + 1;
        }
        (b, None)
    }

    /// Whether the key is present.
    pub fn contains_key(&self, k: &String) -> (r: bool)
        requires
            self.wf(),
        ensures
            r == self@.contains_key(k@),
    {
        match self.find(k).1 {
            Some(_) => true,
            None => false,
        }
    }

    /// Removes the entry at position `i` of bucket `b`, returning its key and value.
    fn take_at(&mut self, b: usize, i: usize) -> (r: (String, V))
        requires
            old(self).wf(),
            b < BUCKETS,
            i < old(self).bucket_len(b as int),
        ensures
            final(self).wf(),
            r == old(self).entry(b as int, i as int),
            old(self)@.contains_key(r.0@),
            old(self)@[r.0@] == r.1,
            final(self)@ == old(self)@.remove(r.0@),
    {
        let ghost o = *self;
        let ghost old_bucket = self.buckets@[b as int]@;
        let ghost last = (old_bucket.len() - 1) as int;
        let r = self.buckets[b].swap_remove(i);
        let ghost key = r.0@;
        proof {
            assert(r == o.entry(b as int, i as int));
            assert(bucket_of(key) == b);
            assert(o.contents@.contains_key(key));
            assert(o.contents@.dom().remove(key).len() + 1 == o.contents@.dom().len());
        }
        self.contents = Ghost(o.contents@.remove(key));
        self.count = self.count - 1;
        proof {
            let nb = self.buckets@[b as int]@;
            assert(nb =~= old_bucket.update(i as int, old_bucket[last]).drop_last());
            assert(forall|c: int| 0 <= c < BUCKETS && c != b ==> self.buckets@[c] == o.buckets@[c]);
            assert forall|c: int, x: int| 0 <= c < BUCKETS && 0 <= x < self.bucket_len(c) implies {
                &&& bucket_of(#[trigger] self.entry(c, x).0@) == c
                &&& self.contents@.contains_key(self.entry(c, x).0@)
                &&& self.contents@[self.entry(c, x).0@] == self.entry(c, x).1
            } by {
                if c == b {
                    let ox = if x == i { last } else { x };
                    assert(self.entry(c, x) == o.entry(c, ox));
                    assert(ox != i);
                    if ox < i {
                        assert(o.entry(c, ox).0@ != o.entry(c, i as int).0@);
                    } else {
                        assert(o.entry(c, i as int).0@ != o.entry(c, ox).0@);
                    }
                    assert(o.contents@.contains_key(o.entry(c, ox).0@));
                } else {
                    assert(self.entry(c, x) == o.entry(c, x));
                    assert(bucket_of(o.entry(c, x).0@) == c);
                    assert(o.contents@.contains_key(o.entry(c, x).0@));
                    assert(o.entry(c, x).0@ != key);
                }
            }
            assert forall|c: int, x: int, y: int|
                0 <= c < BUCKETS && 0 <= x < y < self.bucket_len(c) implies #[trigger] self.entry(c, x).0@
                != #[trigger] self.entry(c, y).0@ by {
                if c == b {
                    let ox = if x == i { last } else { x };
                    let oy = if y == i { last } else { y };
                    assert(self.entry(c, x) == o.entry(c, ox));
                    assert(self.entry(c, y) == o.entry(c, oy));
                    if ox < oy {
                        assert(o.entry(c, ox).0@ != o.entry(c, oy).0@);
                    } else {
                        assert(o.entry(c, oy).0@ != o.entry(c, ox).0@);
                    }
                } else {
                    assert(o.entry(c, x).0@ != o.entry(c, y).0@);
                }
            }
            assert forall|k: Seq<char>| #[trigger] self.contents@.contains_key(k) implies exists|x: int|
                0 <= x < self.bucket_len(bucket_of(k)) && #[trigger] self.entry(bucket_of(k), x).0@ == k by {
                assert(o.contents@.contains_key(k));
                let c = bucket_of(k);
                let j = choose|j: int| 0 <= j < o.bucket_len(c) && #[trigger] o.entry(c, j).0@ == k;
                if c == b {
                    assert(j != i);
                    if j == last {
                        assert(self.entry(c, i as int).0@ == k);
                    } else {
                        assert(self.entry(c, j).0@ == k);
                    }
                } else {
                    assert(self.entry(c, j).0@ == k);
                }
            }
        }
        r
    }

    /// Adds an entry under a key that is not present yet.
    fn push_new(&mut self, k: String, v: V)
        requires
            old(self).wf(),
            !old(self)@.contains_key(k@),
            old(self)@.len() < usize::MAX,
        ensures
            final(self).wf(),
            final(self)@ == old(self)@.insert(k@, v),
    {
        let ghost o = *self;
        let ghost key = k@;
        let b = bucket_index(k.as_str());
        let ghost n = o.bucket_len(b as int);
        self.buckets[b].push((k, v));
        self.contents = Ghost(o.contents@.insert(key, v));
        self.count = self.count + 1;
        proof {
            assert(forall|c: int| 0 <= c < BUCKETS && c != b ==> self.buckets@[c] == o.buckets@[c]);
            assert(self.entry(b as int, n).0@ == key);
            assert forall|c: int, x: int| 0 <= c < BUCKETS && 0 <= x < self.bucket_len(c) implies {
                &&& bucket_of(#[trigger] self.entry(c, x).0@) == c
                &&& self.contents@.contains_key(self.entry(c, x).0@)
                &&& self.contents@[self.entry(c, x).0@] == self.entry(c, x).1
            } by {
                if c != b || x < n {
                    assert(self.entry(c, x) == o.entry(c, x));
                    assert(bucket_of(o.entry(c, x).0@) == c);
                    assert(o.contents@.contains_key(o.entry(c, x).0@));
                }
            }
            assert forall|c: int, x: int, y: int|
                0 <= c < BUCKETS && 0 <= x < y < self.bucket_len(c) implies #[trigger] self.entry(c, x).0@
                != #[trigger] self.entry(c, y).0@ by {
                if c == b && y == n {
                    assert(self.entry(c, x) == o.entry(c, x));
                    assert(o.contents@.contains_key(o.entry(c, x).0@));
                } else {
                    assert(self.entry(c, x) == o.entry(c, x));
                    assert(self.entry(c, y) == o.entry(c, y));
                    assert(o.entry(c, x).0@ != o.entry(c, y).0@);
                }
            }
            assert forall|kk: Seq<char>| #[trigger] self.contents@.contains_key(kk) implies exists|x: int|
                0 <= x < self.bucket_len(bucket_of(kk)) && #[trigger] self.entry(bucket_of(kk), x).0@ == kk by {
                if kk == key {
                    assert(self.entry(b as int, n).0@ == kk);
                } else {
                    let c = bucket_of(kk);
                    let j = choose|j: int| 0 <= j < o.bucket_len(c) && #[trigger] o.entry(c, j).0@ == kk;
                    assert(self.entry(c, j) == o.entry(c, j));
                }
            }
        }
    }

    /// Puts `v` under `k`, replacing any value that was there.
    pub fn insert(&mut self, k: String, v: V)
        requires
            old(self).wf(),
            old(self)@.contains_key(k@) || old(self)@.len() < usize::MAX,
        ensures
            final(self).wf(),
            final(self)@ == old(self)@.insert(k@, v),
    {
        match self.find(&k) {
            (b, Some(i)) => {
                let ghost m0 = self@;
                let _ = self.take_at(b, i);
                self.push_new(k, v);
                assert(self@ =~= m0.insert(k@, v));
            },
            (_, None) => {
                self.push_new(k, v);
            },
        }
    }

    /// Takes the value under `k` out of the map, if there is one.
    pub fn remove(&mut self, k: &String) -> (r: Option<V>)
        requires
            old(self).wf(),
        ensures
            final(self).wf(),
            final(self)@ == old(self)@.remove(k@),
            r == (if old(self)@.contains_key(k@) { Some(old(self)@[k@]) } else { None::<V> }),
    {
        match self.find(k) {
            (b, Some(i)) => {
                let (_, v) = self.take_at(b, i);
                Some(v)
            },
            (_, None) => {
                assert(self@.remove(k@) =~= self@);
                None
            },
        }
    }

    /// The value under `k`, if there is one.
    pub fn get(&self, k: &String) -> (r: Option<&V>)
        requires
            self.wf(),
        ensures
            r == (if self@.contains_key(k@) { Some(&self@[k@]) } else { None::<&V> }),
    {
        match self.find(k) {
            (b, Some(i)) => Some(&self.buckets[b][i].1),
            (_, None) => None,
        }
    }

    /// Takes every entry out, each key once, leaving the map empty.
    pub fn drain(&mut self) -> (r: Vec<(String, V)>)
        requires
            old(self).wf(),
        ensures
            final(self).wf(),
            final(self)@ == Map::<Seq<char>, V>::empty(),
            r@.len() == old(self)@.len(),
            forall|i: int, j: int| 0 <= i < j < r@.len() ==> #[trigger] r@[i].0@ != #[trigger] r@[j].0@,
            forall|i: int|
                0 <= i < r@.len() ==> {
                    &&& #[trigger] old(self)@.contains_key(r@[i].0@)
                    &&& old(self)@[r@[i].0@] == r@[i].1
                },
            forall|k: Seq<char>| #[trigger]
                old(self)@.contains_key(k) ==> exists|i: int| 0 <= i < r@.len() && #[trigger] r@[i].0@ == k,
    {
        let ghost o = *self;
        let mut r: Vec<(String, V)> = Vec::new();
        let mut rest = TagMap::new();
        std::mem::swap(self, &mut rest);
        let mut buckets = rest.buckets;
        let mut b: usize = 0;
        proof {
            assert(o.contents@.dom().filter(|k: Seq<char>| bucket_of(k) < 0) =~= Set::<Seq<char>>::empty());
        }
        while b < BUCKETS
            invariant
                b <= BUCKETS,
                buckets@.len() == BUCKETS,
                forall|c: int| b <= c < BUCKETS ==> #[trigger] buckets@[c] == o.buckets@[c],
                o.wf(),
                forall|i: int, j: int| 0 <= i < j < r@.len() ==> #[trigger] r@[i].0@ != #[trigger] r@[j].0@,
                forall|i: int| 0 <= i < r@.len() ==> o.contents@.contains_key(#[trigger] r@[i].0@),
                forall|i: int| 0 <= i < r@.len() ==> o.contents@[#[trigger] r@[i].0@] == r@[i].1,
                forall|i: int| 0 <= i < r@.len() ==> bucket_of(#[trigger] r@[i].0@) < b,
                forall|k: Seq<char>| #[trigger]
                    o.contents@.contains_key(k) && bucket_of(k) < b ==> exists|i: int|
                        0 <= i < r@.len() && #[trigger] r@[i].0@ == k,
                r@.len() == o.contents@.dom().filter(|k: Seq<char>| bucket_of(k) < b).len(),
            decreases BUCKETS - b,
        {
            let mut bucket = Vec::new();
            std::mem::swap(&mut bucket, &mut buckets[b]);
            let ghost r0 = r@;
            let ghost ob = o.buckets@[b as int]@;
            assert(bucket@ == ob);
            r.append(&mut bucket);
            proof {
                assert(r@ =~= r0 + ob);
                let lo = o.contents@.dom().filter(|k: Seq<char>| bucket_of(k) < b);
                let hi = o.contents@.dom().filter(|k: Seq<char>| bucket_of(k) < b + 1);
                let keys = ob.map_values(|e: (String, V)| e.0@);
                let here = keys.to_set();
                assert forall|x: int| 0 <= x < ob.len() implies #[trigger] bucket_of(ob[x].0@) == b by {
                    assert(ob[x] == o.entry(b as int, x));
                }
                assert(hi =~= lo + here) by {
                    assert forall|k: Seq<char>| hi.contains(k) implies (lo + here).contains(k) by {
                        if bucket_of(k) == b {
                            let j = choose|j: int| 0 <= j < o.bucket_len(b as int) && #[trigger] o.entry(b as int, j).0@ == k;
                            assert(keys[j] == k);
                        }
                    }
                    assert forall|k: Seq<char>| (lo + here).contains(k) implies hi.contains(k) by {
                        if here.contains(k) {
                            let j = choose|j: int| 0 <= j < keys.len() && #[trigger] keys[j] == k;
                            assert(o.entry(b as int, j).0@ == k);
                        }
                    }
                }
                assert(lo.disjoint(here)) by {
                    assert forall|k: Seq<char>| lo.contains(k) implies !here.contains(k) by {
                        if here.contains(k) {
                            let j = choose|j: int| 0 <= j < keys.len() && #[trigger] keys[j] == k;
                            assert(o.entry(b as int, j).0@ == k);
                        }
                    }
                }
                assert(keys.no_duplicates()) by {
                    assert forall|x: int, y: int| 0 <= x < keys.len() && 0 <= y < keys.len() && x != y implies keys[x] != keys[y] by {
                        if x < y {
                            assert(o.entry(b as int, x).0@ != o.entry(b as int, y).0@);
                        } else {
                            assert(o.entry(b as int, y).0@ != o.entry(b as int, x).0@);
                        }
                    }
                }
                keys.unique_seq_to_set();
                vstd::set_lib::lemma_set_disjoint_lens(lo, here);
                assert forall|i: int, j: int| 0 <= i < j < r@.len() implies #[trigger] r@[i].0@ != #[trigger] r@[j].0@ by {
                    if j >= r0.len() && i < r0.len() {
                        assert(r@[i] == r0[i]);
                        assert(bucket_of(r0[i].0@) < b);
                        assert(bucket_of(r@[i].0@) < b);
                        assert(r@[j] == ob[j - r0.len()]);
                    } else if i >= r0.len() {
                        assert(r@[i] == o.entry(b as int, i - r0.len()));
                        assert(r@[j] == o.entry(b as int, j - r0.len()));
                    }
                }
                assert forall|i: int| 0 <= i < r@.len() implies {
                    &&& o.contents@.contains_key(#[trigger] r@[i].0@)
                    &&& o.contents@[r@[i].0@] == r@[i].1
                    &&& bucket_of(r@[i].0@) < b + 1
                } by {
                    if i >= r0.len() {
                        assert(r@[i] == o.entry(b as int, i - r0.len()));
                        assert(bucket_of(o.entry(b as int, i - r0.len()).0@) == b);
                        assert(o.contents@.contains_key(r@[i].0@));
                    } else {
                        assert(r@[i] == r0[i]);
                        assert(o.contents@.contains_key(r0[i].0@));
                        assert(o.contents@[r0[i].0@] == r0[i].1);
                        assert(bucket_of(r0[i].0@) < b);
                    }
                }
                assert forall|k: Seq<char>| #[trigger]
                    o.contents@.contains_key(k) && bucket_of(k) < b + 1 implies exists|i: int|
                        0 <= i < r@.len() && #[trigger] r@[i].0@ == k by {
                    if bucket_of(k) == b {
                        let j = choose|j: int| 0 <= j < o.bucket_len(b as int) && #[trigger] o.entry(b as int, j).0@ == k;
                        assert(r@[r0.len() + j].0@ == k);
                    } else {
                        let j = choose|j: int| 0 <= j < r0.len() && #[trigger] r0[j].0@ == k;
                        assert(r@[j] == r0[j]);
                    }
                }
            }
            b = b + 1;
        }
        proof {
            assert forall|i: int| 0 <= i < r@.len() implies {
                &&& #[trigger] o.contents@.contains_key(r@[i].0@)
                &&& o.contents@[r@[i].0@] == r@[i].1
            } by {
                assert(o.contents@.contains_key(r@[i].0@));
            }
            assert(o.contents@.dom().filter(|k: Seq<char>| bucket_of(k) < BUCKETS) =~= o.contents@.dom()) by {
                assert forall|k: Seq<char>| o.contents@.dom().contains(k) implies bucket_of(k) < BUCKETS by {}
            }
        }
        r
    }
}

} // verus!
