//! An open-addressing hash table usable before a general-purpose map exists:
//! array-backed slots, a per-instance randomized keyed hash, linear probing
//! that only scans forward (no wraparound), and power-of-two growth.
//!
//! The table supports exactly two operations, insertion and full scan; there
//! is no lookup or removal. Inserting a key that is already present adds a
//! second, independent entry rather than updating the first: the scan then
//! reports both. That non-uniqueness is deliberate and preserved here.

use core::hash::Hash;
use vstd::multiset::Multiset;
use vstd::prelude::*;

use crate::arith::is_pow2;
use crate::arith::lemma_pow2_32;
use crate::arith::lemma_pow2_double;

verus! {

/// The pairs held by the occupied slots of `s`, in slot order.
pub open spec fn pairs_of<K, V>(s: Seq<Option<(K, V)>>) -> Seq<(K, V)>
    decreases s.len(),
{
    if s.len() == 0 {
        Seq::empty()
    } else {
        match s.last() {
            Option::Some(p) => pairs_of(s.drop_last()).push(p),
            Option::None => pairs_of(s.drop_last()),
        }
    }
}

proof fn lemma_pairs_len<K, V>(s: Seq<Option<(K, V)>>)
    ensures
        pairs_of(s).len() <= s.len(),
    decreases s.len(),
{
    if s.len() > 0 {
        lemma_pairs_len(s.drop_last());
    }
}

proof fn lemma_pairs_full<K, V>(s: Seq<Option<(K, V)>>)
    requires
        forall|i: int| 0 <= i < s.len() ==> s[i] is Some,
    ensures
        pairs_of(s).len() == s.len(),
    decreases s.len(),
{
    if s.len() > 0 {
        assert(s.last() is Some);
        lemma_pairs_full(s.drop_last());
    }
}

proof fn lemma_pairs_occupied<K, V>(s: Seq<Option<(K, V)>>, j: int)
    requires
        0 <= j < s.len(),
        s[j] is Some,
    ensures
        pairs_of(s).len() >= 1,
    decreases s.len(),
{
    if j == s.len() - 1 {
        assert(s.last() is Some);
    } else {
        lemma_pairs_occupied(s.drop_last(), j);
    }
}

proof fn lemma_pairs_all_none<K, V>(s: Seq<Option<(K, V)>>)
    requires
        forall|i: int| 0 <= i < s.len() ==> s[i] is None,
    ensures
        pairs_of(s) == Seq::<(K, V)>::empty(),
    decreases s.len(),
{
    if s.len() > 0 {
        assert(s.last() is None);
        lemma_pairs_all_none(s.drop_last());
    }
}

proof fn lemma_pairs_update_none<K, V>(s: Seq<Option<(K, V)>>, j: int, p: (K, V))
    requires
        0 <= j < s.len(),
        s[j] is None,
    ensures
        pairs_of(s.update(j, Some(p))).to_multiset() == pairs_of(s).to_multiset().insert(p),
        pairs_of(s.update(j, Some(p))).len() == pairs_of(s).len() + 1,
    decreases s.len(),
{
    let t = s.update(j, Some(p));
    if j == s.len() - 1 {
        assert(t.drop_last() =~= s.drop_last());
        assert(t.last() == Some(p));
        assert(s.last() is None);
        assert(pairs_of(t) == pairs_of(s.drop_last()).push(p));
        assert(pairs_of(s) == pairs_of(s.drop_last()));
        pairs_of(s.drop_last()).to_multiset_ensures();
    } else {
        assert(t.drop_last() =~= s.drop_last().update(j, Some(p)));
        assert(t.last() == s.last());
        assert(s.drop_last()[j] is None);
        lemma_pairs_update_none(s.drop_last(), j, p);
        let a = pairs_of(s.drop_last());
        let b = pairs_of(s.drop_last().update(j, Some(p)));
        match s.last() {
            Option::Some(q) => {
                assert(pairs_of(s) == a.push(q));
                assert(pairs_of(t) == b.push(q));
                a.to_multiset_ensures();
                b.to_multiset_ensures();
                a.push(q).to_multiset_ensures();
                assert(pairs_of(t).to_multiset() =~= pairs_of(s).to_multiset().insert(p));
            },
            Option::None => {
                assert(pairs_of(s) == a);
                assert(pairs_of(t) == b);
            },
        }
    }
}

/// The multiset of an empty sequence is the empty multiset.
proof fn lemma_to_multiset_empty<T>(s: Seq<T>)
    requires
        s.len() == 0,
    ensures
        s.to_multiset() == Multiset::<T>::empty(),
{
    s.to_multiset_ensures();
    vstd::multiset::lemma_multiset_empty_len(s.to_multiset());
}

/// The empty multiset is the identity of multiset union.
proof fn lemma_multiset_add_empty<T>(m: Multiset<T>)
    ensures
        m.add(Multiset::<T>::empty()) == m,
        Multiset::<T>::empty().add(m) == m,
{
    broadcast use vstd::multiset::group_multiset_axioms;

    assert(m.add(Multiset::<T>::empty()) =~= m);
    assert(Multiset::<T>::empty().add(m) =~= m);
}

/// Rearranges one element between the two sides of a multiset union:
/// `(a.insert(p)).add(b) == a.add(b.insert(p))`.
proof fn lemma_multiset_insert_shift<T>(a: Multiset<T>, b: Multiset<T>, p: T)
    ensures
        a.insert(p).add(b) == a.add(b.insert(p)),
{
    broadcast use vstd::multiset::group_multiset_axioms;

    assert(a.insert(p).add(b) =~= a.add(b.insert(p)));
}

/// Fills and returns `n` empty slots.
fn empty_slots<K, V>(n: usize) -> (r: Vec<Option<(K, V)>>)
    ensures
        r@.len() == n,
        forall|i: int| 0 <= i < n ==> r@[i] is None,
        pairs_of(r@) == Seq::<(K, V)>::empty(),
        pairs_of(r@).to_multiset() == Multiset::<(K, V)>::empty(),
{
    let mut v: Vec<Option<(K, V)>> = Vec::new();
    let mut i: usize = 0;
    while i < n
        invariant
            i <= n,
            v@.len() == i,
            forall|j: int| 0 <= j < i ==> v@[j] is None,
        decreases n - i,
    {
        v.push(None);
        i = i + 1;
    }
    proof {
        lemma_pairs_all_none(v@);
        lemma_to_multiset_empty(pairs_of(v@));
    }
    v
}

/// The first empty slot at or above `from`, if any: the linear probe of this
/// table, which never wraps around to the front of the array.
fn find_empty_from<K, V>(vec: &Vec<Option<(K, V)>>, from: usize) -> (r: Option<usize>)
    requires
        from <= vec@.len(),
    ensures
        match r {
            Option::Some(j) => from <= j < vec@.len() && vec@[j as int] is None && (forall|i: int|
                from <= i < j ==> vec@[i] is Some),
            Option::None => forall|i: int| from <= i < vec@.len() ==> vec@[i] is Some,
        },
{
    let mut j: usize = from;
    while j < vec.len()
        invariant
            from <= j <= vec@.len(),
            forall|i: int| from <= i < j ==> vec@[i] is Some,
        decreases vec@.len() - j,
    {
        if vec[j].is_none() {
            return Some(j);
        }
        j = j + 1;
    }
    None
}

/// Stores `p` in the empty slot `j`.
fn place_pair<K, V>(vec: &mut Vec<Option<(K, V)>>, j: usize, p: (K, V))
    requires
        j < old(vec)@.len(),
        old(vec)@[j as int] is None,
    ensures
        final(vec)@.len() == old(vec)@.len(),
        pairs_of(final(vec)@).to_multiset() == pairs_of(old(vec)@).to_multiset().insert(p),
        pairs_of(final(vec)@).len() == pairs_of(old(vec)@).len() + 1,
{
    proof {
        lemma_pairs_update_none(vec@, j as int, p);
    }
    vec[j] = Some(p);
}

/// Empties `vec`, pushing the pair of every occupied slot onto `pending`.
fn drain_pairs<K, V>(vec: &mut Vec<Option<(K, V)>>, pending: &mut Vec<(K, V)>)
    ensures
        final(vec)@.len() == 0,
        final(pending)@.to_multiset() == old(pending)@.to_multiset().add(
            pairs_of(old(vec)@).to_multiset(),
        ),
        final(pending)@.len() == old(pending)@.len() + pairs_of(old(vec)@).len(),
{
    loop
        invariant
            pending@.to_multiset().add(pairs_of(vec@).to_multiset())
                == old(pending)@.to_multiset().add(pairs_of(old(vec)@).to_multiset()),
            pending@.len() + pairs_of(vec@).len() == old(pending)@.len()
                + pairs_of(old(vec)@).len(),
        ensures
            vec@.len() == 0,
            pending@.to_multiset().add(pairs_of(vec@).to_multiset())
                == old(pending)@.to_multiset().add(pairs_of(old(vec)@).to_multiset()),
            pending@.len() + pairs_of(vec@).len() == old(pending)@.len()
                + pairs_of(old(vec)@).len(),
        decreases vec@.len(),
    {
        let ghost vs: Seq<Option<(K, V)>> = vec@;
        let ghost ps: Seq<(K, V)> = pending@;
        match vec.pop() {
            Option::Some(slot) => {
                match slot {
                    Option::Some(p) => {
                        pending.push(p);
                        proof {
                            assert(pairs_of(vs) == pairs_of(vs.drop_last()).push(p));
                            pairs_of(vs.drop_last()).to_multiset_ensures();
                            ps.to_multiset_ensures();
                            lemma_multiset_insert_shift(
                                ps.to_multiset(),
                                pairs_of(vec@).to_multiset(),
                                p,
                            );
                        }
                    },
                    Option::None => {
                        proof {
                            assert(pairs_of(vs) == pairs_of(vs.drop_last()));
                        }
                    },
                }
            },
            Option::None => {
                break ;
            },
        }
    }
    proof {
        lemma_to_multiset_empty(pairs_of(vec@));
        lemma_multiset_add_empty(pending@.to_multiset());
    }
}

/// The keyed-hash parameters of one table instance: two 64-bit words drawn
/// from an external random source at construction.
pub(crate) struct MyBuildHasher {
    k1: u64,
    k2: u64,
}

impl MyBuildHasher {
    /// A fresh hasher keyed by this instance's two seed words.
    #[allow(deprecated)]
    fn build_hasher(&self) -> core::hash::SipHasher {
        sip_new(self.k1, self.k2)
    }
}

#[allow(deprecated)]
#[verifier::external_type_specification]
#[verifier::external_body]
pub struct ExSipHasher(core::hash::SipHasher);

/// Relies on `core::hash::SipHasher::new_with_keys`: a SipHash state keyed
/// by the two given words.
#[allow(deprecated)]
#[verifier::external_body]
fn sip_new(k1: u64, k2: u64) -> core::hash::SipHasher {
    core::hash::SipHasher::new_with_keys(k1, k2)
}

/// Relies on `core::hash::Hash::hash`: feeds the value's representation
/// into the hasher state.
#[allow(deprecated)]
#[verifier::external_body]
fn sip_write<Q: Hash + ?Sized>(state: &mut core::hash::SipHasher, val: &Q) {
    val.hash(state);
}

/// Relies on `core::hash::Hasher::finish`: the hasher state's 64-bit digest.
#[allow(deprecated)]
#[verifier::external_body]
fn sip_finish(state: &core::hash::SipHasher) -> u64 {
    core::hash::Hasher::finish(state)
}

/// The keyed 64-bit digest of `val` under `hash_builder`'s seed. Nothing is
/// assumed about its value: the table is correct for every digest.
pub(crate) fn make_hash<Q: Hash + ?Sized>(hash_builder: &MyBuildHasher, val: &Q) -> u64 {
    let mut state = hash_builder.build_hasher();
    sip_write(&mut state, val);
    sip_finish(&state)
}

/// The hash table. Slots are optional key/value pairs; `len` counts the
/// occupied ones. The slot array starts empty, is first sized to 32, and
/// doubles on growth.
pub struct HashMap<K, V> {
    builder: MyBuildHasher,
    vec: Vec<Option<(K, V)>>,
    len: u64,
}

impl<K, V> HashMap<K, V> where K: Hash {
    /// The slot array as a mathematical sequence.
    pub closed spec fn slots(self) -> Seq<Option<(K, V)>> {
        self.vec@
    }

    /// The hash seed, as the pair of its two words.
    pub closed spec fn seed(self) -> (u64, u64) {
        (self.builder.k1, self.builder.k2)
    }

    /// The number of occupied slots.
    pub closed spec fn count(self) -> u64 {
        self.len
    }

    /// Well-formedness: the occupancy count matches the slots, and the slot
    /// array is either still unallocated or at least its initial size.
    pub open spec fn wf(self) -> bool {
        &&& self.count() == pairs_of(self.slots()).len()
        &&& (self.slots().len() == 0 || self.slots().len() >= 32)
        &&& (self.slots().len() == 0 || is_pow2(self.slots().len() as int))
    }

    /// An empty table keyed by the given two seed words. The caller supplies
    /// the randomness; a fixed seed gives a deterministic table.
    pub fn new(k1: u64, k2: u64) -> (r: Self)
        ensures
            r.wf(),
            r.seed() == (k1, k2),
            r.count() == 0,
            r.slots() =~= Seq::<Option<(K, V)>>::empty(),
    {
        Self { builder: MyBuildHasher { k1, k2 }, vec: Vec::new(), len: 0 }
    }

    /// The current length of the slot array.
    pub fn capacity(&self) -> (r: usize)
        ensures
            r == self.slots().len(),
    {
        self.vec.len()
    }

    /// The number of occupied slots.
    pub fn len(&self) -> (r: u64)
        ensures
            r == self.count(),
    {
        self.len
    }

    /// Stores the pair `(k, v)`, always as a new entry: a key equal to one
    /// already present gets a second slot of its own, never an update.
    ///
    /// If occupancy has reached 70% of capacity the table grows first. The
    /// pair then goes into the first empty slot at or above the key's hashed
    /// index; if the probe runs off the end of the array the table grows and
    /// placement is retried from the fresh index. Growth doubles the slot
    /// array (first allocation: 32 slots) while the doubled size is still
    /// addressable; the occupancy bound below keeps room guaranteed beyond
    /// that point.
    pub fn insert(&mut self, k: K, v: V)
        requires
            old(self).wf(),
            old(self).count() < usize::MAX / 2,
        ensures
            final(self).wf(),
            final(self).seed() == old(self).seed(),
            final(self).count() == old(self).count() + 1,
            pairs_of(final(self).slots()).to_multiset() == pairs_of(
                old(self).slots(),
            ).to_multiset().insert((k, v)),
            final(self).slots().len() >= old(self).slots().len(),
            final(self).slots().len() >= 32,
            old(self).count() * 10 / 7 >= old(self).slots().len() && old(self).count() > 0
                && old(self).slots().len() > 0 && old(self).slots().len() <= usize::MAX / 2
                ==> final(self).slots().len() >= 2 * old(self).slots().len(),
    {
        let trigger: bool = (self.len as u128) * 10 / 7 >= (self.vec.len() as u128);
        if trigger {
            self.rehash();
        } else {
            proof {
                lemma_load_headroom(self.len as int, self.vec@.len() as int);
            }
        }
        proof {
            vstd::std_specs::vec::axiom_spec_len(&self.vec);
        }
        let h: u64 = make_hash(&self.builder, &k);
        let kv: (K, V) = (k, v);
        loop
            invariant
                self.wf(),
                kv == (k, v),
                self.slots().len() <= usize::MAX,
                self.count() < self.slots().len(),
                self.slots().len() >= 32,
                self.seed() == old(self).seed(),
                self.count() == old(self).count(),
                old(self).count() < usize::MAX / 2,
                pairs_of(self.slots()).to_multiset() == pairs_of(old(self).slots()).to_multiset(),
                self.slots().len() >= old(self).slots().len(),
                old(self).count() * 10 / 7 >= old(self).slots().len() && old(self).count() > 0
                    && old(self).slots().len() > 0 && old(self).slots().len() <= usize::MAX / 2
                    ==> self.slots().len() >= 2 * old(self).slots().len(),
            decreases usize::MAX - self.slots().len(),
        {
            let cap: usize = self.vec.len();
            let idx: usize = (h % (cap as u64)) as usize;
            match find_empty_from(&self.vec, idx) {
                Option::Some(j) => {
                    place_pair(&mut self.vec, j, kv);
                    self.len = self.len + 1;
                    return ;
                },
                Option::None => {
                    proof {
                        lemma_pairs_occupied(self.vec@, cap - 1);
                    }
                    if cap <= usize::MAX / 2 {
                        self.rehash();
                        proof {
                            vstd::std_specs::vec::axiom_spec_len(&self.vec);
                        }
                    } else {
                        // The array cannot grow further; spare room is still
                        // guaranteed, so take the first empty slot overall.
                        match find_empty_from(&self.vec, 0) {
                            Option::Some(j) => {
                                place_pair(&mut self.vec, j, kv);
                                self.len = self.len + 1;
                                return ;
                            },
                            Option::None => {
                                proof {
                                    lemma_pairs_full(self.vec@);
                                }
                            },
                        }
                    }
                },
            }
        }
    }

    /// Rebuilds the slot array and replays every stored pair into it. A
    /// table that is empty or still unallocated just gets its initial 32
    /// slots; otherwise the array doubles (while the doubled size is
    /// addressable) and every pair is rehashed into the new array. A replay
    /// that runs out of probe room doubles again and starts over.
    fn rehash(&mut self)
        requires
            old(self).wf(),
            old(self).count() <= usize::MAX / 2,
        ensures
            final(self).wf(),
            final(self).seed() == old(self).seed(),
            final(self).count() == old(self).count(),
            final(self).count() < final(self).slots().len(),
            pairs_of(final(self).slots()).to_multiset() == pairs_of(
                old(self).slots(),
            ).to_multiset(),
            final(self).slots().len() >= 32,
            old(self).count() == 0 || old(self).slots().len() == 0 ==> final(self).slots().len()
                == 32,
            old(self).count() > 0 && old(self).slots().len() > 0 ==> final(self).slots().len()
                >= old(self).slots().len(),
            old(self).count() > 0 && 0 < old(self).slots().len() <= usize::MAX / 2
                ==> final(self).slots().len() >= 2 * old(self).slots().len(),
    {
        let cap0: usize = self.vec.len();
        if self.len == 0 || cap0 == 0 {
            proof {
                assert(pairs_of(self.vec@) =~= Seq::<(K, V)>::empty());
                lemma_to_multiset_empty(pairs_of(self.vec@));
            }
            self.vec = empty_slots(32);
            proof {
                lemma_pow2_32();
            }
            return ;
        }
        proof {
            lemma_pairs_len(self.vec@);
        }
        let mut pending: Vec<(K, V)> = Vec::new();
        proof {
            lemma_to_multiset_empty(pending@);
            lemma_multiset_add_empty(pairs_of(self.vec@).to_multiset());
        }
        drain_pairs(&mut self.vec, &mut pending);
        self.len = 0;
        let mut cap: usize = if cap0 <= usize::MAX / 2 {
            cap0 * 2
        } else {
            cap0
        };
        proof {
            lemma_pow2_double(cap0 as int);
        }
        let ghost newcap: usize = cap;
        self.vec = empty_slots(cap);
        proof {
            lemma_multiset_add_empty(pending@.to_multiset());
        }
        loop
            invariant
                self.slots().len() == cap,
                is_pow2(cap as int),
                cap >= newcap,
                newcap >= cap0 >= 32,
                cap0 <= usize::MAX / 2 ==> newcap == 2 * cap0,
                cap0 > usize::MAX / 2 ==> newcap == cap0,
                self.seed() == old(self).seed(),
                self.len == pairs_of(self.slots()).len(),
                pairs_of(self.slots()).to_multiset().add(pending@.to_multiset()) == pairs_of(
                    old(self).slots(),
                ).to_multiset(),
                pairs_of(self.slots()).len() + pending@.len() == old(self).count(),
                old(self).count() <= usize::MAX / 2,
                old(self).count() <= cap0,
            ensures
                pending@.len() == 0,
                self.slots().len() == cap,
                is_pow2(cap as int),
                cap >= newcap,
                self.seed() == old(self).seed(),
                self.len == pairs_of(self.slots()).len(),
                pairs_of(self.slots()).to_multiset().add(pending@.to_multiset()) == pairs_of(
                    old(self).slots(),
                ).to_multiset(),
                pairs_of(self.slots()).len() + pending@.len() == old(self).count(),
            decreases usize::MAX - cap, pending@.len(),
        {
            if pending.len() == 0 {
                break ;
            }
            let ghost ps: Seq<(K, V)> = pending@;
            let pr: (K, V) = pending.pop().unwrap();
            proof {
                ps.drop_last().to_multiset_ensures();
                assert(ps == ps.drop_last().push(pr));
            }
            let h: u64 = make_hash(&self.builder, &pr.0);
            let idx: usize = (h % (cap as u64)) as usize;
            match find_empty_from(&self.vec, idx) {
                Option::Some(j) => {
                    proof {
                        lemma_multiset_insert_shift(
                            pairs_of(self.slots()).to_multiset(),
                            ps.drop_last().to_multiset(),
                            pr,
                        );
                    }
                    place_pair(&mut self.vec, j, pr);
                    self.len = self.len + 1;
                },
                Option::None => {
                    if cap <= usize::MAX / 2 {
                        // No probe room in this attempt: put everything back
                        // and start over at twice the size.
                        pending.push(pr);
                        proof {
                            assert(pending@ =~= ps);
                        }
                        drain_pairs(&mut self.vec, &mut pending);
                        self.len = 0;
                        proof {
                            lemma_pow2_double(cap as int);
                        }
                        cap = cap * 2;
                        self.vec = empty_slots(cap);
                        proof {
                            lemma_multiset_add_empty(pending@.to_multiset());
                        }
                    } else {
                        proof {
                            lemma_pairs_len(self.vec@);
                        }
                        match find_empty_from(&self.vec, 0) {
                            Option::Some(j) => {
                                proof {
                                    lemma_multiset_insert_shift(
                                        pairs_of(self.slots()).to_multiset(),
                                        ps.drop_last().to_multiset(),
                                        pr,
                                    );
                                }
                                place_pair(&mut self.vec, j, pr);
                                self.len = self.len + 1;
                            },
                            Option::None => {
                                proof {
                                    lemma_pairs_full(self.vec@);
                                }
                            },
                        }
                    }
                },
            }
        }
        proof {
            lemma_to_multiset_empty(pending@);
            lemma_multiset_add_empty(pairs_of(self.slots()).to_multiset());
        }
    }

    /// A full scan: one reference to the pair of every occupied slot, in
    /// slot order (not insertion order, since probing and growth move
    /// entries around). Each occupied slot is reported exactly once.
    pub fn iter(&self) -> (r: Vec<&(K, V)>)
        ensures
            r@.len() == pairs_of(self.slots()).len(),
            forall|i: int| 0 <= i < r@.len() ==> *r@[i] == pairs_of(self.slots())[i],
    {
        let mut out: Vec<&(K, V)> = Vec::new();
        let mut i: usize = 0;
        while i < self.vec.len()
            invariant
                i <= self.vec@.len(),
                out@.len() == pairs_of(self.vec@.take(i as int)).len(),
                forall|j: int| 0 <= j < out@.len() ==> *out@[j] == pairs_of(
                    self.vec@.take(i as int),
                )[j],
            decreases self.vec@.len() - i,
        {
            proof {
                assert(self.vec@.take(i + 1).drop_last() =~= self.vec@.take(i as int));
                assert(self.vec@.take(i + 1).last() == self.vec@[i as int]);
            }
            match &self.vec[i] {
                Option::Some(p) => {
                    out.push(p);
                },
                Option::None => {},
            }
            i = i + 1;
        }
        proof {
            assert(self.vec@.take(self.vec@.len() as int) =~= self.vec@);
        }
        out
    }
}

/// A full scan is complete: a well-formed table holds exactly `count`
/// pairs, each occupied slot contributing one of them, and a pair that was
/// stored twice is held twice — as a multiset, the scan's result carries
/// every stored pair with its multiplicity.
pub proof fn law_scan_complete<K, V>(m: HashMap<K, V>) where K: Hash
    requires
        m.wf(),
    ensures
        pairs_of(m.slots()).len() == m.count(),
        pairs_of(m.slots()).to_multiset().len() == m.count(),
{
    pairs_of(m.slots()).to_multiset_ensures();
}

/// When the occupancy trigger has not fired, the table has spare room:
/// `n * 10 / 7 < cap` forces `n < cap`.
proof fn lemma_load_headroom(n: int, cap: int)
    requires
        n >= 0,
        cap >= 0,
        n * 10 / 7 < cap,
    ensures
        n < cap,
{
    assert(n * 10 / 7 >= n) by (nonlinear_arith)
        requires
            n >= 0,
    ;
}

} // verus!
