//! Maps that forget what was used longest ago.
//!
//! The entries of a map are modelled as a sequence, the one used longest ago first. Looking an entry
//! up moves it to the end, and so does writing it.
use crate::node::primitives::{BscBlock, BscBlockView, B256};
use schnellru::{ByLength, LruMap};
use vstd::prelude::*;

verus! {

/// Whether the key is there.
pub open spec fn holds<K, V>(s: Seq<(K, V)>, key: K) -> bool {
    exists|i: int| 0 <= i < s.len() && (#[trigger] s[i]).0 == key
}

/// Where the key is.
pub open spec fn place<K, V>(s: Seq<(K, V)>, key: K) -> int
    recommends
        holds(s, key),
{
    choose|i: int| 0 <= i < s.len() && (#[trigger] s[i]).0 == key
}

/// What the key is bound to.
pub open spec fn lookup<K, V>(s: Seq<(K, V)>, key: K) -> Option<V> {
    if holds(s, key) {
        Some(s[place(s, key)].1)
    } else {
        None
    }
}

/// The entries once `key` was looked up: its own is now the last.
pub open spec fn touched<K, V>(s: Seq<(K, V)>, key: K) -> Seq<(K, V)> {
    if holds(s, key) {
        s.remove(place(s, key)).push(s[place(s, key)])
    } else {
        s
    }
}

/// The entries without the `gone` that were used longest ago.
pub open spec fn without_oldest<K, V>(s: Seq<(K, V)>, gone: nat) -> Seq<(K, V)> {
    s.skip(gone as int)
}

/// How many entries have to go so that one more fits in.
pub open spec fn surplus<K, V>(s: Seq<(K, V)>, limit: nat) -> nat {
    if s.len() + 1 > limit {
        (s.len() + 1 - limit) as nat
    } else {
        0
    }
}

/// How many of the newest entries stay at least when a new key is written, however little memory
/// there is: half of those that the limit leaves, less one.
pub open spec fn spared<K, V>(s: Seq<(K, V)>, limit: nat) -> nat {
    let half = (s.len() - surplus(s, limit)) / 2;
    if half > 1 {
        (half - 1) as nat
    } else {
        0
    }
}

/// Whether writing `key` can take the entries from `s` to `t`, and report `done`.
///
/// A key that is there gets the new value and moves to the end. A new key goes to the end, and as
/// many of the oldest entries go as the limit asks for. More of them go only where no memory can be
/// had for the new one, but never the [`spared`] newest ones, and where that does not help either
/// the new one is left out.
pub open spec fn written<K, V>(
    s: Seq<(K, V)>,
    limit: nat,
    key: K,
    value: V,
    done: bool,
    t: Seq<(K, V)>,
) -> bool {
    if holds(s, key) {
        done && t == s.remove(place(s, key)).push((key, value))
    } else if done {
        exists|gone: nat|
            surplus(s, limit) <= gone && gone + spared(s, limit) <= s.len() && t == (
            #[trigger] without_oldest(s, gone)).push((key, value))
    } else {
        exists|gone: nat|
            gone + spared(s, limit) <= s.len() && t == #[trigger] without_oldest(s, gone)
    }
}

/// Whether no key is there twice.
pub open spec fn distinct<K, V>(s: Seq<(K, V)>) -> bool {
    forall|i: int, j: int|
        0 <= i < j < s.len() ==> (#[trigger] s[i]).0 != (#[trigger] s[j]).0
}

/// A key that is there stands at its place, and nowhere else.
pub proof fn lemma_place<K, V>(s: Seq<(K, V)>, i: int)
    requires
        0 <= i < s.len(),
        distinct(s),
    ensures
        holds(s, s[i].0),
        place(s, s[i].0) == i,
        lookup(s, s[i].0) == Some(s[i].1),
{
    let key = s[i].0;
    assert(holds(s, key));
    let p = place(s, key);
    assert(0 <= p < s.len() && s[p].0 == key);
    if p < i {
        assert(s[p].0 != s[i].0);
    } else if i < p {
        assert(s[i].0 != s[p].0);
    }
}

/// Looking a key up changes neither which keys are there nor what they are bound to.
pub proof fn law_lookup_keeps_entries<K, V>(s: Seq<(K, V)>, key: K, other: K)
    requires
        distinct(s),
    ensures
        distinct(touched(s, key)),
        touched(s, key).len() == s.len(),
        lookup(touched(s, key), other) == lookup(s, other),
{
    if holds(s, key) {
        let p = place(s, key);
        let t = touched(s, key);
        assert forall|i: int, j: int| 0 <= i < j < t.len() implies (#[trigger] t[i]).0 != (
        #[trigger] t[j]).0 by {
            let i0 = if i < p { i } else { i + 1 };
            let j0 = if j == t.len() - 1 { p } else if j < p { j } else { j + 1 };
            assert(t[i] == s[i0] && t[j] == s[j0]);
        }
        if holds(s, other) {
            let q = place(s, other);
            let q0 = if q == p { t.len() - 1 } else if q < p { q } else { q - 1 };
            assert(t[q0] == s[q]);
            lemma_place(t, q0);
        } else {
            if holds(t, other) {
                let q = place(t, other);
                let q0 = if q == t.len() - 1 { p } else if q < p { q } else { q + 1 };
                assert(s[q0] == t[q]);
            }
        }
    }
}

/// Writing a key keeps the keys distinct and the entries within the limit, and an entry that was
/// written is the one used last. Every other entry is either as it was or gone.
pub proof fn law_written<K, V>(
    s: Seq<(K, V)>,
    limit: nat,
    key: K,
    value: V,
    done: bool,
    t: Seq<(K, V)>,
)
    requires
        distinct(s),
        s.len() <= limit,
        written(s, limit, key, value, done, t),
    ensures
        distinct(t),
        t.len() <= limit,
        done ==> t.len() > 0 && t.last() == (key, value) && lookup(t, key) == Some(value),
        !done ==> lookup(t, key) is None,
        forall|other: K|
            other != key && #[trigger] holds(t, other) ==> lookup(t, other) == lookup(s, other),
        forall|i: int| 0 <= i < t.len() ==> s.contains(#[trigger] t[i]) || t[i] == (key, value),
{
    let old_place: spec_fn(int) -> int = |i: int|
        if holds(s, key) {
            if i < place(s, key) {
                i
            } else {
                i + 1
            }
        } else {
            i + s.len() - (if done {
                t.len() - 1
            } else {
                t.len() as int
            })
        };
    let kept: int = if done {
        t.len() - 1
    } else {
        t.len() as int
    };
    assert forall|i: int| 0 <= i < kept implies #[trigger] t[i] == s[old_place(i)] && 0
        <= old_place(i) < s.len() by {
        if !holds(s, key) {
            if done {
                let gone = choose|gone: nat|
                    surplus(s, limit) <= gone && gone + spared(s, limit) <= s.len() && t == (
                    #[trigger] without_oldest(s, gone)).push((key, value));
                assert(t.len() == s.len() - gone + 1);
            } else {
                let gone = choose|gone: nat|
                    gone + spared(s, limit) <= s.len() && t == #[trigger] without_oldest(s, gone);
                assert(t.len() == s.len() - gone);
            }
        }
    }
    assert forall|i: int| 0 <= i < kept implies (#[trigger] t[i]).0 != key by {
        assert(t[i] == s[old_place(i)]);
        if holds(s, key) {
            let p = place(s, key);
            assert(old_place(i) != p);
            if old_place(i) < p {
                assert(s[old_place(i)].0 != s[p].0);
            } else {
                assert(s[p].0 != s[old_place(i)].0);
            }
        }
    }
    assert(distinct(t)) by {
        assert forall|i: int, j: int| 0 <= i < j < t.len() implies (#[trigger] t[i]).0 != (
        #[trigger] t[j]).0 by {
            assert(t[i] == s[old_place(i)]);
            if j < kept {
                assert(t[j] == s[old_place(j)]);
                assert(old_place(i) < old_place(j));
            }
        }
    }
    if done {
        assert(t[t.len() - 1] == (key, value));
        lemma_place(t, t.len() - 1);
    }
    assert forall|other: K| other != key && #[trigger] holds(t, other) implies lookup(t, other)
        == lookup(s, other) by {
        let i = place(t, other);
        assert(t[i] == s[old_place(i)]);
        lemma_place(s, old_place(i));
    }
    assert forall|i: int| 0 <= i < t.len() implies s.contains(#[trigger] t[i]) || t[i] == (
        key,
        value,
    ) by {
        if i < kept {
            assert(t[i] == s[old_place(i)]);
        }
    }
}

/// Where memory can be had, so that the map ends up with one entry more or at its limit, a new key
/// takes the place of the one entry used longest ago in a full map, and of none in any other.
pub proof fn law_write_forgets_the_oldest<K, V>(
    s: Seq<(K, V)>,
    limit: nat,
    key: K,
    value: V,
    t: Seq<(K, V)>,
)
    requires
        s.len() <= limit,
        0 < limit,
        !holds(s, key),
        written(s, limit, key, value, true, t),
        t.len() == limit || t.len() == s.len() + 1,
    ensures
        s.len() < limit ==> t == s.push((key, value)),
        s.len() == limit ==> t == s.skip(1).push((key, value)),
{
    let gone = choose|gone: nat|
        surplus(s, limit) <= gone && gone + spared(s, limit) <= s.len() && t == (
        #[trigger] without_oldest(s, gone)).push((key, value));
    assert(t.len() == s.len() - gone + 1);
    assert(s.skip(0) =~= s);
}

/// Whether the map came out of a write as large as it would with memory at hand: the key was there,
/// or there is one entry more, or the map is at its limit.
pub open spec fn had_memory<K, V>(s: Seq<(K, V)>, limit: nat, key: K, t: Seq<(K, V)>) -> bool {
    holds(s, key) || t.len() == s.len() + 1 || t.len() == limit
}

/// Whether writing `key` makes the map forget `other`: the map is full, the key is new, and no entry
/// was used longer ago.
pub open spec fn forgotten<K, V>(s: Seq<(K, V)>, limit: nat, key: K, other: K) -> bool {
    !holds(s, key) && s.len() == limit && s.len() > 0 && s[0].0 == other
}

/// A write with memory at hand leaves every other key bound as it was, but for the one that a full
/// map forgets.
pub proof fn law_write_keeps_others<K, V>(
    s: Seq<(K, V)>,
    limit: nat,
    key: K,
    value: V,
    t: Seq<(K, V)>,
    other: K,
)
    requires
        distinct(s),
        s.len() <= limit,
        0 < limit,
        written(s, limit, key, value, true, t),
        had_memory(s, limit, key, t),
        other != key,
    ensures
        lookup(t, other) == (if forgotten(s, limit, key, other) {
            None
        } else {
            lookup(s, other)
        }),
{
    law_written(s, limit, key, value, true, t);
    let full = s.len() == limit;
    if holds(s, key) {
        if holds(s, other) {
            let p = place(s, key);
            let q = place(s, other);
            let i = if q < p {
                q
            } else {
                q - 1
            };
            assert(t[i] == s[q]);
            lemma_place(t, i);
        }
    } else {
        law_write_forgets_the_oldest(s, limit, key, value, t);
        if holds(s, other) {
            let q = place(s, other);
            assert(s[q].0 == other);
            if full && q == 0 {
                if holds(t, other) {
                    let i = place(t, other);
                    assert(t[i] == s[i + 1]);
                    assert(s[0].0 != s[i + 1].0);
                }
            } else {
                if full && s[0].0 == other {
                    assert(s[0].0 != s[q].0);
                }
                let i = if full {
                    q - 1
                } else {
                    q
                };
                assert(t[i] == s[q]);
                lemma_place(t, i);
            }
        }
    }
    if !holds(s, other) && full && s.len() > 0 {
        assert(s[0].0 != other);
    }
}

/// Whether an entry is among the newest ones, which stay when `key` is written, however little
/// memory there is: any entry does where the key is there already.
pub open spec fn stays<K, V>(s: Seq<(K, V)>, limit: nat, key: K, other: K) -> bool {
    holds(s, other) && (holds(s, key) || place(s, other) >= s.len() - spared(s, limit))
}

/// Whatever memory there is, a write leaves the newest of the other entries as they were.
pub proof fn law_write_spares_the_newest<K, V>(
    s: Seq<(K, V)>,
    limit: nat,
    key: K,
    value: V,
    done: bool,
    t: Seq<(K, V)>,
    other: K,
)
    requires
        distinct(s),
        s.len() <= limit,
        written(s, limit, key, value, done, t),
        other != key,
        stays(s, limit, key, other),
    ensures
        lookup(t, other) == lookup(s, other),
        lookup(t, other) is Some,
{
    law_written(s, limit, key, value, done, t);
    let q = place(s, other);
    assert(s[q].0 == other);
    if holds(s, key) {
        let p = place(s, key);
        let i = if q < p {
            q
        } else {
            q - 1
        };
        assert(t[i] == s[q]);
        assert(holds(t, other));
    } else {
        let gone = if done {
            choose|gone: nat|
                surplus(s, limit) <= gone && gone + spared(s, limit) <= s.len() && t == (
                #[trigger] without_oldest(s, gone)).push((key, value))
        } else {
            choose|gone: nat|
                gone + spared(s, limit) <= s.len() && t == #[trigger] without_oldest(s, gone)
        };
        assert(t[q - gone] == s[q]);
        assert(holds(t, other));
    }
}

/// Blocks by hash.
#[verifier::external_body]
pub struct BlockLru {
    map: LruMap<B256, BscBlock, ByLength>,
}

/// The entries of a [`BlockLru`], the one used longest ago first.
pub uninterp spec fn block_entries(m: BlockLru) -> Seq<(Seq<u8>, BscBlockView)>;

/// How many entries a [`BlockLru`] was made for.
pub uninterp spec fn block_limit(m: BlockLru) -> nat;

impl BlockLru {
    /// Calls `schnellru::LruMap::new` with a `ByLength` limiter: an empty map.
    #[verifier::external_body]
    pub(crate) fn new(max_length: u32) -> (r: Self)
        ensures
            block_entries(r) == Seq::<(Seq<u8>, BscBlockView)>::empty(),
            block_limit(r) == max_length,
    {
        BlockLru { map: LruMap::new(ByLength::new(max_length)) }
    }

    /// Calls `schnellru::LruMap::insert`, which reports whether the entry is in the map afterwards.
    /// What it does to the entries is [`written`]. Where the table has to grow and memory cannot be
    /// had, the oldest go one by one until the entry fits in, or until fewer than half of what the
    /// table has room for are left and it is packed anew; how many go in between rests on the
    /// allocator, and so does whether the entry gets in.
    #[verifier::external_body]
    pub fn insert(&mut self, key: B256, value: BscBlock) -> (done: bool)
        ensures
            written(
                block_entries(*old(self)),
                block_limit(*old(self)),
                key@,
                value@,
                done,
                block_entries(*final(self)),
            ),
            block_limit(*final(self)) == block_limit(*old(self)),
    {
        self.map.insert(key, value)
    }

    /// Calls `schnellru::LruMap::get`, which hands out the value of the key and makes its entry the
    /// one used last.
    #[verifier::external_body]
    pub(crate) fn get(&mut self, key: &B256) -> (r: Option<&BscBlock>)
        ensures
            match r {
                Some(b) => lookup(block_entries(*old(self)), key@) == Some(b@),
                None => lookup(block_entries(*old(self)), key@) is None,
            },
            block_entries(*final(self)) == touched(block_entries(*old(self)), key@),
            block_limit(*final(self)) == block_limit(*old(self)),
    {
        self.map.get(key).map(|v| &*v)
    }
}

/// Hashes by block number.
#[verifier::external_body]
pub struct NumberLru {
    map: LruMap<u64, B256, ByLength>,
}

/// The entries of a [`NumberLru`], the one used longest ago first.
pub uninterp spec fn number_entries(m: NumberLru) -> Seq<(u64, Seq<u8>)>;

/// How many entries a [`NumberLru`] was made for.
pub uninterp spec fn number_limit(m: NumberLru) -> nat;

impl NumberLru {
    /// Calls `schnellru::LruMap::new` with a `ByLength` limiter: an empty map.
    #[verifier::external_body]
    pub(crate) fn new(max_length: u32) -> (r: Self)
        ensures
            number_entries(r) == Seq::<(u64, Seq<u8>)>::empty(),
            number_limit(r) == max_length,
    {
        NumberLru { map: LruMap::new(ByLength::new(max_length)) }
    }

    /// Calls `schnellru::LruMap::insert`, which reports whether the entry is in the map afterwards.
    /// What it does to the entries is [`written`]. Where the table has to grow and memory cannot be
    /// had, the oldest go one by one until the entry fits in, or until fewer than half of what the
    /// table has room for are left and it is packed anew; how many go in between rests on the
    /// allocator, and so does whether the entry gets in.
    #[verifier::external_body]
    pub fn insert(&mut self, key: u64, value: B256) -> (done: bool)
        ensures
            written(
                number_entries(*old(self)),
                number_limit(*old(self)),
                key,
                value@,
                done,
                number_entries(*final(self)),
            ),
            number_limit(*final(self)) == number_limit(*old(self)),
    {
        self.map.insert(key, value)
    }

    /// Calls `schnellru::LruMap::get`, which hands out the value of the key and makes its entry the
    /// one used last.
    #[verifier::external_body]
    pub(crate) fn get(&mut self, key: u64) -> (r: Option<&B256>)
        ensures
            match r {
                Some(h) => lookup(number_entries(*old(self)), key) == Some(h@),
                None => lookup(number_entries(*old(self)), key) is None,
            },
            number_entries(*final(self)) == touched(number_entries(*old(self)), key),
            number_limit(*final(self)) == number_limit(*old(self)),
    {
        self.map.get(&key).map(|v| &*v)
    }
}

/// A lookup, and a write of a key that is there, make that entry the last, and leave the order of the
/// others. A lookup of a key that is not there changes nothing.
pub proof fn law_used_last<K, V>(s: Seq<(K, V)>, limit: nat, i: int, value: V, done: bool, t: Seq<(K, V)>)
    requires
        distinct(s),
        0 <= i < s.len(),
        written(s, limit, s[i].0, value, done, t),
    ensures
        touched(s, s[i].0) == s.remove(i).push(s[i]),
        done,
        t == s.remove(i).push((s[i].0, value)),
        forall|key: K|
            (forall|k: int| 0 <= k < s.len() ==> (#[trigger] s[k]).0 != key) ==> #[trigger] touched(
                s,
                key,
            ) == s,
{
    lemma_place(s, i);
}

/// A lookup finds what the key is bound to, and nothing where the key is not there.
pub proof fn law_lookup<K, V>(s: Seq<(K, V)>, i: int, key: K)
    requires
        distinct(s),
    ensures
        0 <= i < s.len() ==> lookup(s, s[i].0) == Some(s[i].1),
        (forall|k: int| 0 <= k < s.len() ==> (#[trigger] s[k]).0 != key) ==> lookup(s, key) is None,
{
    if 0 <= i < s.len() {
        lemma_place(s, i);
    }
}

} // verus!
