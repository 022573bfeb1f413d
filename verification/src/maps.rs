//! Insertion-ordered maps keyed by comparable values, encoded as the map
//! kind of the wire format, with an on-demand key ordering pass.

use vstd::prelude::*;
use vstd::multiset::Multiset;
use vstd::seq_lib::lemma_multiset_commutative;
use crate::codec::{Codec, Decodable, Encodable, ValueType};
use crate::error::{DecodeError, DecodeResult};
use crate::reader::TdfReader;
use crate::tag::TdfType;
use crate::types::lemma_trunc_usize_small;
use crate::varint::{trunc_usize, varint_dec, varint_enc};
use crate::writer::TdfWriter;

verus! {

/// Lexicographic order on character sequences by code point.
pub open spec fn lex_le(a: Seq<char>, b: Seq<char>) -> bool
    decreases a.len(),
{
    if a.len() == 0 {
        true
    } else if b.len() == 0 {
        false
    } else if (a[0] as u32) == (b[0] as u32) {
        lex_le(a.skip(1), b.skip(1))
    } else {
        (a[0] as u32) < (b[0] as u32)
    }
}

/// The lexicographic order relates every two character sequences one way
/// or the other.
pub proof fn lemma_lex_le_total(a: Seq<char>, b: Seq<char>)
    ensures
        lex_le(a, b) || lex_le(b, a),
    decreases a.len(),
{
    if a.len() > 0 && b.len() > 0 && (a[0] as u32) == (b[0] as u32) {
        lemma_lex_le_total(a.skip(1), b.skip(1));
    }
}

/// The lexicographic order is transitive.
pub proof fn lemma_lex_le_trans(a: Seq<char>, b: Seq<char>, c: Seq<char>)
    requires
        lex_le(a, b),
        lex_le(b, c),
    ensures
        lex_le(a, c),
    decreases a.len(),
{
    if a.len() > 0 && b.len() > 0 && c.len() > 0 && (a[0] as u32) == (b[0] as u32) && (b[0] as u32)
        == (c[0] as u32) {
        lemma_lex_le_trans(a.skip(1), b.skip(1), c.skip(1));
    }
}

/// A type usable as a map key: it can be tested for equality and compared,
/// at the level of its deep view, by a total transitive order.
pub trait MapKey: Sized + DeepView {
    /// The order on key views.
    spec fn spec_le(a: Self::V, b: Self::V) -> bool;

    /// Whether the two keys are the same value.
    fn key_eq(&self, other: &Self) -> (r: bool)
        ensures
            r == (self.deep_view() == other.deep_view()),
    ;

    /// Whether this key orders at or before the other.
    fn key_le(&self, other: &Self) -> (r: bool)
        ensures
            r == Self::spec_le(self.deep_view(), other.deep_view()),
    ;

    /// The order relates every two keys one way or the other.
    proof fn lemma_le_total(a: Self::V, b: Self::V)
        ensures
            Self::spec_le(a, b) || Self::spec_le(b, a),
    ;

    /// The order is transitive.
    proof fn lemma_le_trans(a: Self::V, b: Self::V, c: Self::V)
        requires
            Self::spec_le(a, b),
            Self::spec_le(b, c),
        ensures
            Self::spec_le(a, c),
    ;
}

impl MapKey for String {
    open spec fn spec_le(a: Seq<char>, b: Seq<char>) -> bool {
        lex_le(a, b)
    }

    fn key_eq(&self, other: &Self) -> (r: bool) {
        self.eq(other)
    }

    fn key_le(&self, other: &Self) -> (r: bool) {
        str_le(self.as_str(), other.as_str())
    }

    proof fn lemma_le_total(a: Seq<char>, b: Seq<char>) {
        lemma_lex_le_total(a, b);
    }

    proof fn lemma_le_trans(a: Seq<char>, b: Seq<char>, c: Seq<char>) {
        lemma_lex_le_trans(a, b, c);
    }
}

/// Relies on str's comparison: lexicographic by byte value, which for
/// UTF-8 text equals lexicographic comparison by code point.
#[verifier::external_body]
fn str_le(a: &str, b: &str) -> (r: bool)
    ensures
        r == lex_le(a@, b@),
{
    a <= b
}

impl MapKey for u8 {
    open spec fn spec_le(a: u8, b: u8) -> bool {
        a <= b
    }

    fn key_eq(&self, other: &Self) -> (r: bool) {
        *self == *other
    }

    fn key_le(&self, other: &Self) -> (r: bool) {
        *self <= *other
    }

    proof fn lemma_le_total(a: u8, b: u8) {
    }

    proof fn lemma_le_trans(a: u8, b: u8, c: u8) {
    }
}

impl MapKey for u16 {
    open spec fn spec_le(a: u16, b: u16) -> bool {
        a <= b
    }

    fn key_eq(&self, other: &Self) -> (r: bool) {
        *self == *other
    }

    fn key_le(&self, other: &Self) -> (r: bool) {
        *self <= *other
    }

    proof fn lemma_le_total(a: u16, b: u16) {
    }

    proof fn lemma_le_trans(a: u16, b: u16, c: u16) {
    }
}

impl MapKey for u32 {
    open spec fn spec_le(a: u32, b: u32) -> bool {
        a <= b
    }

    fn key_eq(&self, other: &Self) -> (r: bool) {
        *self == *other
    }

    fn key_le(&self, other: &Self) -> (r: bool) {
        *self <= *other
    }

    proof fn lemma_le_total(a: u32, b: u32) {
    }

    proof fn lemma_le_trans(a: u32, b: u32, c: u32) {
    }
}

impl MapKey for u64 {
    open spec fn spec_le(a: u64, b: u64) -> bool {
        a <= b
    }

    fn key_eq(&self, other: &Self) -> (r: bool) {
        *self == *other
    }

    fn key_le(&self, other: &Self) -> (r: bool) {
        *self <= *other
    }

    proof fn lemma_le_total(a: u64, b: u64) {
    }

    proof fn lemma_le_trans(a: u64, b: u64, c: u64) {
    }
}

impl MapKey for usize {
    open spec fn spec_le(a: usize, b: usize) -> bool {
        a <= b
    }

    fn key_eq(&self, other: &Self) -> (r: bool) {
        *self == *other
    }

    fn key_le(&self, other: &Self) -> (r: bool) {
        *self <= *other
    }

    proof fn lemma_le_total(a: usize, b: usize) {
    }

    proof fn lemma_le_trans(a: usize, b: usize, c: usize) {
    }
}

impl MapKey for i8 {
    open spec fn spec_le(a: i8, b: i8) -> bool {
        a <= b
    }

    fn key_eq(&self, other: &Self) -> (r: bool) {
        *self == *other
    }

    fn key_le(&self, other: &Self) -> (r: bool) {
        *self <= *other
    }

    proof fn lemma_le_total(a: i8, b: i8) {
    }

    proof fn lemma_le_trans(a: i8, b: i8, c: i8) {
    }
}

impl MapKey for i16 {
    open spec fn spec_le(a: i16, b: i16) -> bool {
        a <= b
    }

    fn key_eq(&self, other: &Self) -> (r: bool) {
        *self == *other
    }

    fn key_le(&self, other: &Self) -> (r: bool) {
        *self <= *other
    }

    proof fn lemma_le_total(a: i16, b: i16) {
    }

    proof fn lemma_le_trans(a: i16, b: i16, c: i16) {
    }
}

impl MapKey for i32 {
    open spec fn spec_le(a: i32, b: i32) -> bool {
        a <= b
    }

    fn key_eq(&self, other: &Self) -> (r: bool) {
        *self == *other
    }

    fn key_le(&self, other: &Self) -> (r: bool) {
        *self <= *other
    }

    proof fn lemma_le_total(a: i32, b: i32) {
    }

    proof fn lemma_le_trans(a: i32, b: i32, c: i32) {
    }
}

impl MapKey for i64 {
    open spec fn spec_le(a: i64, b: i64) -> bool {
        a <= b
    }

    fn key_eq(&self, other: &Self) -> (r: bool) {
        *self == *other
    }

    fn key_le(&self, other: &Self) -> (r: bool) {
        *self <= *other
    }

    proof fn lemma_le_total(a: i64, b: i64) {
    }

    proof fn lemma_le_trans(a: i64, b: i64, c: i64) {
    }
}

impl MapKey for isize {
    open spec fn spec_le(a: isize, b: isize) -> bool {
        a <= b
    }

    fn key_eq(&self, other: &Self) -> (r: bool) {
        *self == *other
    }

    fn key_le(&self, other: &Self) -> (r: bool) {
        *self <= *other
    }

    proof fn lemma_le_total(a: isize, b: isize) {
    }

    proof fn lemma_le_trans(a: isize, b: isize, c: isize) {
    }
}

// ----------------------------------------------------------------------
// The map type
// ----------------------------------------------------------------------
/// Map that keeps its entries in insertion order, as two aligned vectors.
/// Entry order is part of the wire form, so it is part of the model.
#[derive(Debug)]
pub struct TdfMap<K, V> {
    /// The keys stored in this map
    pub keys: Vec<K>,
    /// The values stored in this map, aligned with the keys
    pub values: Vec<V>,
}

/// First position of a key view in a key sequence, or -1 when absent.
pub open spec fn key_index<K: DeepView>(ks: Seq<K>, k: K::V) -> int
    decreases ks.len(),
{
    if ks.len() == 0 {
        -1
    } else if ks[0].deep_view() == k {
        0
    } else {
        let r = key_index(ks.skip(1), k);
        if r < 0 {
            -1
        } else {
            1 + r
        }
    }
}

/// What `key_index` finds: the first position holding the key, or the
/// absence of the key.
pub proof fn lemma_key_index<K: DeepView>(ks: Seq<K>, k: K::V)
    ensures
        key_index(ks, k) == -1 || 0 <= key_index(ks, k) < ks.len(),
        key_index(ks, k) == -1 ==> forall|j: int|
            0 <= j < ks.len() ==> #[trigger] ks[j].deep_view() != k,
        key_index(ks, k) >= 0 ==> ks[key_index(ks, k)].deep_view() == k,
        key_index(ks, k) >= 0 ==> forall|j: int|
            0 <= j < key_index(ks, k) ==> #[trigger] ks[j].deep_view() != k,
    decreases ks.len(),
{
    if ks.len() > 0 && ks[0].deep_view() != k {
        lemma_key_index(ks.skip(1), k);
        assert forall|j: int| 1 <= j < ks.len() implies #[trigger] ks[j].deep_view() == ks.skip(
            1,
        )[j - 1].deep_view() by {
            assert(ks.skip(1)[j - 1] == ks[j]);
        }
    }
}

impl<K, V> TdfMap<K, V> {
    /// The two vectors hold one value for each key.
    pub open spec fn wf(self) -> bool {
        self.keys@.len() == self.values@.len()
    }

    /// The entries of the map, in order.
    pub open spec fn entries(self) -> Seq<(K, V)> {
        Seq::new(self.keys@.len(), |i: int| (self.keys@[i], self.values@[i]))
    }

    /// Creates an empty map.
    pub fn new() -> (r: TdfMap<K, V>)
        ensures
            r.wf(),
            r.keys@ == Seq::<K>::empty(),
            r.values@ == Seq::<V>::empty(),
    {
        TdfMap { keys: Vec::new(), values: Vec::new() }
    }

    /// Creates an empty map with the provided capacity reserved.
    pub fn with_capacity(capacity: usize) -> (r: TdfMap<K, V>)
        ensures
            r.wf(),
            r.keys@ == Seq::<K>::empty(),
            r.values@ == Seq::<V>::empty(),
    {
        TdfMap { keys: Vec::with_capacity(capacity), values: Vec::with_capacity(capacity) }
    }

    /// The number of entries.
    pub fn len(&self) -> (r: usize)
        ensures
            r == self.keys@.len(),
    {
        self.keys.len()
    }

    /// The key and value at the provided position, or `None` past the end.
    pub fn index(&self, index: usize) -> (r: Option<(&K, &V)>)
        requires
            self.wf(),
        ensures
            match r {
                Some(kv) => index < self.keys@.len() && *kv.0 == self.keys@[index as int] && *kv.1
                    == self.values@[index as int],
                None => index >= self.keys@.len(),
            },
    {
        if index < self.keys.len() {
            Some((&self.keys[index], &self.values[index]))
        } else {
            None
        }
    }

    /// Appends an entry at the end, whether or not the key is present.
    pub fn insert(&mut self, key: K, value: V)
        requires
            old(self).wf(),
        ensures
            final(self).wf(),
            final(self).keys@ == old(self).keys@.push(key),
            final(self).values@ == old(self).values@.push(value),
    {
        self.keys.push(key);
        self.values.push(value);
    }

    /// Removes and returns the last entry, or `None` when the map is empty.
    pub fn pop(&mut self) -> (r: Option<(K, V)>)
        requires
            old(self).wf(),
        ensures
            final(self).wf(),
            match r {
                Some(kv) => old(self).keys@.len() > 0 && kv.0 == old(self).keys@.last() && kv.1
                    == old(self).values@.last() && final(self).keys@ == old(
                    self,
                ).keys@.drop_last() && final(self).values@ == old(self).values@.drop_last(),
                None => old(self).keys@.len() == 0 && *final(self) == *old(self),
            },
    {
        if self.keys.len() > 0 {
            let k = self.keys.pop().unwrap();
            let v = self.values.pop().unwrap();
            Some((k, v))
        } else {
            None
        }
    }

    /// The keys, in entry order.
    pub fn keys(&self) -> (r: &Vec<K>)
        ensures
            r@ == self.keys@,
    {
        &self.keys
    }

    /// The values, in entry order.
    pub fn values(&self) -> (r: &Vec<V>)
        ensures
            r@ == self.values@,
    {
        &self.values
    }
}

impl<K: MapKey, V> TdfMap<K, V> {
    /// Position of the first entry whose key equals the provided one.
    fn index_of_key(&self, key: &K) -> (r: Option<usize>)
        ensures
            match r {
                Some(i) => i == key_index(self.keys@, key.deep_view()),
                None => key_index(self.keys@, key.deep_view()) == -1,
            },
    {
        let ghost ks = self.keys@;
        let ghost k = key.deep_view();
        let mut i: usize = 0;
        while i < self.keys.len()
            invariant
                i <= ks.len(),
                ks == self.keys@,
                k == key.deep_view(),
                forall|j: int| 0 <= j < i ==> #[trigger] ks[j].deep_view() != k,
            decreases ks.len() - i,
        {
            if self.keys[i].key_eq(key) {
                proof {
                    lemma_key_index(ks, k);
                }
                return Some(i);
            }
            i = i + 1;
        }
        proof {
            lemma_key_index(ks, k);
        }
        None
    }

    /// The first value stored under the provided key, or `None` when the
    /// key is absent.
    pub fn get(&self, key: &K) -> (r: Option<&V>)
        requires
            self.wf(),
        ensures
            match r {
                Some(v) => {
                    let i = key_index(self.keys@, key.deep_view());
                    0 <= i < self.keys@.len() && *v == self.values@[i]
                },
                None => key_index(self.keys@, key.deep_view()) == -1,
            },
    {
        proof {
            lemma_key_index(self.keys@, key.deep_view());
        }
        match self.index_of_key(key) {
            Some(i) => Some(&self.values[i]),
            None => None,
        }
    }

    /// Removes the first entry stored under the provided key and returns
    /// it, or `None` when the key is absent.
    pub fn remove(&mut self, key: &K) -> (r: Option<(K, V)>)
        requires
            old(self).wf(),
        ensures
            final(self).wf(),
            match r {
                Some(kv) => {
                    let i = key_index(old(self).keys@, key.deep_view());
                    &&& 0 <= i < old(self).keys@.len()
                    &&& kv.0 == old(self).keys@[i]
                    &&& kv.1 == old(self).values@[i]
                    &&& final(self).keys@ == old(self).keys@.remove(i)
                    &&& final(self).values@ == old(self).values@.remove(i)
                },
                None => key_index(old(self).keys@, key.deep_view()) == -1 && *final(self) == *old(
                    self,
                ),
            },
    {
        proof {
            lemma_key_index(self.keys@, key.deep_view());
        }
        match self.index_of_key(key) {
            Some(i) => {
                let k = self.keys.remove(i);
                let v = self.values.remove(i);
                Some((k, v))
            },
            None => None,
        }
    }

    /// Removes the first entry stored under the provided key and returns
    /// its value alone, or `None` when the key is absent.
    pub fn get_owned(&mut self, key: &K) -> (r: Option<V>)
        requires
            old(self).wf(),
        ensures
            final(self).wf(),
            match r {
                Some(v) => {
                    let i = key_index(old(self).keys@, key.deep_view());
                    &&& 0 <= i < old(self).keys@.len()
                    &&& v == old(self).values@[i]
                    &&& final(self).keys@ == old(self).keys@.remove(i)
                    &&& final(self).values@ == old(self).values@.remove(i)
                },
                None => key_index(old(self).keys@, key.deep_view()) == -1 && *final(self) == *old(
                    self,
                ),
            },
    {
        match self.remove(key) {
            Some(kv) => Some(kv.1),
            None => None,
        }
    }
}

/// One replace-or-append step: a present key keeps its place and takes the
/// new value, an absent key appends a new entry.
pub open spec fn put_pair<K: MapKey, V>(ks: Seq<K>, vs: Seq<V>, k: K, v: V) -> (Seq<K>, Seq<V>) {
    let i = key_index(ks, k.deep_view());
    if i < 0 {
        (ks.push(k), vs.push(v))
    } else {
        (ks, vs.update(i, v))
    }
}

/// Entries after merging another map's entries in order, each by one
/// replace-or-append step.
pub open spec fn extend_pairs<K: MapKey, V>(
    ks: Seq<K>,
    vs: Seq<V>,
    oks: Seq<K>,
    ovs: Seq<V>,
) -> (Seq<K>, Seq<V>)
    decreases oks.len(),
{
    if oks.len() == 0 || ovs.len() == 0 {
        (ks, vs)
    } else {
        let p = put_pair(ks, vs, oks[0], ovs[0]);
        extend_pairs(p.0, p.1, oks.skip(1), ovs.skip(1))
    }
}

/// The entries whose key views equal `k`, in their order of appearance.
pub open spec fn entries_with_key<K: DeepView, V>(es: Seq<(K, V)>, k: K::V) -> Seq<(K, V)> {
    es.filter(|e: (K, V)| e.0.deep_view() == k)
}

/// Swapping two adjacent entries whose key views differ moves no entry
/// relative to the others that share its key: every per-key subsequence
/// stays as it was.
proof fn lemma_filter_swap_distinct<K: DeepView, V>(es: Seq<(K, V)>, i: int)
    requires
        0 <= i,
        i + 1 < es.len(),
        es[i].0.deep_view() != es[i + 1].0.deep_view(),
    ensures
        forall|k: <K as DeepView>::V| #[trigger] entries_with_key(
            es.update(i, es[i + 1]).update(i + 1, es[i]),
            k,
        ) == entries_with_key(es, k),
{
    broadcast use vstd::seq_lib::group_seq_lib_default;

    let t = es.update(i, es[i + 1]).update(i + 1, es[i]);
    let front = es.take(i);
    let back = es.skip(i + 2);
    let pair = seq![es[i], es[i + 1]];
    let rpair = seq![es[i + 1], es[i]];
    assert forall|k: <K as DeepView>::V| #[trigger] entries_with_key(t, k) == entries_with_key(
        es,
        k,
    ) by {
        let pred = |e: (K, V)| e.0.deep_view() == k;
        assert(es =~= front + (pair + back));
        assert(t =~= front + (rpair + back));
        reveal_with_fuel(Seq::filter, 3);
        assert(pair.drop_last() =~= seq![es[i]]);
        assert(rpair.drop_last() =~= seq![es[i + 1]]);
        assert(seq![es[i]].drop_last() =~= Seq::<(K, V)>::empty());
        assert(seq![es[i + 1]].drop_last() =~= Seq::<(K, V)>::empty());
        assert(pair.filter(pred) =~= rpair.filter(pred));
        assert(entries_with_key(t, k) =~= entries_with_key(es, k));
    }
}

/// Keys sorted by the key order, weakly, at the level of key views.
pub open spec fn keys_sorted<K: MapKey>(ks: Seq<K>) -> bool {
    forall|i: int, j: int|
        0 <= i < j < ks.len() ==> K::spec_le(
            #[trigger] ks[i].deep_view(),
            #[trigger] ks[j].deep_view(),
        )
}

/// Swapping two positions of a sequence keeps its multiset of elements.
proof fn lemma_swap_multiset<A>(s: Seq<A>, i: int)
    requires
        0 <= i,
        i + 1 < s.len(),
    ensures
        s.update(i, s[i + 1]).update(i + 1, s[i]).to_multiset() =~= s.to_multiset(),
{
    let t = s.update(i, s[i + 1]).update(i + 1, s[i]);
    let front = s.take(i);
    let back = s.skip(i + 2);
    let mid_s = seq![s[i], s[i + 1]];
    let mid_t = seq![s[i + 1], s[i]];
    assert(s =~= front + (mid_s + back));
    assert(t =~= front + (mid_t + back));
    lemma_multiset_commutative(front, mid_s + back);
    lemma_multiset_commutative(front, mid_t + back);
    lemma_multiset_commutative(mid_s, back);
    lemma_multiset_commutative(mid_t, back);
    assert(mid_s.to_multiset() =~= mid_t.to_multiset()) by {
        mid_s.to_multiset_ensures();
        mid_t.to_multiset_ensures();
        assert(mid_s =~= seq![s[i]].push(s[i + 1]));
        assert(mid_t =~= seq![s[i + 1]].push(s[i]));
        assert(seq![s[i]] =~= Seq::<A>::empty().push(s[i]));
        assert(seq![s[i + 1]] =~= Seq::<A>::empty().push(s[i + 1]));
        Seq::<A>::empty().push(s[i]).to_multiset_ensures();
        Seq::<A>::empty().push(s[i + 1]).to_multiset_ensures();
        Seq::<A>::empty().to_multiset_ensures();
        assert(Seq::<A>::empty().to_multiset() =~= Multiset::<A>::empty());
    }
}

impl<K: MapKey, V> TdfMap<K, V> {
    /// Merges another map's entries into this one, in their order: a key
    /// already present keeps its place and takes the other map's value,
    /// a new key is appended.
    pub fn extend(&mut self, other: TdfMap<K, V>)
        requires
            old(self).wf(),
            other.wf(),
        ensures
            final(self).wf(),
            (final(self).keys@, final(self).values@) == extend_pairs(
                old(self).keys@,
                old(self).values@,
                other.keys@,
                other.values@,
            ),
    {
        let ghost goal = extend_pairs(old(self).keys@, old(self).values@, other.keys@, other.values@);
        let mut rest = other;
        while rest.keys.len() > 0
            invariant
                self.wf(),
                rest.wf(),
                goal == extend_pairs(self.keys@, self.values@, rest.keys@, rest.values@),
            decreases rest.keys@.len(),
        {
            let ghost pre_ks = self.keys@;
            let ghost pre_vs = self.values@;
            let ghost rest_ks = rest.keys@;
            let ghost rest_vs = rest.values@;
            let k = rest.keys.remove(0);
            let v = rest.values.remove(0);
            proof {
                assert(rest.keys@ =~= rest_ks.skip(1));
                assert(rest.values@ =~= rest_vs.skip(1));
                lemma_key_index(pre_ks, k.deep_view());
            }
            match self.index_of_key(&k) {
                Some(i) => {
                    self.values[i] = v;
                    proof {
                        assert((self.keys@, self.values@) == put_pair(pre_ks, pre_vs, k, v));
                    }
                },
                None => {
                    self.keys.push(k);
                    self.values.push(v);
                    proof {
                        assert((self.keys@, self.values@) == put_pair(pre_ks, pre_vs, k, v));
                    }
                },
            }
        }
        proof {
            assert(extend_pairs(self.keys@, self.values@, rest.keys@, rest.values@) == (
            self.keys@,
            self.values@,
            ));
        }
    }

    /// Sorts the entries by key, in place: afterwards every earlier key
    /// orders at or before every later one, and the entries are the same
    /// as before, paired as before.
    pub fn order(&mut self)
        requires
            old(self).wf(),
        ensures
            final(self).wf(),
            final(self).keys@.len() == old(self).keys@.len(),
            keys_sorted::<K>(final(self).keys@),
            final(self).entries().to_multiset() == old(self).entries().to_multiset(),
            forall|k: <K as DeepView>::V| #[trigger] entries_with_key(final(self).entries(), k)
                == entries_with_key(old(self).entries(), k),
    {
        let n = self.keys.len();
        if n <= 1 {
            return;
        }
        let mut pass: usize = 0;
        while pass < n - 1
            invariant
                self.wf(),
                self.keys@.len() == n,
                1 < n == old(self).keys@.len(),
                pass <= n - 1,
                self.entries().to_multiset() == old(self).entries().to_multiset(),
                forall|k: <K as DeepView>::V| #[trigger] entries_with_key(self.entries(), k)
                    == entries_with_key(old(self).entries(), k),
                forall|a: int, b: int|
                    0 <= a <= b < n && n - pass <= b ==> K::spec_le(
                        #[trigger] self.keys@[a].deep_view(),
                        #[trigger] self.keys@[b].deep_view(),
                    ),
            decreases n - pass,
        {
            let mut i: usize = 0;
            proof {
                K::lemma_le_total(self.keys@[0].deep_view(), self.keys@[0].deep_view());
            }
            while i + 1 < n - pass
                invariant
                    self.wf(),
                    self.keys@.len() == n,
                    1 < n == old(self).keys@.len(),
                    pass < n - 1,
                    i + 1 <= n - pass,
                    self.entries().to_multiset() == old(self).entries().to_multiset(),
                    forall|k: <K as DeepView>::V| #[trigger] entries_with_key(self.entries(), k)
                        == entries_with_key(old(self).entries(), k),
                    forall|a: int, b: int|
                        0 <= a <= b < n && n - pass <= b ==> K::spec_le(
                            #[trigger] self.keys@[a].deep_view(),
                            #[trigger] self.keys@[b].deep_view(),
                        ),
                    forall|a: int|
                        0 <= a <= i ==> K::spec_le(
                            #[trigger] self.keys@[a].deep_view(),
                            self.keys@[i as int].deep_view(),
                        ),
                decreases n - pass - i,
            {
                let swap = !self.keys[i].key_le(&self.keys[i + 1]);
                proof {
                    K::lemma_le_total(
                        self.keys@[i as int].deep_view(),
                        self.keys@[i + 1].deep_view(),
                    );
                }
                if swap {
                    let ghost ks0 = self.keys@;
                    let ghost vs0 = self.values@;
                    let ghost es0 = self.entries();
                    let ka = self.keys.remove(i);
                    self.keys.insert(i + 1, ka);
                    let va = self.values.remove(i);
                    self.values.insert(i + 1, va);
                    proof {
                        assert(self.keys@ =~= ks0.update(i as int, ks0[i + 1]).update(
                            i + 1,
                            ks0[i as int],
                        ));
                        assert(self.values@ =~= vs0.update(i as int, vs0[i + 1]).update(
                            i + 1,
                            vs0[i as int],
                        ));
                        assert(self.entries() =~= es0.update(i as int, es0[i + 1]).update(
                            i + 1,
                            es0[i as int],
                        ));
                        lemma_swap_multiset(es0, i as int);
                        assert(ks0[i as int].deep_view() != ks0[i + 1].deep_view()) by {
                            if ks0[i as int].deep_view() == ks0[i + 1].deep_view() {
                                K::lemma_le_total(
                                    ks0[i as int].deep_view(),
                                    ks0[i as int].deep_view(),
                                );
                            }
                        }
                        assert(es0[i as int].0.deep_view() != es0[i + 1].0.deep_view());
                        lemma_filter_swap_distinct(es0, i as int);
                        assert forall|a: int|
                            0 <= a <= i + 1 implies K::spec_le(
                            #[trigger] self.keys@[a].deep_view(),
                            self.keys@[i + 1].deep_view(),
                        ) by {
                            if a == i + 1 {
                                K::lemma_le_total(
                                    ks0[i as int].deep_view(),
                                    ks0[i as int].deep_view(),
                                );
                            }
                        }
                    }
                } else {
                    proof {
                        assert forall|a: int|
                            0 <= a <= i + 1 implies K::spec_le(
                            #[trigger] self.keys@[a].deep_view(),
                            self.keys@[i + 1].deep_view(),
                        ) by {
                            if a <= i {
                                K::lemma_le_trans(
                                    self.keys@[a].deep_view(),
                                    self.keys@[i as int].deep_view(),
                                    self.keys@[i + 1].deep_view(),
                                );
                            } else {
                                K::lemma_le_total(
                                    self.keys@[i + 1].deep_view(),
                                    self.keys@[i + 1].deep_view(),
                                );
                            }
                        }
                    }
                }
                i = i + 1;
            }
            pass = pass + 1;
        }
    }
}

// ----------------------------------------------------------------------
// Map codec
// ----------------------------------------------------------------------
/// Bytes of a run of key/value pairs: each key immediately followed by its
/// value. Pairs past the shorter of the two columns are not encoded.
pub open spec fn enc_pairs<K: Encodable, V: Encodable>(ks: Seq<K>, vs: Seq<V>) -> Seq<u8>
    decreases ks.len(),
{
    if ks.len() == 0 || vs.len() == 0 {
        Seq::<u8>::empty()
    } else {
        (ks[0].enc() + vs[0].enc()) + enc_pairs(ks.skip(1), vs.skip(1))
    }
}

/// Extending the encoded prefix of a pair run by one pair appends that
/// pair's bytes.
pub proof fn lemma_enc_pairs_snoc<K: Encodable, V: Encodable>(ks: Seq<K>, vs: Seq<V>, i: int)
    requires
        0 <= i < ks.len(),
        i < vs.len(),
    ensures
        enc_pairs(ks.take(i + 1), vs.take(i + 1)) == enc_pairs(ks.take(i), vs.take(i)) + (
        ks[i].enc() + vs[i].enc()),
    decreases i,
{
    if i == 0 {
        assert(ks.take(1) =~= seq![ks[0]]);
        assert(vs.take(1) =~= seq![vs[0]]);
        assert(ks.take(1).skip(1) =~= Seq::<K>::empty());
        assert(vs.take(1).skip(1) =~= Seq::<V>::empty());
        assert(ks.take(0) =~= Seq::<K>::empty());
        assert(vs.take(0) =~= Seq::<V>::empty());
        assert(ks.take(1)[0] == ks[0] && vs.take(1)[0] == vs[0]);
        assert(enc_pairs(Seq::<K>::empty(), Seq::<V>::empty()) =~= Seq::<u8>::empty());
        assert(enc_pairs(ks.take(1), vs.take(1)) =~= (ks[0].enc() + vs[0].enc())
            + Seq::<u8>::empty());
        assert((ks[0].enc() + vs[0].enc()) + Seq::<u8>::empty() =~= ks[0].enc() + vs[0].enc());
        assert(enc_pairs(ks.take(0), vs.take(0)) =~= Seq::<u8>::empty());
    } else {
        let kt = ks.skip(1);
        let vt = vs.skip(1);
        lemma_enc_pairs_snoc(kt, vt, i - 1);
        assert(ks.take(i + 1).skip(1) =~= kt.take(i));
        assert(vs.take(i + 1).skip(1) =~= vt.take(i));
        assert(ks.take(i).skip(1) =~= kt.take(i - 1));
        assert(vs.take(i).skip(1) =~= vt.take(i - 1));
        assert(ks.take(i + 1)[0] == ks[0] && vs.take(i + 1)[0] == vs[0]);
        assert(ks.take(i)[0] == ks[0] && vs.take(i)[0] == vs[0]);
        assert(kt[i - 1] == ks[i] && vt[i - 1] == vs[i]);
        assert((ks[0].enc() + vs[0].enc()) + (enc_pairs(kt.take(i - 1), vt.take(i - 1)) + (
        ks[i].enc() + vs[i].enc())) =~= ((ks[0].enc() + vs[0].enc()) + enc_pairs(
            kt.take(i - 1),
            vt.take(i - 1),
        )) + (ks[i].enc() + vs[i].enc()));
    }
}

/// Viewed pairs and byte count of `count` key/value pairs decoded one
/// after another from the head of `s`.
pub open spec fn dec_pairs<K: Decodable, V: Decodable>(count: int, s: Seq<u8>) -> Option<
    (Seq<(K::V, V::V)>, int),
>
    decreases count,
{
    if count <= 0 {
        Some((Seq::<(K::V, V::V)>::empty(), 0))
    } else {
        match K::dec(s) {
            None => None,
            Some((k, n)) => match V::dec(s.skip(n)) {
                None => None,
                Some((v, m)) => match dec_pairs::<K, V>(count - 1, s.skip(n + m)) {
                    None => None,
                    Some((ps, t)) => Some((seq![(k, v)] + ps, n + m + t)),
                },
            },
        }
    }
}

/// The number of encoded pairs: the shorter of the two columns.
pub open spec fn pair_count<K, V>(ks: Seq<K>, vs: Seq<V>) -> int {
    if ks.len() <= vs.len() {
        ks.len() as int
    } else {
        vs.len() as int
    }
}

/// Wire form of a map: key kind, value kind, VarInt entry count, then the
/// pairs.
pub open spec fn map_enc<K: Encodable + ValueType, V: Encodable + ValueType>(
    ks: Seq<K>,
    vs: Seq<V>,
) -> Seq<u8> {
    seq![K::spec_value_type().spec_value(), V::spec_value_type().spec_value()] + varint_enc(
        pair_count(ks, vs) as u64,
    ) + enc_pairs(ks, vs)
}

impl<K: DeepView, V: DeepView> DeepView for TdfMap<K, V> {
    type V = Seq<(K::V, V::V)>;

    open spec fn deep_view(&self) -> Seq<(K::V, V::V)> {
        Seq::new(
            self.keys@.len(),
            |i: int| (self.keys@[i].deep_view(), self.values@[i].deep_view()),
        )
    }
}

impl<K: Encodable + ValueType, V: Encodable + ValueType> Encodable for TdfMap<K, V> {
    open spec fn enc(&self) -> Seq<u8> {
        map_enc(self.keys@, self.values@)
    }

    #[verifier::loop_isolation(false)]
    fn encode(&self, writer: &mut TdfWriter) {
        let count = if self.keys.len() <= self.values.len() {
            self.keys.len()
        } else {
            self.values.len()
        };
        writer.write_map_header(K::value_type(), V::value_type(), count);
        let ghost base = writer.buffer@;
        let mut i: usize = 0;
        while i < count
            invariant
                i <= count,
                writer.buffer@ == base + enc_pairs(self.keys@.take(i as int), self.values@.take(i as int)),
            decreases count - i,
        {
            let key = &self.keys[i];
            key.encode(writer);
            let value = &self.values[i];
            value.encode(writer);
            proof {
                lemma_enc_pairs_snoc(self.keys@, self.values@, i as int);
                assert(writer.buffer@ =~= base + enc_pairs(
                    self.keys@.take(i + 1),
                    self.values@.take(i + 1),
                ));
            }
            i = i + 1;
        }
        proof {
            lemma_enc_pairs_full(self.keys@, self.values@);
            assert(writer.buffer@ =~= old(writer).buffer@ + map_enc(self.keys@, self.values@));
        }
    }
}

/// Taking each column up to the pair count changes no encoded pair.
proof fn lemma_enc_pairs_full<K: Encodable, V: Encodable>(ks: Seq<K>, vs: Seq<V>)
    ensures
        enc_pairs(ks.take(pair_count(ks, vs)), vs.take(pair_count(ks, vs))) == enc_pairs(ks, vs),
    decreases ks.len(),
{
    let c = pair_count(ks, vs);
    if ks.len() == 0 || vs.len() == 0 {
        assert(c == 0);
        assert(ks.take(c).len() == 0 || vs.take(c).len() == 0);
    } else {
        lemma_enc_pairs_full(ks.skip(1), vs.skip(1));
        assert(ks.take(c)[0] == ks[0] && vs.take(c)[0] == vs[0]);
        assert(ks.take(c).skip(1) =~= ks.skip(1).take(pair_count(ks.skip(1), vs.skip(1))));
        assert(vs.take(c).skip(1) =~= vs.skip(1).take(pair_count(ks.skip(1), vs.skip(1))));
    }
}

impl<K: Decodable + ValueType, V: Decodable + ValueType> Decodable for TdfMap<K, V> {
    open spec fn dec(s: Seq<u8>) -> Option<(Seq<(K::V, V::V)>, int)> {
        if s.len() < 2 {
            None
        } else if TdfType::spec_from_value(s[0]) != Some(K::spec_value_type())
            || TdfType::spec_from_value(s[1]) != Some(V::spec_value_type()) {
            None
        } else {
            match varint_dec(s.skip(2)) {
                None => None,
                Some((lv, n)) => match dec_pairs::<K, V>(trunc_usize(lv) as int, s.skip(2 + n)) {
                    None => None,
                    Some((ps, m)) => Some((ps, 2 + n + m)),
                },
            }
        }
    }

    fn decode(reader: &mut TdfReader) -> (r: DecodeResult<TdfMap<K, V>>) {
        reader.read_map()
    }
}

impl<K, V> ValueType for TdfMap<K, V> {
    open spec fn spec_value_type() -> TdfType {
        TdfType::Mapping
    }

    fn value_type() -> TdfType {
        TdfType::Mapping
    }
}

impl<'a> TdfReader<'a> {
    /// Reads a map: both kind bytes checked against the expected kinds,
    /// then the entry count and that many key/value pairs.
    pub fn read_map<K: Decodable + ValueType, V: Decodable + ValueType>(&mut self) -> (r:
        DecodeResult<TdfMap<K, V>>)
        requires
            old(self).wf(),
        ensures
            final(self).wf(),
            final(self).buffer == old(self).buffer,
            final(self).cursor >= old(self).cursor,
            match r {
                Ok(m) => m.wf() && (<TdfMap<K, V> as Decodable>::dec(old(self).rem()) matches Some(
                    (w, n),
                ) && m.deep_view() == w && final(self).cursor == old(self).cursor + n),
                Err(e) => <TdfMap<K, V> as Decodable>::dec(old(self).rem()) is None,
            },
    {
        let ghost entry = *self;
        let length = match self.read_map_header(K::value_type(), V::value_type()) {
            Ok(v) => v,
            Err(e) => {
                return Err(e);
            },
        };
        let ghost s2 = *self;
        proof {
            crate::varint::lemma_varint_dec_bounds(entry.rem().skip(2));
            assert(entry.rem().skip(2) =~= entry.rem().skip(2));
            assert(s2.rem() =~= entry.rem().skip(s2.cursor - entry.cursor));
            assert(entry.rem().skip(s2.cursor - entry.cursor) =~= entry.rem().skip(2).skip(
                (s2.cursor - entry.cursor) - 2,
            ));
        }
        match self.read_map_body(length) {
            Ok(m) => {
                Ok(m)
            },
            Err(e) => {
                return Err(e);
            },
        }
    }

    /// Reads a map header, checking the key and value kind bytes against
    /// the expected kinds, and returns the entry count that follows.
    pub fn read_map_header(&mut self, exp_key_type: TdfType, exp_value_type: TdfType) -> (r:
        DecodeResult<usize>)
        requires
            old(self).wf(),
        ensures
            final(self).wf(),
            final(self).buffer == old(self).buffer,
            final(self).cursor >= old(self).cursor,
            match r {
                Ok(count) => {
                    let s = old(self).rem();
                    &&& s.len() >= 2
                    &&& TdfType::spec_from_value(s[0]) == Some(exp_key_type)
                    &&& TdfType::spec_from_value(s[1]) == Some(exp_value_type)
                    &&& varint_dec(s.skip(2)) matches Some((lv, n)) && count == trunc_usize(lv)
                        && final(self).cursor == old(self).cursor + 2 + n
                },
                Err(e) => {
                    let s = old(self).rem();
                    &&& (s.len() < 2 || TdfType::spec_from_value(s[0]) != Some(exp_key_type)
                        || TdfType::spec_from_value(s[1]) != Some(exp_value_type) || varint_dec(
                        s.skip(2),
                    ) is None)
                    &&& ((s.len() >= 1 && (TdfType::spec_from_value(s[0]) matches Some(kt) && kt
                        != exp_key_type)) ==> {
                        let found = TdfType::spec_from_value(s[0])->Some_0;
                        &&& e matches DecodeError::InvalidType { expected, actual } && expected
                            == exp_key_type && actual == found
                        &&& final(self).cursor == old(self).cursor + 1
                    })
                    &&& ((s.len() >= 2 && TdfType::spec_from_value(s[0]) == Some(exp_key_type) && (
                    TdfType::spec_from_value(s[1]) matches Some(vt) && vt != exp_value_type))
                        ==> {
                        let found = TdfType::spec_from_value(s[1])->Some_0;
                        &&& e matches DecodeError::InvalidType { expected, actual } && expected
                            == exp_value_type && actual == found
                        &&& final(self).cursor == old(self).cursor + 2
                    })
                },
            },
    {
        let ghost entry = *self;
        let key_type = match self.read_type() {
            Ok(t) => t,
            Err(e) => {
                return Err(e);
            },
        };
        if key_type != exp_key_type {
            return Err(DecodeError::InvalidType { expected: exp_key_type, actual: key_type });
        }
        let ghost mid = *self;
        proof {
            assert(mid.rem() =~= entry.rem().skip(1));
        }
        let value_type = match self.read_type() {
            Ok(t) => t,
            Err(e) => {
                return Err(e);
            },
        };
        proof {
            assert(entry.rem()[1] == entry.rem().skip(1)[0]);
        }
        if value_type != exp_value_type {
            return Err(DecodeError::InvalidType { expected: exp_value_type, actual: value_type });
        }
        let ghost s2 = *self;
        proof {
            assert(s2.rem() =~= entry.rem().skip(2));
        }
        self.read_usize()
    }

    /// Reads `length` key/value pairs into a map, keeping their order.
    #[verifier::loop_isolation(false)]
    pub fn read_map_body<K: Decodable, V: Decodable>(&mut self, length: usize) -> (r: DecodeResult<
        TdfMap<K, V>,
    >)
        requires
            old(self).wf(),
        ensures
            final(self).wf(),
            final(self).buffer == old(self).buffer,
            final(self).cursor >= old(self).cursor,
            match r {
                Ok(m) => m.wf() && (dec_pairs::<K, V>(length as int, old(self).rem()) matches Some(
                    (ps, n),
                ) && m.deep_view() == ps && final(self).cursor == old(self).cursor + n),
                Err(e) => dec_pairs::<K, V>(length as int, old(self).rem()) is None,
            },
    {
        let ghost entry = *self;
        let mut map: TdfMap<K, V> = TdfMap::with_capacity(length);
        let mut i: usize = 0;
        proof {
            assert(map.deep_view() =~= Seq::<(K::V, V::V)>::empty());
        }
        while i < length
            invariant
                i <= length,
                self.wf(),
                self.buffer == entry.buffer,
                self.cursor >= entry.cursor,
                map.wf(),
                match dec_pairs::<K, V>(length - i, self.rem()) {
                    Some((ps, m)) => dec_pairs::<K, V>(length as int, entry.rem()) == Some(
                        (map.deep_view() + ps, (self.cursor - entry.cursor) + m),
                    ),
                    None => dec_pairs::<K, V>(length as int, entry.rem()) is None,
                },
            decreases length - i,
        {
            let ghost cur = *self;
            let ghost before = map.deep_view();
            let key = match K::decode(self) {
                Ok(v) => v,
                Err(e) => {
                    proof {
                        assert(dec_pairs::<K, V>(length - i, cur.rem()) is None);
                    }
                    return Err(e);
                },
            };
            proof {
                assert(self.rem() =~= cur.rem().skip(self.cursor - cur.cursor));
            }
            let ghost mid = *self;
            let value = match V::decode(self) {
                Ok(v) => v,
                Err(e) => {
                    proof {
                        assert(dec_pairs::<K, V>(length - i, cur.rem()) is None);
                    }
                    return Err(e);
                },
            };
            proof {
                assert(self.rem() =~= cur.rem().skip(self.cursor - cur.cursor));
                assert(mid.rem().skip(self.cursor - mid.cursor) =~= cur.rem().skip(
                    self.cursor - cur.cursor,
                ));
            }
            map.insert(key, value);
            proof {
                assert(map.deep_view() =~= before + seq![(key.deep_view(), value.deep_view())]);
                match dec_pairs::<K, V>((length - i) as int - 1, self.rem()) {
                    Some((ps, m)) => {
                        assert(before + (seq![(key.deep_view(), value.deep_view())] + ps)
                            =~= map.deep_view() + ps);
                    },
                    None => {
                    },
                }
            }
            i = i + 1;
        }
        proof {
            assert(dec_pairs::<K, V>(0, self.rem()) == Some((Seq::<(K::V, V::V)>::empty(), 0int)));
            assert(map.deep_view() + Seq::<(K::V, V::V)>::empty() =~= map.deep_view());
        }
        Ok(map)
    }
}

/// Decoding a run of encodings of known pairs gives those pairs back.
pub proof fn lemma_dec_pairs_round_trip<K: Codec, V: Codec>(ks: Seq<K>, vs: Seq<V>, rest: Seq<u8>)
    requires
        ks.len() == vs.len(),
        forall|i: int| 0 <= i < ks.len() ==> #[trigger] ks[i].round_trip_ok(),
        forall|i: int| 0 <= i < vs.len() ==> #[trigger] vs[i].round_trip_ok(),
    ensures
        dec_pairs::<K, V>(ks.len() as int, enc_pairs(ks, vs) + rest) == Some(
            (
                Seq::new(ks.len(), |i: int| (ks[i].deep_view(), vs[i].deep_view())),
                enc_pairs(ks, vs).len() as int,
            ),
        ),
    decreases ks.len(),
{
    let zipped = Seq::new(ks.len(), |i: int| (ks[i].deep_view(), vs[i].deep_view()));
    if ks.len() == 0 {
        assert(zipped =~= Seq::<(K::V, V::V)>::empty());
    } else {
        let k0 = ks[0];
        let v0 = vs[0];
        let kt = ks.skip(1);
        let vt = vs.skip(1);
        let tail_bytes = enc_pairs(kt, vt) + rest;
        assert(enc_pairs(ks, vs) + rest =~= k0.enc() + (v0.enc() + tail_bytes));
        K::lemma_round_trip(k0, v0.enc() + tail_bytes);
        assert((k0.enc() + (v0.enc() + tail_bytes)).skip(k0.enc().len() as int) =~= v0.enc()
            + tail_bytes);
        V::lemma_round_trip(v0, tail_bytes);
        assert((v0.enc() + tail_bytes).skip(v0.enc().len() as int) =~= tail_bytes);
        lemma_dec_pairs_round_trip(kt, vt, rest);
        assert((k0.enc() + (v0.enc() + tail_bytes)).skip(
            k0.enc().len() + v0.enc().len() as int,
        ) =~= tail_bytes);
        let ztail = Seq::new(kt.len(), |i: int| (kt[i].deep_view(), vt[i].deep_view()));
        assert(seq![(k0.deep_view(), v0.deep_view())] + ztail =~= zipped);
    }
}

impl<K: Codec + ValueType, V: Codec + ValueType> Codec for TdfMap<K, V> {
    /// A map round-trips when its columns align and every key and value
    /// itself round-trips.
    open spec fn round_trip_ok(&self) -> bool {
        &&& self.wf()
        &&& forall|i: int| 0 <= i < self.keys@.len() ==> #[trigger] self.keys@[i].round_trip_ok()
        &&& forall|i: int|
            0 <= i < self.values@.len() ==> #[trigger] self.values@[i].round_trip_ok()
    }

    proof fn lemma_round_trip(v: TdfMap<K, V>, rest: Seq<u8>) {
        vstd::std_specs::vec::axiom_spec_len(&v.keys);
        let ks = v.keys@;
        let vs = v.values@;
        let s = v.enc() + rest;
        crate::tag::lemma_type_value_round_trip(K::spec_value_type());
        crate::tag::lemma_type_value_round_trip(V::spec_value_type());
        assert(s[0] == K::spec_value_type().spec_value());
        assert(s[1] == V::spec_value_type().spec_value());
        assert(s.skip(2) =~= varint_enc(ks.len() as u64) + (enc_pairs(ks, vs) + rest));
        crate::varint::lemma_varint_round_trip(ks.len() as u64, enc_pairs(ks, vs) + rest);
        let n = varint_enc(ks.len() as u64).len() as int;
        lemma_trunc_usize_small(ks.len());
        assert(s.skip(2 + n) =~= enc_pairs(ks, vs) + rest);
        lemma_dec_pairs_round_trip(ks, vs, rest);
        assert(v.deep_view() =~= Seq::new(ks.len(), |i: int| (ks[i].deep_view(), vs[i].deep_view())));
    }
}

} // verus!
