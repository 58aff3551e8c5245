//! The bounded aggregation table: a fixed array of small associative buckets
//! keyed by captured stacks, plus an overflow store that keeps what the
//! buckets evict.
use vstd::prelude::*;

use crate::error::Error;

verus! {

/// Number of buckets in a `HashCounter`.
pub const BUCKETS: usize = 4096;

/// Number of distinct keys that one bucket holds before it evicts.
pub const BUCKETS_ASSOCIATIVITY: usize = 4;

/// Room reserved in the overflow store when a collector is created, so that
/// the first evictions do not allocate inside the signal handler.
pub const OVERFLOW_RESERVE: usize = 128;

/// Starting state of the key hash.
pub const HASH_OFFSET: u64 = 0xcbf2_9ce4_8422_2325;

/// Multiplier of the key hash.
pub const HASH_PRIME: u64 = 0x0000_0100_0000_01b3;

/// The key hash: FNV-1a taken over 64-bit words instead of bytes.
pub open spec fn hash_words(words: Seq<u64>) -> u64
    decreases words.len(),
{
    if words.len() == 0 {
        HASH_OFFSET
    } else {
        (hash_words(words.drop_last()) ^ words.last()).wrapping_mul(HASH_PRIME)
    }
}

/// The bucket that a key with these words lives in.
pub open spec fn bucket_index(words: Seq<u64>) -> int {
    (hash_words(words) % (BUCKETS as u64)) as int
}

/// One step of the key hash, as executable code.
pub fn hash_step(h: u64, w: u64) -> (r: u64)
    ensures
        r == (h ^ w).wrapping_mul(HASH_PRIME),
{
    (h ^ w).wrapping_mul(HASH_PRIME)
}

/// A value that the aggregation table can count. Two values are the same key
/// exactly when their `key` words are equal.
pub trait SampleKey: Sized {
    /// The words that identify this key.
    spec fn key(&self) -> Seq<u64>;

    /// Whether two values are the same key.
    fn same_key(&self, other: &Self) -> (r: bool)
        ensures
            r == (self.key() == other.key()),
    ;

    /// The hash of this key's words.
    fn key_hash(&self) -> (r: u64)
        ensures
            r == hash_words(self.key()),
    ;

    /// A copy of this value that is the same key.
    fn duplicate(&self) -> (r: Self)
        ensures
            r.key() == self.key(),
    ;
}

impl SampleKey for usize {
    open spec fn key(&self) -> Seq<u64> {
        seq![*self as u64]
    }

    fn same_key(&self, other: &Self) -> (r: bool) {
        assert(self.key()[0] == *self as u64);
        assert(other.key()[0] == *other as u64);
        *self == *other
    }

    fn key_hash(&self) -> (r: u64) {
        assert(self.key().drop_last() =~= Seq::<u64>::empty());
        assert(hash_words(Seq::<u64>::empty()) == HASH_OFFSET);
        hash_step(HASH_OFFSET, *self as u64)
    }

    fn duplicate(&self) -> (r: Self) {
        *self
    }
}

impl SampleKey for (u16, u32, u64, u64) {
    open spec fn key(&self) -> Seq<u64> {
        seq![self.0 as u64, self.1 as u64, self.2, self.3]
    }

    fn same_key(&self, other: &Self) -> (r: bool) {
        let r = self.0 == other.0 && self.1 == other.1 && self.2 == other.2 && self.3 == other.3;
        assert(self.key()[0] == self.0 as u64 && self.key()[1] == self.1 as u64);
        assert(other.key()[0] == other.0 as u64 && other.key()[1] == other.1 as u64);
        assert(self.key()[2] == self.2 && self.key()[3] == self.3);
        assert(other.key()[2] == other.2 && other.key()[3] == other.3);
        if r {
            assert(self.key() =~= other.key());
        }
        r
    }

    fn key_hash(&self) -> (r: u64) {
        let ghost w = self.key();
        assert(w.drop_last().drop_last().drop_last().drop_last() =~= Seq::<u64>::empty());
        assert(w.drop_last().drop_last().drop_last() =~= seq![self.0 as u64]);
        assert(w.drop_last().drop_last() =~= seq![self.0 as u64, self.1 as u64]);
        assert(w.drop_last() =~= seq![self.0 as u64, self.1 as u64, self.2]);
        assert(hash_words(Seq::<u64>::empty()) == HASH_OFFSET);
        let h = hash_step(HASH_OFFSET, self.0 as u64);
        assert(h == hash_words(w.drop_last().drop_last().drop_last()));
        let h = hash_step(h, self.1 as u64);
        assert(h == hash_words(w.drop_last().drop_last()));
        let h = hash_step(h, self.2);
        assert(h == hash_words(w.drop_last()));
        hash_step(h, self.3)
    }

    fn duplicate(&self) -> (r: Self) {
        *self
    }
}

/// A key together with its count. The count is signed so that a negative
/// delta can be recorded.
#[derive(Debug)]
pub struct Entry<T> {
    pub item: T,
    pub count: isize,
}

/// Sum of the counts of the entries whose key is `k`.
pub open spec fn count_of<T: SampleKey>(s: Seq<Entry<T>>, k: Seq<u64>) -> int
    decreases s.len(),
{
    if s.len() == 0 {
        0
    } else {
        count_of(s.drop_last(), k) + if s.last().item.key() == k {
            s.last().count as int
        } else {
            0
        }
    }
}

/// The evicted entry, if any, as a sequence of at most one entry.
pub open spec fn evicted_seq<T>(r: Option<Entry<T>>) -> Seq<Entry<T>> {
    match r {
        Some(e) => seq![e],
        None => Seq::empty(),
    }
}

/// Index of the last entry with key `k`, or -1 when there is none.
pub open spec fn index_of_key<T: SampleKey>(s: Seq<Entry<T>>, k: Seq<u64>) -> int
    decreases s.len(),
{
    if s.len() == 0 {
        -1
    } else if s.last().item.key() == k {
        s.len() - 1
    } else {
        index_of_key(s.drop_last(), k)
    }
}

/// Index of the first entry with the smallest count (0 for an empty sequence).
pub open spec fn min_count_index<T>(s: Seq<Entry<T>>) -> int
    decreases s.len(),
{
    if s.len() <= 1 {
        0
    } else {
        let m = min_count_index(s.drop_last());
        if s.last().count < s[m].count {
            s.len() - 1
        } else {
            m
        }
    }
}

/// No two entries share a key.
pub open spec fn keys_distinct<T: SampleKey>(s: Seq<Entry<T>>) -> bool {
    forall|i: int, j: int|
        0 <= i < s.len() && 0 <= j < s.len() && i != j ==> #[trigger] s[i].item.key()
            != #[trigger] s[j].item.key()
}

/// What one addition of `(key, count)` does to a bucket holding `s`: the
/// entries it ends up holding and the entry it hands back, if any.
///  - The key is resident: its count grows by `count`. Should the sum leave
///    the range of `isize`, the bucket is unchanged and the new entry is
///    handed back instead, so that it is kept elsewhere.
///  - The key is new and there is room: it is appended.
///  - The key is new and the bucket is full: the first entry with the
///    smallest count is replaced by the new one and handed back.
pub open spec fn bucket_after_add<T: SampleKey>(s: Seq<Entry<T>>, key: T, count: isize) -> (
    Seq<Entry<T>>,
    Option<Entry<T>>,
) {
    let at = index_of_key(s, key.key());
    if at >= 0 {
        let sum = s[at].count + count;
        if isize::MIN <= sum <= isize::MAX {
            (s.update(at, Entry { item: s[at].item, count: sum as isize }), None)
        } else {
            (s, Some(Entry { item: key, count }))
        }
    } else if s.len() < BUCKETS_ASSOCIATIVITY {
        (s.push(Entry { item: key, count }), None)
    } else {
        let m = min_count_index(s);
        (s.update(m, Entry { item: key, count }), Some(s[m]))
    }
}

/// One bucket: at most `BUCKETS_ASSOCIATIVITY` entries with distinct keys.
#[derive(Debug)]
pub struct Bucket<T> {
    entries: Vec<Entry<T>>,
}

impl<T> View for Bucket<T> {
    type V = Seq<Entry<T>>;

    closed spec fn view(&self) -> Seq<Entry<T>> {
        self.entries@
    }
}

impl<T: SampleKey> Bucket<T> {
    /// The bucket's invariant.
    pub open spec fn wf(&self) -> bool {
        &&& self@.len() <= BUCKETS_ASSOCIATIVITY
        &&& keys_distinct(self@)
    }

    /// An empty bucket, with room for its entries allocated up front.
    pub fn new() -> (r: Self)
        ensures
            r.wf(),
            r@.len() == 0,
    {
        Bucket { entries: Vec::with_capacity(BUCKETS_ASSOCIATIVITY) }
    }

    /// Number of resident entries.
    pub fn len(&self) -> (r: usize)
        ensures
            r == self@.len(),
    {
        self.entries.len()
    }

    /// Adds `count` under `key`; returns the entry that had to leave, if any.
    pub fn add(&mut self, key: T, count: isize) -> (r: Option<Entry<T>>)
        requires
            old(self).wf(),
        ensures
            final(self).wf(),
            (final(self)@, r) == bucket_after_add(old(self)@, key, count),
            forall|k: Seq<u64>|
                count_of(final(self)@, k) + count_of(evicted_seq(r), k) == count_of(old(self)@, k)
                    + if k == key.key() {
                    count as int
                } else {
                    0
                },
    {
        let ghost s = self@;
        let ghost kk = key.key();
        let mut i: usize = 0;
        while i < self.entries.len()
            invariant
                self@ == s,
                kk == key.key(),
                0 <= i <= s.len(),
                forall|j: int| 0 <= j < i ==> #[trigger] s[j].item.key() != kk,
            ensures
                0 <= i <= s.len(),
                forall|j: int| 0 <= j < i ==> #[trigger] s[j].item.key() != kk,
                i < s.len() ==> s[i as int].item.key() == kk,
            decreases s.len() - i,
        {
            if self.entries[i].item.same_key(&key) {
                break;
            }
            i = i + 1;
        }
        let found = i < self.entries.len();
        if found {
            proof {
                lemma_index_of_distinct_key(s, kk, i as int);
            }
            match self.entries[i].count.checked_add(count) {
                Some(sum) => {
                    self.entries[i].count = sum;
                    proof {
                        lemma_count_of_update(s, i as int, Entry { item: s[i as int].item, count: sum });
                    }
                    assert(self@ =~= s.update(i as int, Entry { item: s[i as int].item, count: sum }));
                    assert forall|a: int, b: int|
                        0 <= a < self@.len() && 0 <= b < self@.len() && a != b implies #[trigger] self@[a].item.key()
                            != #[trigger] self@[b].item.key() by {
                        assert(self@[a].item == s[a].item);
                        assert(self@[b].item == s[b].item);
                    }
                    None
                },
                None => {
                    let e = Entry { item: key, count };
                    proof {
                        lemma_count_of_single(e, kk);
                    }
                    Some(e)
                },
            }
        } else if self.entries.len() < BUCKETS_ASSOCIATIVITY {
            proof {
                lemma_index_of_absent_key(s, kk);
            }
            let e = Entry { item: key, count };
            proof {
                lemma_count_of_push(s, e);
            }
            self.entries.push(e);
            None
        } else {
            proof {
                lemma_index_of_absent_key(s, kk);
            }
            let mut min_index: usize = 0;
            let mut min_count = self.entries[0].count;
            let mut j: usize = 1;
            while j < self.entries.len()
                invariant
                    self@ == s,
                    s.len() == BUCKETS_ASSOCIATIVITY,
                    1 <= j <= s.len(),
                    min_index == min_count_index(s.take(j as int)),
                    0 <= min_index < j,
                    min_count == s[min_index as int].count,
                decreases s.len() - j,
            {
                proof {
                    lemma_min_count_index_bound(s.take(j as int));
                    assert(s.take(j as int + 1).drop_last() =~= s.take(j as int));
                }
                let c = self.entries[j].count;
                if c < min_count {
                    min_index = j;
                    min_count = c;
                }
                j = j + 1;
            }
            assert(s.take(s.len() as int) =~= s);
            let mut evicted = Entry { item: key, count };
            let ghost e = evicted;
            std::mem::swap(&mut self.entries[min_index], &mut evicted);
            proof {
                lemma_count_of_update(s, min_index as int, e);
                lemma_count_of_single(evicted, kk);
                lemma_count_of_single(e, kk);
                assert(self@ =~= s.update(min_index as int, e));
                assert forall|a: int, b: int|
                    0 <= a < self@.len() && 0 <= b < self@.len() && a != b implies #[trigger] self@[a].item.key()
                        != #[trigger] self@[b].item.key() by {
                    if a != min_index && b != min_index {
                        assert(self@[a] == s[a]);
                        assert(self@[b] == s[b]);
                    } else if a == min_index {
                        assert(self@[b] == s[b]);
                    } else {
                        assert(self@[a] == s[a]);
                    }
                }
            }
            Some(evicted)
        }
    }

    /// An iterator over the resident entries.
    pub fn iter(&self) -> (r: BucketIterator<'_, T>)
        ensures
            r.bucket() == self,
            r.position() == 0,
    {
        BucketIterator { related_bucket: self, index: 0 }
    }
}

/// Walks the entries of one bucket in order.
pub struct BucketIterator<'a, T> {
    related_bucket: &'a Bucket<T>,
    index: usize,
}

impl<'a, T> BucketIterator<'a, T> {
    /// The bucket being walked.
    pub closed spec fn bucket(&self) -> &'a Bucket<T> {
        self.related_bucket
    }

    /// How many entries have been handed out so far.
    pub closed spec fn position(&self) -> int {
        self.index as int
    }

    /// The next entry, or `None` once every entry has been handed out.
    pub fn next(&mut self) -> (r: Option<&'a Entry<T>>)
        requires
            old(self).position() <= old(self).bucket()@.len(),
        ensures
            final(self).bucket() == old(self).bucket(),
            final(self).position() <= final(self).bucket()@.len(),
            old(self).position() < old(self).bucket()@.len() ==> {
                &&& r == Some(&old(self).bucket()@[old(self).position()])
                &&& final(self).position() == old(self).position() + 1
            },
            old(self).position() == old(self).bucket()@.len() ==> {
                &&& r is None
                &&& final(self).position() == old(self).position()
            },
    {
        if self.index < self.related_bucket.entries.len() {
            self.index = self.index + 1;
            Some(&self.related_bucket.entries[self.index - 1])
        } else {
            None
        }
    }
}

/// The entries of all buckets, bucket by bucket.
pub open spec fn flatten<T>(bs: Seq<Seq<Entry<T>>>) -> Seq<Entry<T>>
    decreases bs.len(),
{
    if bs.len() == 0 {
        Seq::empty()
    } else {
        flatten(bs.drop_last()) + bs.last()
    }
}

/// What one addition does to a table whose buckets hold `bs`: the key goes to
/// the bucket its hash selects, which changes as `bucket_after_add` says.
pub open spec fn counter_after_add<T: SampleKey>(
    bs: Seq<Seq<Entry<T>>>,
    key: T,
    count: isize,
) -> (Seq<Seq<Entry<T>>>, Option<Entry<T>>) {
    let b = bucket_index(key.key());
    let (s2, r) = bucket_after_add(bs[b], key, count);
    (bs.update(b, s2), r)
}

/// The entries that a sequence of references points to.
pub open spec fn derefs<T>(s: Seq<&Entry<T>>) -> Seq<Entry<T>> {
    s.map_values(|e: &Entry<T>| *e)
}

/// `BUCKETS` empty buckets.
pub open spec fn empty_buckets<T>() -> Seq<Seq<Entry<T>>> {
    Seq::new(BUCKETS as nat, |i: int| Seq::<Entry<T>>::empty())
}

/// A fixed array of `BUCKETS` buckets; a key lives in the bucket that its
/// hash selects.
pub struct HashCounter<T> {
    buckets: Vec<Bucket<T>>,
}

impl<T> View for HashCounter<T> {
    type V = Seq<Seq<Entry<T>>>;

    closed spec fn view(&self) -> Seq<Seq<Entry<T>>> {
        self.buckets@.map_values(|b: Bucket<T>| b@)
    }
}

/// The invariant of a table whose buckets hold `bs`.
pub open spec fn buckets_wf<T: SampleKey>(bs: Seq<Seq<Entry<T>>>) -> bool {
    &&& bs.len() == BUCKETS
    &&& forall|b: int|
        0 <= b < bs.len() ==> {
            &&& (#[trigger] bs[b]).len() <= BUCKETS_ASSOCIATIVITY
            &&& keys_distinct(bs[b])
            &&& forall|j: int| 0 <= j < bs[b].len() ==> bucket_index(#[trigger] bs[b][j].item.key()) == b
        }
}

impl<T: SampleKey> HashCounter<T> {
    /// The table's invariant.
    pub open spec fn wf(&self) -> bool {
        buckets_wf(self@)
    }

    /// The resident entries, bucket by bucket.
    pub open spec fn entries(&self) -> Seq<Entry<T>> {
        flatten(self@)
    }

    /// Adds `count` under `key` in the bucket that the key's hash selects;
    /// returns the entry that had to leave that bucket, if any.
    pub fn add(&mut self, key: T, count: isize) -> (r: Option<Entry<T>>)
        requires
            old(self).wf(),
        ensures
            final(self).wf(),
            (final(self)@, r) == counter_after_add(old(self)@, key, count),
            forall|k: Seq<u64>|
                count_of(final(self).entries(), k) + count_of(evicted_seq(r), k) == count_of(
                    old(self).entries(),
                    k,
                ) + if k == key.key() {
                    count as int
                } else {
                    0
                },
    {
        let ghost bs = self@;
        let ghost kk = key.key();
        let hash_value = key.key_hash();
        let index = (hash_value % (BUCKETS as u64)) as usize;
        assert(self.buckets@[index as int]@ == bs[index as int]);
        let r = self.buckets[index].add(key, count);
        proof {
            let s2 = self.buckets@[index as int]@;
            assert(self@ =~= bs.update(index as int, s2));
            lemma_after_add_keeps_bucket(bs[index as int], key, count, index as int);
            lemma_flatten_update(bs, index as int, s2);
        }
        r
    }

    /// The resident entries, bucket by bucket.
    pub fn iter(&self) -> (r: Vec<&Entry<T>>)
        requires
            self.wf(),
        ensures
            derefs(r@) == self.entries(),
    {
        let mut r: Vec<&Entry<T>> = Vec::new();
        let mut b: usize = 0;
        while b < self.buckets.len()
            invariant
                self.wf(),
                0 <= b <= BUCKETS,
                derefs(r@) == flatten(self@.take(b as int)),
            decreases BUCKETS - b,
        {
            let bucket = &self.buckets[b];
            assert(bucket@ == self@[b as int]);
            let ghost before = derefs(r@);
            let mut j: usize = 0;
            while j < bucket.entries.len()
                invariant
                    0 <= j <= bucket@.len(),
                    derefs(r@) == before + bucket@.take(j as int),
                decreases bucket@.len() - j,
            {
                let e = &bucket.entries[j];
                assert(*e == bucket@[j as int]);
                let ghost prev = r@;
                r.push(e);
                assert(r@ == prev.push(e));
                assert(derefs(r@) =~= before + bucket@.take(j as int + 1)) by {
                    assert(derefs(prev) == before + bucket@.take(j as int));
                    assert(derefs(r@).len() == r@.len());
                    assert(derefs(prev).len() == prev.len());
                    assert forall|x: int| 0 <= x < r@.len() implies #[trigger] derefs(r@)[x] == (before + bucket@.take(j as int + 1))[x] by {
                        assert(j < bucket@.len());
                        assert(bucket@.take(j as int + 1).len() == j + 1);
                        assert(derefs(prev).len() == prev.len());
                        assert(prev.len() == before.len() + j);
                        if x < prev.len() {
                            assert(r@[x] == prev[x]);
                            assert(derefs(prev)[x] == *prev[x]);
                            if x < before.len() {
                            } else {
                                assert(bucket@.take(j as int + 1)[x - before.len()] == bucket@.take(j as int)[x - before.len()]);
                            }
                        } else {
                            assert(derefs(r@)[x] == *e);
                            assert(bucket@.take(j as int + 1)[j as int] == bucket@[j as int]);
                        }
                    }
                }
                j = j + 1;
            }
            assert(bucket@.take(j as int) =~= bucket@);
            assert(self@.take(b as int + 1).drop_last() =~= self@.take(b as int));
            b = b + 1;
        }
        assert(self@.take(BUCKETS as int) =~= self@);
        r
    }
}

impl<T: SampleKey> Default for HashCounter<T> {
    /// A table of empty buckets.
    fn default() -> (r: Self)
        ensures
            r.wf(),
            r@ == empty_buckets::<T>(),
    {
        let mut buckets: Vec<Bucket<T>> = Vec::with_capacity(BUCKETS);
        let mut i: usize = 0;
        while i < BUCKETS
            invariant
                0 <= i <= BUCKETS,
                buckets@.len() == i,
                forall|j: int| 0 <= j < i ==> (#[trigger] buckets@[j])@.len() == 0,
            decreases BUCKETS - i,
        {
            buckets.push(Bucket::new());
            i = i + 1;
        }
        let r = HashCounter { buckets };
        assert forall|j: int| 0 <= j < BUCKETS implies r@[j] =~= empty_buckets::<T>()[j] by {
            assert(r@[j] == buckets@[j]@);
        }
        assert(r@ =~= empty_buckets::<T>());
        r
    }
}

// Facts about count_of, index_of_key and min_count_index.

pub(crate) proof fn lemma_count_of_push<T: SampleKey>(s: Seq<Entry<T>>, e: Entry<T>)
    ensures
        forall|k: Seq<u64>|
            #[trigger] count_of(s.push(e), k) == count_of(s, k) + if e.item.key() == k {
                e.count as int
            } else {
                0
            },
{
    assert forall|k: Seq<u64>|
        #[trigger] count_of(s.push(e), k) == count_of(s, k) + if e.item.key() == k {
            e.count as int
        } else {
            0
        } by {
        assert(s.push(e).drop_last() =~= s);
    }
}

proof fn lemma_count_of_single<T: SampleKey>(e: Entry<T>, kk: Seq<u64>)
    ensures
        forall|k: Seq<u64>|
            #[trigger] count_of(evicted_seq(Some(e)), k) == if e.item.key() == k {
                e.count as int
            } else {
                0
            },
{
    assert forall|k: Seq<u64>|
        #[trigger] count_of(evicted_seq(Some(e)), k) == if e.item.key() == k {
            e.count as int
        } else {
            0
        } by {
        assert(seq![e].drop_last() =~= Seq::<Entry<T>>::empty());
        assert(count_of(Seq::<Entry<T>>::empty(), k) == 0);
    }
}

pub(crate) proof fn lemma_count_of_update<T: SampleKey>(s: Seq<Entry<T>>, i: int, e: Entry<T>)
    requires
        0 <= i < s.len(),
    ensures
        forall|k: Seq<u64>|
            #[trigger] count_of(s.update(i, e), k) == count_of(s, k) - (if s[i].item.key() == k {
                s[i].count as int
            } else {
                0
            }) + (if e.item.key() == k {
                e.count as int
            } else {
                0
            }),
{
    assert forall|k: Seq<u64>|
        #[trigger] count_of(s.update(i, e), k) == count_of(s, k) - (if s[i].item.key() == k {
            s[i].count as int
        } else {
            0
        }) + (if e.item.key() == k {
            e.count as int
        } else {
            0
        }) by {
        lemma_count_of_update_at(s, i, e, k);
    }
}

proof fn lemma_count_of_update_at<T: SampleKey>(s: Seq<Entry<T>>, i: int, e: Entry<T>, k: Seq<u64>)
    requires
        0 <= i < s.len(),
    ensures
        count_of(s.update(i, e), k) == count_of(s, k) - (if s[i].item.key() == k {
            s[i].count as int
        } else {
            0
        }) + (if e.item.key() == k {
            e.count as int
        } else {
            0
        }),
    decreases s.len(),
{
    if i < s.len() - 1 {
        lemma_count_of_update_at(s.drop_last(), i, e, k);
        assert(s.update(i, e).drop_last() =~= s.drop_last().update(i, e));
    } else {
        assert(s.update(i, e).drop_last() =~= s.drop_last());
    }
}

proof fn lemma_count_of_append<T: SampleKey>(a: Seq<Entry<T>>, b: Seq<Entry<T>>, k: Seq<u64>)
    ensures
        count_of(a + b, k) == count_of(a, k) + count_of(b, k),
    decreases b.len(),
{
    if b.len() == 0 {
        assert(a + b =~= a);
    } else {
        lemma_count_of_append(a, b.drop_last(), k);
        assert((a + b).drop_last() =~= a + b.drop_last());
    }
}

proof fn lemma_index_of_distinct_key<T: SampleKey>(s: Seq<Entry<T>>, k: Seq<u64>, i: int)
    requires
        keys_distinct(s),
        0 <= i < s.len(),
        s[i].item.key() == k,
    ensures
        index_of_key(s, k) == i,
    decreases s.len(),
{
    if i < s.len() - 1 {
        assert(s.last() == s[s.len() - 1]);
        lemma_index_of_distinct_key(s.drop_last(), k, i);
    }
}

proof fn lemma_index_of_absent_key<T: SampleKey>(s: Seq<Entry<T>>, k: Seq<u64>)
    requires
        forall|j: int| 0 <= j < s.len() ==> #[trigger] s[j].item.key() != k,
    ensures
        index_of_key(s, k) == -1,
    decreases s.len(),
{
    if s.len() > 0 {
        assert(s.last() == s[s.len() - 1]);
        lemma_index_of_absent_key(s.drop_last(), k);
    }
}

proof fn lemma_min_count_index_bound<T>(s: Seq<Entry<T>>)
    ensures
        s.len() > 0 ==> 0 <= min_count_index(s) < s.len(),
    decreases s.len(),
{
    if s.len() > 1 {
        lemma_min_count_index_bound(s.drop_last());
    }
}

} // verus!

verus! {

proof fn lemma_after_add_keeps_bucket<T: SampleKey>(s: Seq<Entry<T>>, key: T, count: isize, b: int)
    requires
        s.len() <= BUCKETS_ASSOCIATIVITY,
        keys_distinct(s),
        forall|j: int| 0 <= j < s.len() ==> bucket_index(#[trigger] s[j].item.key()) == b,
        bucket_index(key.key()) == b,
    ensures
        ({
            let s2 = bucket_after_add(s, key, count).0;
            &&& s2.len() <= BUCKETS_ASSOCIATIVITY
            &&& keys_distinct(s2)
            &&& forall|j: int| 0 <= j < s2.len() ==> bucket_index(#[trigger] s2[j].item.key()) == b
        }),
{
    let s2 = bucket_after_add(s, key, count).0;
    let at = index_of_key(s, key.key());
    if at < 0 && s.len() < BUCKETS_ASSOCIATIVITY {
        lemma_index_of_key_none(s, key.key());
        assert forall|j: int| 0 <= j < s2.len() implies bucket_index(#[trigger] s2[j].item.key()) == b by {
            if j < s.len() {
                assert(s2[j] == s[j]);
            }
        }
    } else if at < 0 {
        lemma_index_of_key_none(s, key.key());
        lemma_min_count_index_bound(s);
        let m = min_count_index(s);
        assert forall|i: int, j: int|
            0 <= i < s2.len() && 0 <= j < s2.len() && i != j implies #[trigger] s2[i].item.key()
                != #[trigger] s2[j].item.key() by {
            if i != m {
                assert(s2[i] == s[i]);
            }
            if j != m {
                assert(s2[j] == s[j]);
            }
        }
        assert forall|j: int| 0 <= j < s2.len() implies bucket_index(#[trigger] s2[j].item.key()) == b by {
            if j != m {
                assert(s2[j] == s[j]);
            }
        }
    } else {
        lemma_index_of_key_some(s, key.key());
        assert forall|i: int, j: int|
            0 <= i < s2.len() && 0 <= j < s2.len() && i != j implies #[trigger] s2[i].item.key()
                != #[trigger] s2[j].item.key() by {
            assert(s2[i].item == s[i].item);
            assert(s2[j].item == s[j].item);
        }
        assert forall|j: int| 0 <= j < s2.len() implies bucket_index(#[trigger] s2[j].item.key()) == b by {
            assert(s2[j].item == s[j].item);
        }
    }
}

proof fn lemma_index_of_key_none<T: SampleKey>(s: Seq<Entry<T>>, k: Seq<u64>)
    requires
        index_of_key(s, k) < 0,
    ensures
        forall|j: int| 0 <= j < s.len() ==> #[trigger] s[j].item.key() != k,
    decreases s.len(),
{
    if s.len() > 0 {
        lemma_index_of_key_none(s.drop_last(), k);
        assert forall|j: int| 0 <= j < s.len() implies #[trigger] s[j].item.key() != k by {
            if j < s.len() - 1 {
                assert(s[j] == s.drop_last()[j]);
            }
        }
    }
}

proof fn lemma_index_of_key_some<T: SampleKey>(s: Seq<Entry<T>>, k: Seq<u64>)
    requires
        index_of_key(s, k) >= 0,
    ensures
        index_of_key(s, k) < s.len(),
        s[index_of_key(s, k)].item.key() == k,
    decreases s.len(),
{
    if s.len() > 0 && s.last().item.key() != k {
        lemma_index_of_key_some(s.drop_last(), k);
    }
}

proof fn lemma_flatten_update<T: SampleKey>(bs: Seq<Seq<Entry<T>>>, b: int, s2: Seq<Entry<T>>)
    requires
        0 <= b < bs.len(),
    ensures
        forall|k: Seq<u64>|
            #[trigger] count_of(flatten(bs.update(b, s2)), k) == count_of(flatten(bs), k) - count_of(
                bs[b],
                k,
            ) + count_of(s2, k),
{
    assert forall|k: Seq<u64>|
        #[trigger] count_of(flatten(bs.update(b, s2)), k) == count_of(flatten(bs), k) - count_of(
            bs[b],
            k,
        ) + count_of(s2, k) by {
        lemma_flatten_update_at(bs, b, s2, k);
    }
}

proof fn lemma_flatten_update_at<T: SampleKey>(
    bs: Seq<Seq<Entry<T>>>,
    b: int,
    s2: Seq<Entry<T>>,
    k: Seq<u64>,
)
    requires
        0 <= b < bs.len(),
    ensures
        count_of(flatten(bs.update(b, s2)), k) == count_of(flatten(bs), k) - count_of(bs[b], k)
            + count_of(s2, k),
    decreases bs.len(),
{
    let n = bs.len();
    lemma_count_of_append(flatten(bs.drop_last()), bs.last(), k);
    lemma_count_of_append(flatten(bs.update(b, s2).drop_last()), bs.update(b, s2).last(), k);
    if b < n - 1 {
        assert(bs.update(b, s2).drop_last() =~= bs.drop_last().update(b, s2));
        lemma_flatten_update_at(bs.drop_last(), b, s2, k);
    } else {
        assert(bs.update(b, s2).drop_last() =~= bs.drop_last());
    }
}

} // verus!

verus! {

/// The whole state of a collector: the table's buckets and the overflow
/// store, in the order in which evicted entries arrived.
pub type CollectorState<T> = (Seq<Seq<Entry<T>>>, Seq<Entry<T>>);

/// What one addition does to a collector: the table changes as
/// `counter_after_add` says and whatever it evicts is appended to the
/// overflow store.
pub open spec fn collector_after_add<T: SampleKey>(v: CollectorState<T>, key: T, count: isize) -> CollectorState<T> {
    let (bs2, r) = counter_after_add(v.0, key, count);
    (bs2, v.1 + evicted_seq(r))
}

/// Resident entries first, then the overflow store: what a report reads.
pub open spec fn all_entries<T>(v: CollectorState<T>) -> Seq<Entry<T>> {
    flatten(v.0) + v.1
}

/// A collector with nothing in it.
pub open spec fn empty_state<T>() -> CollectorState<T> {
    (empty_buckets::<T>(), Seq::empty())
}

/// The collector state after adding `counts[i]` under `keys[i]`, in order.
pub open spec fn run_adds<T: SampleKey>(v: CollectorState<T>, keys: Seq<T>, counts: Seq<isize>) -> CollectorState<T>
    decreases keys.len(),
{
    if keys.len() == 0 || counts.len() == 0 {
        v
    } else {
        collector_after_add(
            run_adds(v, keys.drop_last(), counts.drop_last()),
            keys.last(),
            counts.last(),
        )
    }
}

/// Sum of the `counts[i]` whose `keys[i]` is the key `k`.
pub open spec fn added_under<T: SampleKey>(keys: Seq<T>, counts: Seq<isize>, k: Seq<u64>) -> int
    decreases keys.len(),
{
    if keys.len() == 0 || counts.len() == 0 {
        0
    } else {
        added_under(keys.drop_last(), counts.drop_last(), k) + if keys.last().key() == k {
            counts.last() as int
        } else {
            0
        }
    }
}

/// The set of distinct keys among `keys`.
pub open spec fn key_set<T: SampleKey>(keys: Seq<T>) -> Set<Seq<u64>> {
    keys.map_values(|t: T| t.key()).to_set()
}

/// Counts keyed by captured samples: a `HashCounter` whose evicted entries go
/// to an in-memory overflow store, so that no count is dropped.
pub struct Collector<T> {
    map: HashCounter<T>,
    overflow: Vec<Entry<T>>,
}

impl<T> View for Collector<T> {
    type V = CollectorState<T>;

    closed spec fn view(&self) -> CollectorState<T> {
        (self.map@, self.overflow@)
    }
}

impl<T: SampleKey> Collector<T> {
    /// The collector's invariant.
    pub open spec fn wf(&self) -> bool {
        buckets_wf(self@.0)
    }

    /// An empty collector. The overflow store lives in memory and grows past
    /// its reserve as needed, so creation cannot fail and no evicted count is
    /// ever dropped.
    pub fn new() -> (r: Result<Self, Error>)
        ensures
            r is Ok,
            r matches Ok(c) ==> c.wf() && c@ == empty_state::<T>(),
    {
        let map = HashCounter::default();
        let c = Collector { map, overflow: Vec::with_capacity(OVERFLOW_RESERVE) };
        assert(c@.1 =~= Seq::<Entry<T>>::empty());
        Ok(c)
    }

    /// Adds `count` under `key`; an entry evicted from the table is kept in
    /// the overflow store.
    pub fn add(&mut self, key: T, count: isize) -> (r: Result<(), Error>)
        requires
            old(self).wf(),
        ensures
            r is Ok,
            final(self).wf(),
            final(self)@ == collector_after_add(old(self)@, key, count),
    {
        match self.map.add(key, count) {
            Some(evict) => {
                let ghost before = self.overflow@;
                self.overflow.push(evict);
                assert(self.overflow@ =~= before + evicted_seq(Some(evict)));
            },
            None => {
                assert(self.overflow@ =~= self.overflow@ + evicted_seq::<T>(None));
            },
        }
        Ok(())
    }

    /// Every entry: the resident ones bucket by bucket, then the overflow
    /// store. A key may occur more than once; whoever reads the entries sums
    /// the counts of equal keys.
    pub fn try_iter(&self) -> (r: Result<Vec<&Entry<T>>, Error>)
        requires
            self.wf(),
        ensures
            r matches Ok(v) && derefs(v@) == all_entries(self@),
    {
        let mut v = self.map.iter();
        let ghost resident = derefs(v@);
        let mut i: usize = 0;
        while i < self.overflow.len()
            invariant
                0 <= i <= self.overflow@.len(),
                derefs(v@) == resident + self.overflow@.take(i as int),
            decreases self.overflow@.len() - i,
        {
            let e = &self.overflow[i];
            let ghost prev = v@;
            v.push(e);
            assert(derefs(v@) =~= resident + self.overflow@.take(i as int + 1)) by {
                assert(derefs(prev).len() == prev.len());
                assert(derefs(v@).len() == v@.len());
                assert forall|x: int| 0 <= x < v@.len() implies #[trigger] derefs(v@)[x] == (resident
                    + self.overflow@.take(i as int + 1))[x] by {
                    if x < prev.len() {
                        assert(v@[x] == prev[x]);
                        assert(derefs(prev)[x] == *prev[x]);
                        if x >= resident.len() {
                            assert(self.overflow@.take(i as int + 1)[x - resident.len()]
                                == self.overflow@.take(i as int)[x - resident.len()]);
                        }
                    } else {
                        assert(derefs(v@)[x] == *e);
                    }
                }
            }
            i = i + 1;
        }
        assert(self.overflow@.take(self.overflow@.len() as int) =~= self.overflow@);
        Ok(v)
    }
}

/// No sample is lost: after any sequence of additions, the counts held under
/// a key (resident and overflowed together) are what was held before plus
/// everything added under that key.
pub proof fn lemma_no_sample_lost<T: SampleKey>(
    v: CollectorState<T>,
    keys: Seq<T>,
    counts: Seq<isize>,
    k: Seq<u64>,
)
    requires
        buckets_wf(v.0),
        keys.len() == counts.len(),
    ensures
        buckets_wf(run_adds(v, keys, counts).0),
        count_of(all_entries(run_adds(v, keys, counts)), k) == count_of(all_entries(v), k)
            + added_under(keys, counts, k),
    decreases keys.len(),
{
    if keys.len() > 0 {
        let prev = run_adds(v, keys.drop_last(), counts.drop_last());
        lemma_no_sample_lost(v, keys.drop_last(), counts.drop_last(), k);
        lemma_collector_add_total(prev, keys.last(), counts.last(), k);
    }
}

/// With fewer than `BUCKETS_ASSOCIATIVITY` distinct keys in all, and no
/// running total that leaves the range of `isize`, a collector that starts
/// empty never evicts, and holds under each key exactly the sum of what was
/// added under it.
pub proof fn lemma_few_keys_exact<T: SampleKey>(keys: Seq<T>, counts: Seq<isize>)
    requires
        keys.len() == counts.len(),
        key_set(keys).len() < BUCKETS_ASSOCIATIVITY,
        forall|i: int, k: Seq<u64>|
            0 <= i <= keys.len() ==> isize::MIN <= #[trigger] added_under(keys.take(i), counts.take(i), k)
                <= isize::MAX,
    ensures
        run_adds(empty_state::<T>(), keys, counts).1.len() == 0,
        forall|k: Seq<u64>|
            #[trigger] count_of(flatten(run_adds(empty_state::<T>(), keys, counts).0), k)
                == added_under(keys, counts, k),
{
    let n = keys.len() as int;
    assert(keys.take(n) =~= keys);
    assert(counts.take(n) =~= counts);
    lemma_few_keys_prefix(keys, counts, n);
    let v = run_adds(empty_state::<T>(), keys, counts);
    assert forall|k: Seq<u64>|
        #[trigger] count_of(flatten(v.0), k) == added_under(keys, counts, k) by {
        lemma_empty_state_wf::<T>(k);
        lemma_no_sample_lost(empty_state::<T>(), keys, counts, k);
        assert(all_entries(v) =~= flatten(v.0));
    }
}

proof fn lemma_empty_state_wf<T: SampleKey>(k: Seq<u64>)
    ensures
        buckets_wf(empty_state::<T>().0),
        count_of(all_entries(empty_state::<T>()), k) == 0,
{
    lemma_flatten_empty(empty_buckets::<T>());
    assert(all_entries(empty_state::<T>()) =~= Seq::<Entry<T>>::empty());
}

proof fn lemma_flatten_empty<T>(bs: Seq<Seq<Entry<T>>>)
    requires
        forall|b: int| 0 <= b < bs.len() ==> (#[trigger] bs[b]).len() == 0,
    ensures
        flatten(bs).len() == 0,
    decreases bs.len(),
{
    if bs.len() > 0 {
        lemma_flatten_empty(bs.drop_last());
    }
}

proof fn lemma_few_keys_prefix<T: SampleKey>(keys: Seq<T>, counts: Seq<isize>, i: int)
    requires
        keys.len() == counts.len(),
        0 <= i <= keys.len(),
        key_set(keys).len() < BUCKETS_ASSOCIATIVITY,
        forall|i: int, k: Seq<u64>|
            0 <= i <= keys.len() ==> isize::MIN <= #[trigger] added_under(keys.take(i), counts.take(i), k)
                <= isize::MAX,
    ensures
        ({
            let v = run_adds(empty_state::<T>(), keys.take(i), counts.take(i));
            &&& v.1.len() == 0
            &&& buckets_wf(v.0)
            &&& forall|b: int, j: int|
                0 <= b < BUCKETS && 0 <= j < v.0[b].len() ==> {
                    &&& key_set(keys).contains((#[trigger] v.0[b][j]).item.key())
                    &&& v.0[b][j].count == added_under(keys.take(i), counts.take(i), v.0[b][j].item.key())
                }
        }),
    decreases i,
{
    let v = run_adds(empty_state::<T>(), keys.take(i), counts.take(i));
    if i == 0 {
        assert(keys.take(0).len() == 0);
        lemma_empty_state_wf::<T>(Seq::empty());
        assert(v == empty_state::<T>());
    } else {
        lemma_few_keys_prefix(keys, counts, i - 1);
        let ks = keys.take(i);
        let cs = counts.take(i);
        assert(ks.drop_last() =~= keys.take(i - 1));
        assert(cs.drop_last() =~= counts.take(i - 1));
        let pv = run_adds(empty_state::<T>(), keys.take(i - 1), counts.take(i - 1));
        let key = ks.last();
        let count = cs.last();
        let kk = key.key();
        let b = bucket_index(kk);
        let s = pv.0[b];
        assert(v == collector_after_add(pv, key, count));
        assert(0 <= b < BUCKETS);
        assert(key == keys[i - 1]);
        assert(keys.map_values(|t: T| t.key())[i - 1] == kk);
        assert(key_set(keys).contains(kk));
        lemma_empty_state_wf::<T>(kk);
        lemma_no_sample_lost(empty_state::<T>(), keys.take(i - 1), counts.take(i - 1), kk);
        assert(all_entries(pv) =~= flatten(pv.0));
        lemma_count_of_flatten_in_bucket(pv.0, kk);
        let at = index_of_key(s, kk);
        // the running totals after this step, for every key
        assert forall|k: Seq<u64>|
            #[trigger] added_under(ks, cs, k) == added_under(keys.take(i - 1), counts.take(i - 1), k)
                + if k == kk {
                count as int
            } else {
                0
            } by {}
        if at >= 0 {
            lemma_index_of_key_some(s, kk);
            lemma_count_of_distinct_at(s, at, kk);
            assert(isize::MIN <= added_under(ks, cs, kk) <= isize::MAX);
        } else {
            lemma_index_of_key_none(s, kk);
            lemma_count_of_absent(s, kk);
            lemma_bucket_len_bound(s, key_set(keys));
        }
        lemma_after_add_keeps_bucket(s, key, count, b);
        let s2 = bucket_after_add(s, key, count).0;
        assert(v.0 == pv.0.update(b, s2));
        assert(v.1 =~= pv.1);
        assert forall|c: int, j: int|
            0 <= c < BUCKETS && 0 <= j < v.0[c].len() implies {
                &&& key_set(keys).contains((#[trigger] v.0[c][j]).item.key())
                &&& v.0[c][j].count == added_under(ks, cs, v.0[c][j].item.key())
            } by {
            if c != b {
                assert(v.0[c] == pv.0[c]);
                assert(bucket_index(pv.0[c][j].item.key()) == c);
            } else if at >= 0 {
                if j != at {
                    assert(s2[j] == s[j]);
                }
            } else {
                if j < s.len() {
                    assert(s2[j] == s[j]);
                }
            }
        }
    }
}

proof fn lemma_bucket_len_bound<T: SampleKey>(s: Seq<Entry<T>>, all: Set<Seq<u64>>)
    requires
        keys_distinct(s),
        all.finite(),
        forall|j: int| 0 <= j < s.len() ==> all.contains(#[trigger] s[j].item.key()),
    ensures
        s.len() <= all.len(),
{
    let ks = s.map_values(|e: Entry<T>| e.item.key());
    assert(ks.no_duplicates()) by {
        assert forall|i: int, j: int| 0 <= i < ks.len() && 0 <= j < ks.len() && i != j implies ks[i] != ks[j] by {
            assert(ks[i] == s[i].item.key());
            assert(ks[j] == s[j].item.key());
        }
    }
    ks.unique_seq_to_set();
    assert(ks.to_set().subset_of(all)) by {
        assert forall|x: Seq<u64>| ks.to_set().contains(x) implies all.contains(x) by {
            let j = choose|j: int| 0 <= j < ks.len() && ks[j] == x;
            assert(ks[j] == s[j].item.key());
        }
    }
    vstd::set_lib::lemma_len_subset(ks.to_set(), all);
}

pub(crate) proof fn lemma_count_of_absent<T: SampleKey>(s: Seq<Entry<T>>, k: Seq<u64>)
    requires
        forall|j: int| 0 <= j < s.len() ==> #[trigger] s[j].item.key() != k,
    ensures
        count_of(s, k) == 0,
    decreases s.len(),
{
    if s.len() > 0 {
        assert(s.last() == s[s.len() - 1]);
        lemma_count_of_absent(s.drop_last(), k);
    }
}

pub(crate) proof fn lemma_count_of_distinct_at<T: SampleKey>(s: Seq<Entry<T>>, i: int, k: Seq<u64>)
    requires
        keys_distinct(s),
        0 <= i < s.len(),
        s[i].item.key() == k,
    ensures
        count_of(s, k) == s[i].count,
    decreases s.len(),
{
    if i < s.len() - 1 {
        assert(s.last() == s[s.len() - 1]);
        lemma_count_of_distinct_at(s.drop_last(), i, k);
    } else {
        assert forall|j: int| 0 <= j < s.drop_last().len() implies #[trigger] s.drop_last()[j].item.key() != k by {
            assert(s.drop_last()[j] == s[j]);
        }
        lemma_count_of_absent(s.drop_last(), k);
    }
}

/// Under the table's invariant a key's entries are all in its own bucket.
proof fn lemma_count_of_flatten_in_bucket<T: SampleKey>(bs: Seq<Seq<Entry<T>>>, k: Seq<u64>)
    requires
        buckets_wf(bs),
    ensures
        count_of(flatten(bs), k) == count_of(bs[bucket_index(k)], k),
{
    lemma_count_of_flatten_prefix(bs, k, BUCKETS as int);
    assert(bs.take(BUCKETS as int) =~= bs);
}

proof fn lemma_count_of_flatten_prefix<T: SampleKey>(bs: Seq<Seq<Entry<T>>>, k: Seq<u64>, n: int)
    requires
        buckets_wf(bs),
        0 <= n <= BUCKETS,
    ensures
        count_of(flatten(bs.take(n)), k) == if bucket_index(k) < n {
            count_of(bs[bucket_index(k)], k)
        } else {
            0
        },
    decreases n,
{
    if n == 0 {
        assert(bs.take(0).len() == 0);
    } else {
        lemma_count_of_flatten_prefix(bs, k, n - 1);
        assert(bs.take(n).drop_last() =~= bs.take(n - 1));
        lemma_count_of_append(flatten(bs.take(n - 1)), bs[n - 1], k);
        if bucket_index(k) != n - 1 {
            assert forall|j: int| 0 <= j < bs[n - 1].len() implies #[trigger] bs[n - 1][j].item.key() != k by {
                assert(bucket_index(bs[n - 1][j].item.key()) == n - 1);
            }
            lemma_count_of_absent(bs[n - 1], k);
        }
    }
}

proof fn lemma_collector_add_total<T: SampleKey>(v: CollectorState<T>, key: T, count: isize, k: Seq<u64>)
    requires
        buckets_wf(v.0),
    ensures
        buckets_wf(collector_after_add(v, key, count).0),
        count_of(all_entries(collector_after_add(v, key, count)), k) == count_of(all_entries(v), k) + if k
            == key.key() {
            count as int
        } else {
            0
        },
{
    let b = bucket_index(key.key());
    let s = v.0[b];
    let (s2, r) = bucket_after_add(s, key, count);
    let v2 = collector_after_add(v, key, count);
    lemma_after_add_keeps_bucket(s, key, count, b);
    assert forall|c: int| 0 <= c < BUCKETS implies {
        &&& (#[trigger] v2.0[c]).len() <= BUCKETS_ASSOCIATIVITY
        &&& keys_distinct(v2.0[c])
        &&& forall|j: int| 0 <= j < v2.0[c].len() ==> bucket_index(#[trigger] v2.0[c][j].item.key()) == c
    } by {
        if c != b {
            assert(v2.0[c] == v.0[c]);
        }
    }
    lemma_bucket_after_add_count(s, key, count, k);
    lemma_flatten_update(v.0, b, s2);
    lemma_count_of_append(flatten(v2.0), v2.1, k);
    lemma_count_of_append(flatten(v.0), v.1, k);
    lemma_count_of_append(v.1, evicted_seq(r), k);
}

proof fn lemma_bucket_after_add_count<T: SampleKey>(s: Seq<Entry<T>>, key: T, count: isize, k: Seq<u64>)
    requires
        keys_distinct(s),
    ensures
        ({
            let (s2, r) = bucket_after_add(s, key, count);
            count_of(s2, k) + count_of(evicted_seq(r), k) == count_of(s, k) + if k == key.key() {
                count as int
            } else {
                0
            }
        }),
{
    let kk = key.key();
    let at = index_of_key(s, kk);
    let e = Entry { item: key, count };
    lemma_count_of_single(e, kk);
    assert(count_of(evicted_seq::<T>(None), k) == 0);
    if at >= 0 {
        lemma_index_of_key_some(s, kk);
        let sum = s[at].count + count;
        if isize::MIN <= sum <= isize::MAX {
            lemma_count_of_update(s, at, Entry { item: s[at].item, count: sum as isize });
        }
    } else if s.len() < BUCKETS_ASSOCIATIVITY {
        lemma_count_of_push(s, e);
    } else {
        lemma_min_count_index_bound(s);
        let m = min_count_index(s);
        lemma_count_of_update(s, m, e);
        lemma_count_of_single(s[m], kk);
    }
}

} // verus!

verus! {

/// Sum of the positive counts of the entries whose key is `k`.
pub open spec fn positive_count_of<T: SampleKey>(s: Seq<Entry<T>>, k: Seq<u64>) -> int
    decreases s.len(),
{
    if s.len() == 0 {
        0
    } else {
        positive_count_of(s.drop_last(), k) + if s.last().item.key() == k && s.last().count > 0 {
            s.last().count as int
        } else {
            0
        }
    }
}

/// `n`, or `isize::MAX` when `n` is larger.
pub open spec fn capped(n: int) -> int {
    if n > isize::MAX {
        isize::MAX as int
    } else {
        n
    }
}

/// `merged` is what merging `entries` yields: one entry per key, holding the
/// sum of that key's positive counts (capped at `isize::MAX`); keys whose
/// counts are all zero or negative are left out.
pub open spec fn is_merge_of<T: SampleKey>(entries: Seq<Entry<T>>, merged: Seq<Entry<T>>) -> bool {
    &&& keys_distinct(merged)
    &&& forall|i: int| 0 <= i < merged.len() ==> (#[trigger] merged[i]).count > 0
    &&& forall|k: Seq<u64>| #[trigger] count_of(merged, k) == capped(positive_count_of(entries, k))
}

/// Merges entries that share a key by summing their positive counts;
/// entries whose count is zero or negative are skipped.
pub fn merge_entries<T: SampleKey>(entries: &Vec<&Entry<T>>) -> (r: Vec<Entry<T>>)
    ensures
        is_merge_of(derefs(entries@), r@),
{
    let ghost es = derefs(entries@);
    let mut r: Vec<Entry<T>> = Vec::new();
    let mut idx: usize = 0;
    assert(es.len() == entries@.len());
    while idx < entries.len()
        invariant
            es == derefs(entries@),
            es.len() == entries@.len(),
            0 <= idx <= es.len(),
            is_merge_of(es.take(idx as int), r@),
        decreases es.len() - idx,
    {
        let e = entries[idx];
        let ghost pre = es.take(idx as int);
        let ghost post = es.take(idx as int + 1);
        assert(*e == es[idx as int]);
        assert(post.drop_last() =~= pre);
        let ghost kk = e.item.key();
        let c = e.count;
        if c > 0 {
            let mut i: usize = 0;
            while i < r.len()
                invariant
                    0 <= i <= r@.len(),
                    kk == e.item.key(),
                    forall|j: int| 0 <= j < i ==> #[trigger] r@[j].item.key() != kk,
                ensures
                    0 <= i <= r@.len(),
                    forall|j: int| 0 <= j < i ==> #[trigger] r@[j].item.key() != kk,
                    i < r@.len() ==> r@[i as int].item.key() == kk,
                decreases r@.len() - i,
            {
                if r[i].item.same_key(&e.item) {
                    break;
                }
                i = i + 1;
            }
            let ghost s = r@;
            if i < r.len() {
                proof {
                    lemma_count_of_distinct_at(s, i as int, kk);
                }
                let sum = match r[i].count.checked_add(c) {
                    Some(v) => v,
                    None => isize::MAX,
                };
                r[i].count = sum;
                proof {
                    let ne = Entry { item: s[i as int].item, count: sum };
                    assert(r@ =~= s.update(i as int, ne));
                    lemma_count_of_update(s, i as int, ne);
                    assert forall|a: int, b: int|
                        0 <= a < r@.len() && 0 <= b < r@.len() && a != b implies #[trigger] r@[a].item.key()
                            != #[trigger] r@[b].item.key() by {
                        assert(r@[a].item == s[a].item);
                        assert(r@[b].item == s[b].item);
                    }
                    assert forall|a: int| 0 <= a < r@.len() implies (#[trigger] r@[a]).count > 0 by {
                        if a != i {
                            assert(r@[a] == s[a]);
                        }
                    }
                }
            } else {
                proof {
                    lemma_count_of_absent(s, kk);
                }
                let ne = Entry { item: e.item.duplicate(), count: c };
                r.push(ne);
                proof {
                    lemma_count_of_push(s, ne);
                    assert forall|a: int, b: int|
                        0 <= a < r@.len() && 0 <= b < r@.len() && a != b implies #[trigger] r@[a].item.key()
                            != #[trigger] r@[b].item.key() by {
                        if a < s.len() {
                            assert(r@[a] == s[a]);
                        }
                        if b < s.len() {
                            assert(r@[b] == s[b]);
                        }
                    }
                    assert forall|a: int| 0 <= a < r@.len() implies (#[trigger] r@[a]).count > 0 by {
                        if a < s.len() {
                            assert(r@[a] == s[a]);
                        }
                    }
                }
            }
        }
        idx = idx + 1;
    }
    assert(es.take(es.len() as int) =~= es);
    r
}

/// Some entry of `s` has key `k`.
pub open spec fn has_key<T: SampleKey>(s: Seq<Entry<T>>, k: Seq<u64>) -> bool {
    exists|i: int| 0 <= i < s.len() && #[trigger] s[i].item.key() == k
}

/// Reading the same contents twice gives the same report: whatever two
/// merges of one sequence of entries yield, they hold the same keys, and the
/// same count under every key.
pub proof fn lemma_report_stable<T: SampleKey>(
    entries: Seq<Entry<T>>,
    first: Seq<Entry<T>>,
    second: Seq<Entry<T>>,
)
    requires
        is_merge_of(entries, first),
        is_merge_of(entries, second),
    ensures
        forall|k: Seq<u64>| #[trigger] count_of(first, k) == count_of(second, k),
        forall|k: Seq<u64>| #[trigger] has_key(first, k) == has_key(second, k),
{
    assert forall|k: Seq<u64>| #[trigger] has_key(first, k) == has_key(second, k) by {
        lemma_merge_has_key(entries, first, k);
        lemma_merge_has_key(entries, second, k);
    }
}

/// A merge holds a key exactly when that key's positive counts sum above zero.
pub proof fn lemma_merge_has_key<T: SampleKey>(entries: Seq<Entry<T>>, merged: Seq<Entry<T>>, k: Seq<u64>)
    requires
        is_merge_of(entries, merged),
    ensures
        has_key(merged, k) == (positive_count_of(entries, k) > 0),
{
    if has_key(merged, k) {
        let i = choose|i: int| 0 <= i < merged.len() && #[trigger] merged[i].item.key() == k;
        lemma_count_of_distinct_at(merged, i, k);
    } else {
        lemma_count_of_absent(merged, k);
    }
}

} // verus!

verus! {

/// The table's buckets after adding `counts[i]` under `keys[i]`, in order.
pub open spec fn run_counter<T: SampleKey>(bs: Seq<Seq<Entry<T>>>, keys: Seq<T>, counts: Seq<isize>) -> Seq<Seq<Entry<T>>>
    decreases keys.len(),
{
    if keys.len() == 0 || counts.len() == 0 {
        bs
    } else {
        counter_after_add(run_counter(bs, keys.drop_last(), counts.drop_last()), keys.last(), counts.last()).0
    }
}

proof fn lemma_run_counter_of_run_adds<T: SampleKey>(v: CollectorState<T>, keys: Seq<T>, counts: Seq<isize>)
    ensures
        run_adds(v, keys, counts).0 == run_counter(v.0, keys, counts),
    decreases keys.len(),
{
    if keys.len() > 0 && counts.len() > 0 {
        lemma_run_counter_of_run_adds(v, keys.drop_last(), counts.drop_last());
    }
}

/// With fewer than `BUCKETS_ASSOCIATIVITY` distinct keys in all, and no
/// running total that leaves the range of `isize`, a table that starts
/// empty evicts nothing at any addition, holds each key in one entry only,
/// and holds under each key exactly the sum of what was added under it.
pub proof fn lemma_counter_few_keys_exact<T: SampleKey>(keys: Seq<T>, counts: Seq<isize>)
    requires
        keys.len() == counts.len(),
        key_set(keys).len() < BUCKETS_ASSOCIATIVITY,
        forall|i: int, k: Seq<u64>|
            0 <= i <= keys.len() ==> isize::MIN <= #[trigger] added_under(keys.take(i), counts.take(i), k)
                <= isize::MAX,
    ensures
        forall|i: int|
            0 <= i < keys.len() ==> (#[trigger] counter_after_add(
                run_counter(empty_buckets::<T>(), keys.take(i), counts.take(i)),
                keys[i],
                counts[i],
            )).1 is None,
        keys_distinct(flatten(run_counter(empty_buckets::<T>(), keys, counts))),
        forall|k: Seq<u64>|
            #[trigger] count_of(flatten(run_counter(empty_buckets::<T>(), keys, counts)), k)
                == added_under(keys, counts, k),
{
    assert forall|i: int|
        0 <= i < keys.len() implies (#[trigger] counter_after_add(
            run_counter(empty_buckets::<T>(), keys.take(i), counts.take(i)),
            keys[i],
            counts[i],
        )).1 is None by {
        lemma_few_keys_prefix(keys, counts, i);
        lemma_few_keys_prefix(keys, counts, i + 1);
        assert(keys.take(i + 1).drop_last() =~= keys.take(i));
        assert(counts.take(i + 1).drop_last() =~= counts.take(i));
        assert(keys.take(i + 1).last() == keys[i]);
        assert(counts.take(i + 1).last() == counts[i]);
        let v = run_adds(empty_state::<T>(), keys.take(i), counts.take(i));
        lemma_run_counter_of_run_adds(empty_state::<T>(), keys.take(i), counts.take(i));
        let r = counter_after_add(v.0, keys[i], counts[i]).1;
        assert(run_adds(empty_state::<T>(), keys.take(i + 1), counts.take(i + 1)).1 == v.1 + evicted_seq(r));
        if r is Some {
            assert((v.1 + evicted_seq(r)).len() == 1);
        }
    }
    let n = keys.len() as int;
    assert(keys.take(n) =~= keys);
    assert(counts.take(n) =~= counts);
    lemma_few_keys_prefix(keys, counts, n);
    lemma_few_keys_exact(keys, counts);
    lemma_run_counter_of_run_adds(empty_state::<T>(), keys, counts);
    let bs = run_counter(empty_buckets::<T>(), keys, counts);
    lemma_flatten_prefix_distinct(bs, BUCKETS as int);
    assert(bs.take(BUCKETS as int) =~= bs);
}

proof fn lemma_flatten_prefix_distinct<T: SampleKey>(bs: Seq<Seq<Entry<T>>>, n: int)
    requires
        buckets_wf(bs),
        0 <= n <= BUCKETS,
    ensures
        forall|j: int| 0 <= j < flatten(bs.take(n)).len() ==> bucket_index(#[trigger] flatten(bs.take(n))[j].item.key()) < n,
        keys_distinct(flatten(bs.take(n))),
    decreases n,
{
    if n == 0 {
        assert(bs.take(0).len() == 0);
    } else {
        lemma_flatten_prefix_distinct(bs, n - 1);
        assert(bs.take(n).drop_last() =~= bs.take(n - 1));
        assert(bs.take(n).last() == bs[n - 1]);
        let a = flatten(bs.take(n - 1));
        let b = bs[n - 1];
        let f = flatten(bs.take(n));
        assert(f == a + b);
        assert forall|j: int| 0 <= j < f.len() implies bucket_index(#[trigger] f[j].item.key()) < n by {
            if j >= a.len() {
                assert(f[j] == b[j - a.len()]);
            }
        }
        assert forall|x: int, y: int|
            0 <= x < f.len() && 0 <= y < f.len() && x != y implies #[trigger] f[x].item.key() != #[trigger] f[y].item.key() by {
            if x < a.len() && y < a.len() {
            } else if x >= a.len() && y >= a.len() {
                assert(f[x] == b[x - a.len()]);
                assert(f[y] == b[y - a.len()]);
            } else if x < a.len() {
                assert(f[y] == b[y - a.len()]);
                assert(bucket_index(a[x].item.key()) < n - 1);
            } else {
                assert(f[x] == b[x - a.len()]);
                assert(bucket_index(a[y].item.key()) < n - 1);
            }
        }
    }
}

} // verus!
