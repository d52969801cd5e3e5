//! The transposition table: clusters of three entries, indexed by the high
//! bits of the product of the key and the table size.

use vstd::prelude::*;
use crate::types::{Depth, Key, Move, Value};

verus! {

/// The number of entries in a cluster.
pub const TT_CLUSTER_SIZE: usize = 3;

/// The bytes one cluster occupies: three 32-byte aligned entries and two
/// bytes of padding, rounded up to the 32-byte alignment.
pub const CLUSTER_BYTES: usize = 128;

/// The kind of bound a stored value is.
#[derive(Debug, Copy, Clone, PartialEq, Eq, Structural)]
pub enum Bound {
    NoBound,
    Upper,
    Lower,
    Exact,
}

/// The number a bound is stored as.
pub open spec fn bound_num(b: Bound) -> u8 {
    match b {
        Bound::NoBound => 0,
        Bound::Upper => 1,
        Bound::Lower => 2,
        Bound::Exact => 3,
    }
}

/// The bound stored in the low two bits of `gb`.
pub open spec fn bound_of(gb: u8) -> Bound {
    let b = gb & 3u8;
    if b == 0 {
        Bound::NoBound
    } else if b == 1 {
        Bound::Upper
    } else if b == 2 {
        Bound::Lower
    } else {
        Bound::Exact
    }
}

/// The contents of an entry.
pub struct EntryView {
    pub key16: u16,
    pub move16: u16,
    pub value16: i16,
    pub eval16: i16,
    pub depth8: i8,
    pub gen_bound8: u8,
}

/// One stored search result.
#[derive(Copy, Clone)]
pub struct TTEntry {
    key16: u16,
    move16: u16,
    value16: i16,
    eval16: i16,
    depth8: i8,
    gen_bound8: u8,
}

impl View for TTEntry {
    type V = EntryView;

    closed spec fn view(&self) -> EntryView {
        EntryView {
            key16: self.key16,
            move16: self.move16,
            value16: self.value16,
            eval16: self.eval16,
            depth8: self.depth8,
            gen_bound8: self.gen_bound8,
        }
    }
}

/// An entry with every field zero.
pub open spec fn empty_entry() -> EntryView {
    EntryView { key16: 0, move16: 0, value16: 0, eval16: 0, depth8: 0, gen_bound8: 0 }
}

/// The 16 key bits an entry keeps: the top ones.
pub open spec fn key16_of(key: u64) -> u16 {
    (key >> 48u64) as u16
}

/// The generation bits of a packed generation and bound.
pub open spec fn gen_bits(g: u8) -> u8 {
    g & 0xFCu8
}

/// Whether saving into `e` overwrites it: another generation, a depth not
/// more than two below the stored one, or an exact bound.
pub open spec fn replaces(e: EntryView, depth: Depth, bound: Bound, generation: u8) -> bool {
    ||| gen_bits(generation) != gen_bits(e.gen_bound8)
    ||| (depth as i8) + 3 > e.depth8
    ||| bound == Bound::Exact
}

/// The entry after saving a result into `e`.
pub open spec fn save_spec(
    e: EntryView,
    key: u64,
    value: Value,
    eval: Value,
    depth: Depth,
    m: Move,
    bound: Bound,
    generation: u8,
) -> EntryView {
    if replaces(e, depth, bound, generation) {
        EntryView {
            key16: key16_of(key),
            move16: m.0,
            value16: value as i16,
            eval16: eval as i16,
            depth8: depth as i8,
            gen_bound8: generation | bound_num(bound),
        }
    } else {
        e
    }
}

impl TTEntry {
    fn new() -> (r: TTEntry)
        ensures
            r@ == empty_entry(),
    {
        TTEntry { key16: 0, move16: 0, value16: 0, eval16: 0, depth8: 0, gen_bound8: 0 }
    }

    fn save(
        &mut self,
        key: Key,
        value: Value,
        eval: Value,
        depth: Depth,
        m: Move,
        bound: Bound,
        generation: u8,
    )
        requires
            (depth as i8) < 125,
        ensures
            final(self)@ == save_spec(old(self)@, key, value, eval, depth, m, bound, generation),
    {
        let replace = (generation & 0xFC) != (self.gen_bound8 & 0xFC) || depth as i8 + 3 > self.depth8
            || bound == Bound::Exact;
        if replace {
            let b: u8 = match bound {
                Bound::NoBound => 0,
                Bound::Upper => 1,
                Bound::Lower => 2,
                Bound::Exact => 3,
            };
            self.key16 = (key >> 48) as u16;
            self.move16 = m.0;
            self.value16 = value as i16;
            self.eval16 = eval as i16;
            self.depth8 = depth as i8;
            self.gen_bound8 = generation | b;
        }
    }

    fn key16(&self) -> (r: u16)
        ensures
            r == self@.key16,
    {
        self.key16
    }

    /// The stored depth.
    pub fn depth(&self) -> (r: Depth)
        ensures
            r == self@.depth8 as int,
    {
        self.depth8 as Depth
    }

    /// The stored move.
    pub fn get_move(&self) -> (r: Move)
        ensures
            r.0 == self@.move16,
    {
        Move(self.move16)
    }

    /// The stored value.
    pub fn value(&self) -> (r: Value)
        ensures
            r == self@.value16 as int,
    {
        self.value16 as Value
    }

    /// The stored static evaluation.
    pub fn eval(&self) -> (r: Value)
        ensures
            r == self@.eval16 as int,
    {
        self.eval16 as Value
    }

    /// The stored bound.
    pub fn bound(&self) -> (r: Bound)
        ensures
            r == bound_of(self@.gen_bound8),
    {
        let b = self.gen_bound8 & 0x3;
        if b == 0 {
            Bound::NoBound
        } else if b == 1 {
            Bound::Upper
        } else if b == 2 {
            Bound::Lower
        } else {
            Bound::Exact
        }
    }
}

/// Three entries sharing an index.
#[derive(Copy, Clone)]
struct TTCluster {
    entries: [TTEntry; 3],
}

/// The contents of a cluster.
spec fn cluster_view(c: TTCluster) -> Seq<EntryView> {
    seq![c.entries[0]@, c.entries[1]@, c.entries[2]@]
}

/// A cluster of three empty entries.
pub open spec fn empty_cluster() -> Seq<EntryView> {
    seq![empty_entry(), empty_entry(), empty_entry()]
}

impl TTCluster {
    fn new() -> (r: TTCluster)
        ensures
            cluster_view(r) == empty_cluster(),
    {
        TTCluster { entries: [TTEntry::new(), TTEntry::new(), TTEntry::new()] }
    }
}

/// The contents of a table: its clusters and the current generation.
pub struct TTView {
    pub clusters: Seq<Seq<EntryView>>,
    pub generation: u8,
}

/// A table of clusters and the generation of the current search.
pub struct TranspositionTable {
    table: Vec<TTCluster>,
    generation: u8,
}

impl View for TranspositionTable {
    type V = TTView;

    closed spec fn view(&self) -> TTView {
        TTView { clusters: Seq::new(self.table@.len(), |i: int| cluster_view(self.table@[i])), generation: self.generation }
    }
}

/// A usable table has at least one cluster, and every cluster three entries.
pub open spec fn tt_ok(t: TTView) -> bool {
    &&& t.clusters.len() >= 1
    &&& forall|i: int| 0 <= i < t.clusters.len() ==> (#[trigger] t.clusters[i]).len() == 3
}

/// The number of clusters a table of `mb` megabytes holds (at least one).
pub open spec fn cluster_count(mb: int) -> int {
    let n = (mb * 1024 * 1024) / (CLUSTER_BYTES as int);
    if n < 1 {
        1
    } else {
        n
    }
}

/// A table of `n` empty clusters at generation 8.
pub open spec fn fresh_table(n: int) -> TTView {
    TTView { clusters: Seq::new(n as nat, |i: int| empty_cluster()), generation: 8 }
}

/// The cluster a key falls in: the top 64 bits of the 128-bit product of
/// the key and the number of clusters.
pub open spec fn cluster_index(key: u64, len: int) -> int {
    (key as int * len) / 0x1_0000_0000_0000_0000
}

/// The first of the entries `c[0..n]` holding the key bits `k16`.
pub open spec fn first_match(c: Seq<EntryView>, k16: u16, n: int) -> Option<int>
    decreases n,
{
    if n <= 0 {
        None
    } else {
        match first_match(c, k16, n - 1) {
            Some(i) => Some(i),
            None => if c[n - 1].key16 == k16 {
                Some(n - 1)
            } else {
                None
            },
        }
    }
}

/// What probing `key` finds: the first entry of its cluster with its key bits.
pub open spec fn probe_spec(t: TTView, key: u64) -> Option<EntryView> {
    let c = t.clusters[cluster_index(key, t.clusters.len() as int)];
    match first_match(c, key16_of(key), 3) {
        Some(i) => Some(c[i]),
        None => None,
    }
}

/// How worth keeping an entry is: its depth, less 256 from an older generation.
pub open spec fn entry_score(e: EntryView, generation: u8) -> int {
    if gen_bits(e.gen_bound8) == gen_bits(generation) {
        e.depth8 as int
    } else {
        e.depth8 - 256
    }
}

/// The first entry of lowest score among `c[0..n]`, with that score.
pub open spec fn min_slot(c: Seq<EntryView>, generation: u8, n: int) -> (int, int)
    decreases n,
{
    if n <= 0 {
        (0, i32::MAX as int)
    } else {
        let prev = min_slot(c, generation, n - 1);
        let s = entry_score(c[n - 1], generation);
        if s < prev.1 {
            (n - 1, s)
        } else {
            prev
        }
    }
}

/// The entry a store into cluster `c` writes to: the one with the same key
/// bits, else the least worth keeping.
pub open spec fn replace_slot(c: Seq<EntryView>, k16: u16, generation: u8) -> int {
    match first_match(c, k16, 3) {
        Some(i) => i,
        None => min_slot(c, generation, 3).0,
    }
}

/// The table after storing a result for `key`.
pub open spec fn store_spec(
    t: TTView,
    key: u64,
    value: Value,
    eval: Value,
    depth: Depth,
    m: Move,
    bound: Bound,
) -> TTView {
    let idx = cluster_index(key, t.clusters.len() as int);
    let c = t.clusters[idx];
    let slot = replace_slot(c, key16_of(key), t.generation);
    TTView {
        clusters: t.clusters.update(idx, c.update(slot, save_spec(c[slot], key, value, eval, depth, m, bound, t.generation))),
        ..t
    }
}

/// The entries of `c[0..n]` written in the generation `generation`.
pub open spec fn fresh_in(c: Seq<EntryView>, generation: u8, n: int) -> nat
    decreases n,
{
    if n <= 0 {
        0
    } else {
        fresh_in(c, generation, n - 1) + if gen_bits(c[n - 1].gen_bound8) == gen_bits(generation) {
            1nat
        } else {
            0nat
        }
    }
}

/// The entries of the clusters `0..n` written in the current generation.
pub open spec fn fresh_count(t: TTView, n: int) -> nat
    decreases n,
{
    if n <= 0 {
        0
    } else {
        fresh_count(t, n - 1) + fresh_in(t.clusters[n - 1], t.generation, 3)
    }
}

/// The permille of current-generation entries among the first (up to) 1000 clusters.
pub open spec fn hashfull_spec(t: TTView) -> int {
    let samples = if t.clusters.len() < 1000 {
        t.clusters.len() as int
    } else {
        1000int
    };
    (fresh_count(t, samples) * 1000) as int / (samples * 3)
}

proof fn lemma_first_match_stable(c: Seq<EntryView>, k16: u16, i: int, n: int)
    requires
        0 <= i <= n,
        first_match(c, k16, i) is Some,
    ensures
        first_match(c, k16, n) == first_match(c, k16, i),
    decreases n - i,
{
    if i < n {
        lemma_first_match_stable(c, k16, i, n - 1);
    }
}

fn empty_clusters(n: usize) -> (r: Vec<TTCluster>)
    ensures
        r@.len() == n,
        forall|i: int| 0 <= i < n ==> #[trigger] cluster_view(r@[i]) == empty_cluster(),
{
    let mut v: Vec<TTCluster> = Vec::new();
    let mut i: usize = 0;
    while i < n
        invariant
            i <= n,
            v@.len() == i,
            forall|j: int| 0 <= j < i ==> #[trigger] cluster_view(v@[j]) == empty_cluster(),
        decreases n - i,
    {
        v.push(TTCluster::new());
        i = i + 1;
    }
    v
}

impl TranspositionTable {
    /// A table of `mb_size` megabytes (at least one cluster), all entries empty.
    pub fn new(mb_size: usize) -> (r: Self)
        requires
            mb_size * 1048576 <= usize::MAX,
        ensures
            r@ == fresh_table(cluster_count(mb_size as int)),
            tt_ok(r@),
    {
        let n = (mb_size * 1024 * 1024) / CLUSTER_BYTES;
        let n = if n < 1 { 1 } else { n };
        let table = empty_clusters(n);
        let r = TranspositionTable { table, generation: 8 };
        proof {
            assert(r@.clusters =~= fresh_table(cluster_count(mb_size as int)).clusters);
        }
        r
    }

    /// Replaces the table by an empty one of `mb_size` megabytes.
    pub fn resize(&mut self, mb_size: usize)
        requires
            mb_size * 1048576 <= usize::MAX,
        ensures
            final(self)@ == fresh_table(cluster_count(mb_size as int)),
            tt_ok(final(self)@),
    {
        let n = (mb_size * 1024 * 1024) / CLUSTER_BYTES;
        let n = if n < 1 { 1 } else { n };
        self.table = empty_clusters(n);
        self.clear();
    }

    /// Empties every entry and resets the generation.
    pub fn clear(&mut self)
        requires
            tt_ok(old(self)@),
        ensures
            final(self)@ == fresh_table(old(self)@.clusters.len() as int),
            tt_ok(final(self)@),
    {
        let n = self.table.len();
        let mut i: usize = 0;
        while i < n
            invariant
                i <= n,
                n == self.table@.len(),
                n >= 1,
                n == old(self)@.clusters.len(),
                forall|j: int| 0 <= j < i ==> #[trigger] cluster_view(self.table@[j]) == empty_cluster(),
            decreases n - i,
        {
            self.table.set(i, TTCluster::new());
            i = i + 1;
        }
        self.generation = 8;
        proof {
            assert(self@.clusters =~= fresh_table(n as int).clusters);
        }
    }

    /// Starts a new search: the generation advances by 4 (wrapping).
    pub fn new_search(&mut self)
        ensures
            final(self)@ == (TTView { generation: ((old(self)@.generation + 4) % 256) as u8, ..old(self)@ }),
    {
        self.generation = self.generation.wrapping_add(4);
    }

    fn index_of(&self, key: Key) -> (r: usize)
        requires
            tt_ok(self@),
        ensures
            r == cluster_index(key, self@.clusters.len() as int),
            r < self@.clusters.len(),
    {
        let len = self.table.len();
        proof {
            assert((key as int) * (len as int) <= 0xFFFF_FFFF_FFFF_FFFF * 0xFFFF_FFFF_FFFF_FFFF) by (nonlinear_arith)
                requires
                    0 <= key <= 0xFFFF_FFFF_FFFF_FFFF,
                    0 <= len <= 0xFFFF_FFFF_FFFF_FFFF,
            ;
        }
        let x: u128 = key as u128 * len as u128;
        proof {
            assert(x >> 64u128 == x / 0x1_0000_0000_0000_0000u128) by (bit_vector);
            assert((key as int * len as int) / 0x1_0000_0000_0000_0000 < len as int) by (nonlinear_arith)
                requires
                    0 <= key < 0x1_0000_0000_0000_0000,
                    len >= 1,
            ;
        }
        (x >> 64) as usize
    }

    /// The first entry of the key's cluster holding the key's top bits.
    pub fn probe(&self, key: Key) -> (r: Option<TTEntry>)
        requires
            tt_ok(self@),
        ensures
            match r {
                Some(e) => probe_spec(self@, key) == Some(e@),
                None => probe_spec(self@, key) is None,
            },
    {
        let key16 = (key >> 48) as u16;
        let idx = self.index_of(key);
        let cluster = self.table[idx];
        let ghost c = cluster_view(cluster);
        proof {
            assert(c == self@.clusters[idx as int]);
        }
        let mut i: usize = 0;
        while i < TT_CLUSTER_SIZE
            invariant
                i <= 3,
                c == cluster_view(cluster),
                key16 == key16_of(key),
                c == self@.clusters[cluster_index(key, self@.clusters.len() as int)],
                first_match(c, key16, i as int) is None,
            decreases 3 - i,
        {
            let entry = cluster.entries[i];
            if entry.key16() == key16 {
                proof {
                    assert(first_match(c, key16, i as int + 1) == Some(i as int));
                    lemma_first_match_stable(c, key16, i as int + 1, 3);
                }
                return Some(entry);
            }
            i = i + 1;
        }
        None
    }

    /// Saves a search result for `key` in the entry of its cluster with the
    /// same key bits, else in the one least worth keeping.
    pub fn store(&mut self, key: Key, value: Value, eval: Value, depth: Depth, m: Move, bound: Bound)
        requires
            tt_ok(old(self)@),
            (depth as i8) < 125,
        ensures
            final(self)@ == store_spec(old(self)@, key, value, eval, depth, m, bound),
            final(self)@.clusters.len() == old(self)@.clusters.len(),
            tt_ok(final(self)@),
    {
        let key16 = (key >> 48) as u16;
        let generation = self.generation;
        let idx = self.index_of(key);
        let mut cluster = self.table[idx];
        let ghost c = cluster_view(cluster);
        let mut replace_idx: usize = 0;
        let mut found = false;
        let mut i: usize = 0;
        while i < TT_CLUSTER_SIZE && !found
            invariant
                i <= 3,
                c == cluster_view(cluster),
                key16 == key16_of(key),
                found ==> first_match(c, key16, 3) == Some(replace_idx as int) && replace_idx < 3,
                !found ==> replace_idx == 0,
                !found ==> first_match(c, key16, i as int) is None,
            decreases 3 - i + (if found { 0int } else { 1int }),
        {
            if cluster.entries[i].key16() == key16 {
                proof {
                    assert(first_match(c, key16, i as int + 1) == Some(i as int));
                    lemma_first_match_stable(c, key16, i as int + 1, 3);
                }
                replace_idx = i;
                found = true;
            } else {
                i = i + 1;
            }
        }
        if !found {
            let mut min_score: i32 = i32::MAX;
            let mut j: usize = 0;
            while j < TT_CLUSTER_SIZE
                invariant
                    j <= 3,
                    c == cluster_view(cluster),
                    first_match(c, key16, 3) is None,
                    min_slot(c, generation, j as int) == (replace_idx as int, min_score as int),
                    replace_idx < 3,
                decreases 3 - j,
            {
                let entry = cluster.entries[j];
                let score: i32 = if (entry.gen_bound8 & 0xFC) == (generation & 0xFC) {
                    entry.depth8 as i32
                } else {
                    entry.depth8 as i32 - 256
                };
                if score < min_score {
                    min_score = score;
                    replace_idx = j;
                }
                j = j + 1;
            }
        }
        proof {
            assert(replace_idx as int == replace_slot(c, key16_of(key), generation));
        }
        let mut e = cluster.entries[replace_idx];
        e.save(key, value, eval, depth, m, bound, generation);
        cluster.entries[replace_idx] = e;
        let ghost before = self@;
        self.table.set(idx, cluster);
        proof {
            assert(cluster_view(cluster) =~= c.update(replace_idx as int, e@));
            assert(self@.clusters =~= store_spec(before, key, value, eval, depth, m, bound).clusters);
        }
    }

    /// The permille of entries written in the current generation, among the
    /// first (up to) 1000 clusters.
    pub fn hashfull(&self) -> (r: usize)
        requires
            tt_ok(self@),
        ensures
            r == hashfull_spec(self@),
            r <= 1000,
    {
        let len = self.table.len();
        let samples: usize = if len < 1000 { len } else { 1000 };
        let mut count: usize = 0;
        let mut i: usize = 0;
        while i < samples
            invariant
                i <= samples,
                samples <= len,
                samples <= 1000,
                len == self@.clusters.len(),
                count == fresh_count(self@, i as int),
                count <= 3 * i,
            decreases samples - i,
        {
            let cluster = self.table[i];
            let ghost c = cluster_view(cluster);
            proof {
                assert(c == self@.clusters[i as int]);
            }
            let mut k: usize = 0;
            let mut in_cluster: usize = 0;
            while k < TT_CLUSTER_SIZE
                invariant
                    k <= 3,
                    c == cluster_view(cluster),
                    in_cluster == fresh_in(c, self.generation, k as int),
                    in_cluster <= k,
                decreases 3 - k,
            {
                if (cluster.entries[k].gen_bound8 & 0xFC) == (self.generation & 0xFC) {
                    in_cluster = in_cluster + 1;
                }
                k = k + 1;
            }
            count = count + in_cluster;
            i = i + 1;
        }
        proof {
            assert(count * 1000 / (samples * 3) <= 1000) by (nonlinear_arith)
                requires
                    count <= 3 * samples,
                    samples >= 1,
            ;
        }
        count * 1000 / (samples * TT_CLUSTER_SIZE)
    }
}

proof fn lemma_first_match_char(c: Seq<EntryView>, k16: u16, n: int)
    requires
        0 <= n <= c.len(),
    ensures
        match first_match(c, k16, n) {
            Some(i) => 0 <= i < n && c[i].key16 == k16 && forall|j: int| 0 <= j < i ==> #[trigger] c[j].key16 != k16,
            None => forall|j: int| 0 <= j < n ==> #[trigger] c[j].key16 != k16,
        },
    decreases n,
{
    if n > 0 {
        lemma_first_match_char(c, k16, n - 1);
    }
}

proof fn lemma_min_slot_range(c: Seq<EntryView>, generation: u8, n: int)
    requires
        n >= 1,
    ensures
        0 <= min_slot(c, generation, n).0 < n,
    decreases n,
{
    if n > 1 {
        lemma_min_slot_range(c, generation, n - 1);
    } else {
        assert(min_slot(c, generation, 0) == (0int, i32::MAX as int));
    }
}

/// Probing right after a store for the same key finds the entry the store
/// wrote, unless the store left an entry of other key bits in place.
pub proof fn lemma_probe_after_store(
    t: TTView,
    key: u64,
    value: Value,
    eval: Value,
    depth: Depth,
    m: Move,
    bound: Bound,
)
    requires
        tt_ok(t),
    ensures
        ({
            let c = t.clusters[cluster_index(key, t.clusters.len() as int)];
            let slot = replace_slot(c, key16_of(key), t.generation);
            probe_spec(store_spec(t, key, value, eval, depth, m, bound), key) == if first_match(c, key16_of(key), 3) is Some
                || replaces(c[slot], depth, bound, t.generation) {
                Some(save_spec(c[slot], key, value, eval, depth, m, bound, t.generation))
            } else {
                None
            }
        }),
{
    let len = t.clusters.len() as int;
    let idx = cluster_index(key, len);
    assert(0 <= idx < len) by (nonlinear_arith)
        requires
            idx == (key as int * len) / 0x1_0000_0000_0000_0000,
            0 <= key < 0x1_0000_0000_0000_0000,
            len >= 1,
    ;
    let c = t.clusters[idx];
    let k16 = key16_of(key);
    let slot = replace_slot(c, k16, t.generation);
    assert(c.len() == 3);
    lemma_first_match_char(c, k16, 3);
    lemma_min_slot_range(c, t.generation, 3);
    assert(0 <= slot < 3);
    let e = save_spec(c[slot], key, value, eval, depth, m, bound, t.generation);
    let c2 = c.update(slot, e);
    let t2 = store_spec(t, key, value, eval, depth, m, bound);
    assert(t2.clusters.len() == len);
    assert(t2.clusters[idx] == c2);
    lemma_first_match_char(c2, k16, 3);
    match first_match(c, k16, 3) {
        Some(i) => {
            assert(slot == i);
            assert(c2[i].key16 == k16);
        },
        None => {
            if replaces(c[slot], depth, bound, t.generation) {
                assert(c2[slot].key16 == k16);
                assert forall|j: int| 0 <= j < 3 && j != slot implies #[trigger] c2[j].key16 != k16 by {
                    assert(c2[j] == c[j]);
                }
            } else {
                assert(c2 =~= c);
            }
        },
    }
}

/// A store leaves what probing finds for keys of other clusters unchanged.
pub proof fn lemma_store_other_cluster(
    t: TTView,
    key: u64,
    value: Value,
    eval: Value,
    depth: Depth,
    m: Move,
    bound: Bound,
    other: u64,
)
    requires
        tt_ok(t),
        cluster_index(other, t.clusters.len() as int) != cluster_index(key, t.clusters.len() as int),
    ensures
        probe_spec(store_spec(t, key, value, eval, depth, m, bound), other) == probe_spec(t, other),
{
    let len = t.clusters.len() as int;
    let i1 = cluster_index(key, len);
    let i2 = cluster_index(other, len);
    assert(0 <= i1 < len && 0 <= i2 < len) by (nonlinear_arith)
        requires
            i1 == (key as int * len) / 0x1_0000_0000_0000_0000,
            i2 == (other as int * len) / 0x1_0000_0000_0000_0000,
            0 <= key < 0x1_0000_0000_0000_0000,
            0 <= other < 0x1_0000_0000_0000_0000,
            len >= 1,
    ;
    let t2 = store_spec(t, key, value, eval, depth, m, bound);
    assert(t2.clusters[i2] == t.clusters[i2]);
}

} // verus!
