use vstd::prelude::*;

verus! {

/// How a stored score bounds the true value of a position.
#[derive(Copy, Clone, Default, PartialEq, Eq, Debug, Structural)]
pub enum Bound {
    #[default]
    Exact,
    Lower,
    Upper,
}

/// A search result stored for a position: its hash, the depth searched, the score and how
/// the score bounds the value.
#[derive(Copy, Clone, Default, PartialEq, Eq, Debug, Structural)]
pub struct TTEntry {
    pub hash: u64,
    pub depth: u8,
    pub score: isize,
    pub bound: Bound,
}

impl TTEntry {
    pub fn new(hash: u64, depth: u8, score: isize, bound: Bound) -> (e: Self)
        ensures
            e == (TTEntry { hash, depth, score, bound }),
    {
        Self { hash, depth, score, bound }
    }

    pub fn depth(&self) -> (d: u8)
        ensures
            d == self.depth,
    {
        self.depth
    }

    pub fn score(&self) -> (s: isize)
        ensures
            s == self.score,
    {
        self.score
    }

    pub fn bound(&self) -> (b: Bound)
        ensures
            b == self.bound,
    {
        self.bound
    }
}

/// The entry that fills a new table.
pub open spec fn empty_entry() -> TTEntry {
    TTEntry { hash: 0, depth: 0, score: 0, bound: Bound::Exact }
}

/// The slot of a hash in a table of `len` entries: its low bits.
pub open spec fn slot_of(hash: u64, len: nat) -> int {
    (hash & ((len - 1) as u64)) as int
}

/// A table of search results, one per slot, indexed by the low bits of the hash.
pub struct TranspositionTable {
    entries: Vec<TTEntry>,
}

impl View for TranspositionTable {
    type V = Seq<TTEntry>;

    closed spec fn view(&self) -> Seq<TTEntry> {
        self.entries@
    }
}

/// The result of looking `hash` up in the table `t`: the entry of its slot if that entry
/// holds the same hash.
pub open spec fn lookup(t: Seq<TTEntry>, hash: u64) -> Option<TTEntry> {
    let e = t[slot_of(hash, t.len())];
    if e.hash == hash {
        Some(e)
    } else {
        None
    }
}

/// The table `t` with `entry` stored in the slot of its hash.
pub open spec fn stored(t: Seq<TTEntry>, entry: TTEntry) -> Seq<TTEntry> {
    t.update(slot_of(entry.hash, t.len()), entry)
}

/// The number of slots is a power of two whose low-bit mask fits a `u64`.
pub open spec fn table_size_ok(len: nat) -> bool {
    exists|k: nat| k < 64 && len == vstd::arithmetic::power2::pow2(k)
}

proof fn lemma_slot_in_range(hash: u64, len: nat)
    requires
        table_size_ok(len),
        len <= usize::MAX,
    ensures
        0 <= slot_of(hash, len) < len,
{
    let k = choose|k: nat| k < 64 && len == vstd::arithmetic::power2::pow2(k);
    vstd::arithmetic::power2::lemma_pow2_pos(k);
    let m = (len - 1) as u64;
    assert(hash & m <= m) by (bit_vector);
}

impl TranspositionTable {
    /// The table has a power of two entries, as many as a `usize` can count.
    pub open spec fn wf(&self) -> bool {
        &&& table_size_ok(self@.len())
        &&& self@.len() <= usize::MAX
    }

    /// A table of `2^size` empty entries.
    pub fn new(size: usize) -> (t: Self)
        requires
            size < 64,
            size < usize::BITS,
        ensures
            t.wf(),
            t@ == Seq::new(vstd::arithmetic::power2::pow2(size as nat), |i: int| empty_entry()),
    {
        let len: usize = 1usize << size;
        proof {
            vstd::bits::lemma_usize_pow2_no_overflow(size as nat);
            vstd::bits::lemma_usize_shl_is_mul(1, size as usize);
        }
        let mut entries: Vec<TTEntry> = Vec::new();
        let mut i: usize = 0;
        while i < len
            invariant
                i <= len,
                entries@ == Seq::new(i as nat, |j: int| empty_entry()),
            decreases len - i,
        {
            entries.push(TTEntry::new(0, 0, 0, Bound::Exact));
            assert(entries@ =~= Seq::new((i + 1) as nat, |j: int| empty_entry()));
            i = i + 1;
        }
        let t = Self { entries };
        assert(t.wf()) by {
            assert(size < 64 && len == vstd::arithmetic::power2::pow2(size as nat));
        }
        t
    }

    fn hash_to_index(&self, hash: u64) -> (i: usize)
        requires
            self.wf(),
        ensures
            i == slot_of(hash, self@.len()),
            i < self@.len(),
    {
        let n = self.entries.len();
        proof {
            lemma_slot_in_range(hash, n as nat);
            vstd::arithmetic::power2::lemma_pow2_pos(choose|k: nat| k < 64 && n as nat == vstd::arithmetic::power2::pow2(k));
        }
        (hash & (n - 1) as u64) as usize
    }

    /// Stores `entry` in the slot of its hash, replacing what was there.
    pub fn insert(&mut self, entry: TTEntry)
        requires
            old(self).wf(),
        ensures
            final(self).wf(),
            final(self)@ == stored(old(self)@, entry),
            final(self)@.len() == old(self)@.len(),
            forall|i: int|
                0 <= i < final(self)@.len() ==> final(self)@[i] == old(self)@[i] || final(self)@[i]
                    == entry,
    {
        let index = self.hash_to_index(entry.hash);
        self.entries.set(index, entry);
    }

    /// The entry stored for `hash`, if the slot of `hash` holds an entry with that hash.
    pub fn get(&mut self, hash: u64) -> (e: Option<TTEntry>)
        requires
            old(self).wf(),
        ensures
            final(self)@ == old(self)@,
            final(self).wf(),
            e == lookup(old(self)@, hash),
            e matches Some(x) ==> old(self)@.contains(x),
    {
        let index = self.hash_to_index(hash);
        let existing = self.entries[index];
        assert(self@[index as int] == existing);
        if existing.hash != hash {
            return None;
        }
        Some(existing)
    }
}

/// A lookup of the hash of an entry just stored finds that entry.
pub proof fn lemma_lookup_after_store(t: Seq<TTEntry>, entry: TTEntry)
    requires
        table_size_ok(t.len()),
        t.len() <= usize::MAX,
    ensures
        lookup(stored(t, entry), entry.hash) == Some(entry),
{
    lemma_slot_in_range(entry.hash, t.len());
}

/// Storing an entry leaves every lookup of a hash in another slot as it was.
pub proof fn lemma_lookup_other_slot(t: Seq<TTEntry>, entry: TTEntry, hash: u64)
    requires
        table_size_ok(t.len()),
        t.len() <= usize::MAX,
        slot_of(hash, t.len()) != slot_of(entry.hash, t.len()),
    ensures
        lookup(stored(t, entry), hash) == lookup(t, hash),
{
    lemma_slot_in_range(entry.hash, t.len());
    lemma_slot_in_range(hash, t.len());
}

} // verus!
