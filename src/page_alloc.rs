//! A page-grain allocator: two bits of book-keeping per page, `(taken, last)`,
//! held in a dedicated records page in front of the page heap.
use vstd::prelude::*;

verus! {

/// A single book-keeping entry
#[derive(Copy, Clone, Debug, PartialEq, Eq, Structural)]
pub struct Record {
    pub taken: bool,
    pub last: bool,
}

/// Bit that holds `taken` for the record at position `i` of a byte
pub open spec fn taken_mask(i: int) -> u8 {
    if i == 0 { 2 } else if i == 1 { 8 } else if i == 2 { 32 } else { 128 }
}

/// Bit that holds `last` for the record at position `i` of a byte
pub open spec fn last_mask(i: int) -> u8 {
    if i == 0 { 1 } else if i == 1 { 4 } else if i == 2 { 16 } else { 64 }
}

/// The record at position `i` (0 to 3) of a byte
pub open spec fn record_in_byte(b: u8, i: int) -> Record {
    Record { taken: b & taken_mask(i) != 0, last: b & last_mask(i) != 0 }
}

/// The byte that encodes four records
pub open spec fn byte_of_records(rs: Seq<Record>) -> u8 {
    (if rs[0].last { 1u8 } else { 0u8 }) | (if rs[0].taken { 2u8 } else { 0u8 }) | (if rs[1].last {
        4u8
    } else {
        0u8
    }) | (if rs[1].taken { 8u8 } else { 0u8 }) | (if rs[2].last { 16u8 } else { 0u8 }) | (
    if rs[2].taken {
        32u8
    } else {
        0u8
    }) | (if rs[3].last { 64u8 } else { 0u8 }) | (if rs[3].taken { 128u8 } else { 0u8 })
}

proof fn lemma_byte_bits(b: u8)
    ensures
        b == (b & 1) | (b & 2) | (b & 4) | (b & 8) | (b & 16) | (b & 32) | (b & 64) | (b & 128),
{
    assert(b == (b & 1) | (b & 2) | (b & 4) | (b & 8) | (b & 16) | (b & 32) | (b & 64) | (b & 128))
        by (bit_vector);
}

proof fn lemma_records_of_byte(b: u8)
    ensures
        byte_of_records(seq![record_in_byte(b, 0), record_in_byte(b, 1), record_in_byte(b, 2), record_in_byte(b, 3)]) == b,
{
    lemma_byte_bits(b);
    assert(((b & 1) != 0 ==> (b & 1) == 1) && ((b & 2) != 0 ==> (b & 2) == 2) && ((b & 4) != 0 ==> (
    b & 4) == 4) && ((b & 8) != 0 ==> (b & 8) == 8) && ((b & 16) != 0 ==> (b & 16) == 16) && ((b
        & 32) != 0 ==> (b & 32) == 32) && ((b & 64) != 0 ==> (b & 64) == 64) && ((b & 128) != 0 ==> (
    b & 128) == 128)) by (bit_vector);
}

proof fn lemma_byte_of_records(rs: Seq<Record>, i: int)
    requires
        rs.len() == 4,
        0 <= i < 4,
    ensures
        record_in_byte(byte_of_records(rs), i) == rs[i],
{
    let a = if rs[0].last { 1u8 } else { 0u8 };
    let b = if rs[0].taken { 2u8 } else { 0u8 };
    let c = if rs[1].last { 4u8 } else { 0u8 };
    let d = if rs[1].taken { 8u8 } else { 0u8 };
    let e = if rs[2].last { 16u8 } else { 0u8 };
    let f = if rs[2].taken { 32u8 } else { 0u8 };
    let g = if rs[3].last { 64u8 } else { 0u8 };
    let h = if rs[3].taken { 128u8 } else { 0u8 };
    let x = a | b | c | d | e | f | g | h;
    assert(x == byte_of_records(rs));
    assert((a == 0 || a == 1) && (b == 0 || b == 2) && (c == 0 || c == 4) && (d == 0 || d == 8) && (
    e == 0 || e == 16) && (f == 0 || f == 32) && (g == 0 || g == 64) && (h == 0 || h == 128));
    assert((a == 0 || a == 1) && (b == 0 || b == 2) && (c == 0 || c == 4) && (d == 0 || d == 8) && (
    e == 0 || e == 16) && (f == 0 || f == 32) && (g == 0 || g == 64) && (h == 0 || h == 128) ==> (((
    a | b | c | d | e | f | g | h) & 1 != 0) == (a != 0) && ((a | b | c | d | e | f | g | h) & 2 != 0)
        == (b != 0) && ((a | b | c | d | e | f | g | h) & 4 != 0) == (c != 0) && ((a | b | c | d | e
        | f | g | h) & 8 != 0) == (d != 0) && ((a | b | c | d | e | f | g | h) & 16 != 0) == (e != 0)
        && ((a | b | c | d | e | f | g | h) & 32 != 0) == (f != 0) && ((a | b | c | d | e | f | g | h)
        & 64 != 0) == (g != 0) && ((a | b | c | d | e | f | g | h) & 128 != 0) == (h != 0))) by (bit_vector);
}

impl Record {
    /// Decode the four records held in one byte
    pub fn from_byte(byte: u8) -> (r: [Record; 4])
        ensures
            forall|i: int| 0 <= i < 4 ==> #[trigger] r@[i] == record_in_byte(byte, i),
    {
        let r = [
            Record { taken: byte & 2 != 0, last: byte & 1 != 0 },
            Record { taken: byte & 8 != 0, last: byte & 4 != 0 },
            Record { taken: byte & 32 != 0, last: byte & 16 != 0 },
            Record { taken: byte & 128 != 0, last: byte & 64 != 0 },
        ];
        assert(forall|i: int| 0 <= i < 4 ==> #[trigger] r@[i] == record_in_byte(byte, i)) by {
            assert(r@[0] == record_in_byte(byte, 0));
            assert(r@[1] == record_in_byte(byte, 1));
            assert(r@[2] == record_in_byte(byte, 2));
            assert(r@[3] == record_in_byte(byte, 3));
        }
        r
    }

    /// Encode four records into one byte
    pub fn to_byte(records: [Record; 4]) -> (r: u8)
        ensures
            r == byte_of_records(records@),
            forall|i: int| 0 <= i < 4 ==> #[trigger] record_in_byte(r, i) == records@[i],
    {
        let byte: u8 = (if records[0].last { 1u8 } else { 0u8 }) | (if records[0].taken {
            2u8
        } else {
            0u8
        }) | (if records[1].last { 4u8 } else { 0u8 }) | (if records[1].taken { 8u8 } else { 0u8 })
            | (if records[2].last { 16u8 } else { 0u8 }) | (if records[2].taken { 32u8 } else { 0u8 })
            | (if records[3].last { 64u8 } else { 0u8 }) | (if records[3].taken {
            128u8
        } else {
            0u8
        });
        proof {
            assert forall|i: int| 0 <= i < 4 implies #[trigger] record_in_byte(byte, i)
                == records@[i] by {
                lemma_byte_of_records(records@, i);
            }
        }
        byte
    }
}

/// Decoding a byte into records and encoding them again gives the byte back
pub proof fn lemma_byte_round_trip(b: u8)
    ensures
        byte_of_records(seq![record_in_byte(b, 0), record_in_byte(b, 1), record_in_byte(b, 2), record_in_byte(b, 3)]) == b,
{
    lemma_records_of_byte(b);
}

/// Why a page allocation or deallocation failed
#[derive(Copy, Clone, Debug, PartialEq, Eq, Structural)]
pub enum PageAllocError {
    /// No run of free pages is long enough
    OutOfMemory,
    /// The address does not start a run of allocated pages
    DoubleFree,
}

/// Number of records that the scan may look at: the heap, as far as the records page reaches
pub open spec fn heap_limit(recs: Seq<Record>, heap_size: nat) -> int {
    if heap_size < recs.len() { heap_size as int } else { recs.len() as int }
}

/// The `n` pages from `s` are free and no run boundary (`last`) lies before the final one
pub open spec fn fits(recs: Seq<Record>, lim: int, s: int, n: int) -> bool {
    &&& 0 <= s
    &&& s + n <= lim
    &&& forall|i: int| s <= i < s + n ==> !(#[trigger] recs[i]).taken
    &&& forall|i: int| s <= i < s + n - 1 ==> !(#[trigger] recs[i]).last
}

/// `s` is the first page from which `n` pages fit
pub open spec fn first_fit(recs: Seq<Record>, lim: int, s: int, n: int) -> bool {
    fits(recs, lim, s, n) && forall|t: int| 0 <= t < s ==> !fits(recs, lim, t, n)
}

/// Records after allocating `n` pages from `s`: the run is taken, its final page
/// is `last`, and the page just before the run is marked `last` too
pub open spec fn alloc_update(recs: Seq<Record>, s: int, n: int) -> Seq<Record> {
    Seq::new(
        recs.len(),
        |i: int|
            if s <= i < s + n {
                Record { taken: true, last: i == s + n - 1 }
            } else if i == s - 1 {
                Record { taken: recs[i].taken, last: true }
            } else {
                recs[i]
            },
    )
}

/// An allocated run of `n` pages starts at `i`
pub open spec fn run_at(recs: Seq<Record>, lim: int, i: int, n: int) -> bool {
    &&& n >= 1
    &&& 0 <= i
    &&& i + n <= lim
    &&& forall|j: int| i <= j < i + n ==> (#[trigger] recs[j]).taken
    &&& forall|j: int| i <= j < i + n - 1 ==> !(#[trigger] recs[j]).last
    &&& recs[i + n - 1].last
}

/// Records after freeing the run of `n` pages at `i`: the pages are free, the
/// final one stays `last` only before a taken page, and a free page just before
/// the run loses its `last` mark
pub open spec fn dealloc_update(recs: Seq<Record>, lim: int, i: int, n: int) -> Seq<Record> {
    Seq::new(
        recs.len(),
        |j: int|
            if i <= j < i + n {
                Record { taken: false, last: j == i + n - 1 && j + 1 < lim && recs[j + 1].taken }
            } else if j == i - 1 && !recs[j].taken && recs[j].last {
                Record { taken: false, last: false }
            } else {
                recs[j]
            },
    )
}

/// The book-keeping is consistent: a free page is `last` exactly when the next
/// page is taken, and the final page of a taken run is `last`
pub open spec fn wf_records(recs: Seq<Record>, lim: int) -> bool {
    &&& 0 <= lim <= recs.len()
    &&& forall|j: int|
        0 <= j < lim && !(#[trigger] recs[j]).taken ==> (recs[j].last <==> (j + 1 < lim
            && recs[j + 1].taken))
    &&& forall|j: int|
        0 <= j < lim && (#[trigger] recs[j]).taken && (j + 1 >= lim || !recs[j + 1].taken)
            ==> recs[j].last
}

/// A single book-keeping page for an upward-growing page allocator: four
/// records per byte, one record per page of the heap
pub struct RecordsPage {
    bytes: Vec<u8>,
}

impl View for RecordsPage {
    type V = Seq<Record>;

    closed spec fn view(&self) -> Seq<Record> {
        Seq::new((self.bytes@.len() * 4) as nat, |i: int| record_in_byte(self.bytes@[i / 4], i % 4))
    }
}

impl RecordsPage {
    /// Size of the records page in bytes (also the size of a heap page)
    pub closed spec fn page_size_spec(&self) -> nat {
        self.bytes@.len()
    }

    /// The records page has a usable size
    pub closed spec fn wf(&self) -> bool {
        0 < self.bytes@.len() && self.bytes@.len() * 4 <= usize::MAX
    }

    /// A zeroed records page of `page_size` bytes: every page free
    pub fn new(page_size: usize) -> (r: RecordsPage)
        requires
            0 < page_size,
            page_size * 4 <= usize::MAX,
        ensures
            r.wf(),
            r.page_size_spec() == page_size,
            r@.len() == page_size * 4,
            forall|i: int| 0 <= i < r@.len() ==> #[trigger] r@[i] == (Record { taken: false, last: false }),
    {
        let mut bytes: Vec<u8> = Vec::new();
        let mut i: usize = 0;
        while i < page_size
            invariant
                i <= page_size,
                bytes@.len() == i,
                forall|k: int| 0 <= k < i ==> bytes@[k] == 0,
            decreases page_size - i,
        {
            bytes.push(0);
            i = i + 1;
        }
        let r = RecordsPage { bytes };
        assert forall|i: int| 0 <= i < r@.len() implies #[trigger] r@[i] == (Record { taken: false, last: false }) by {
            assert(r.bytes@[i / 4] == 0);
            assert(0u8 & 1u8 == 0 && 0u8 & 2u8 == 0 && 0u8 & 4u8 == 0 && 0u8 & 8u8 == 0 && 0u8 & 16u8 == 0
                && 0u8 & 32u8 == 0 && 0u8 & 64u8 == 0 && 0u8 & 128u8 == 0) by (bit_vector);
        }
        r
    }

    /// Size of a page in bytes
    pub fn page_size(&self) -> (r: usize)
        ensures
            r == self.page_size_spec(),
            r * 4 == self@.len(),
    {
        self.bytes.len()
    }

    /// Number of records the page holds
    pub fn num_records(&self) -> (r: usize)
        requires
            self.wf(),
        ensures
            r == self@.len(),
    {
        self.bytes.len() * 4
    }

    /// The record of page `index`
    pub fn get_record(&self, index: usize) -> (r: Record)
        requires
            index < self@.len(),
        ensures
            r == self@[index as int],
    {
        let records = Record::from_byte(self.bytes[index / 4]);
        records[index % 4]
    }

    fn set_record(&mut self, index: usize, record: Record)
        requires
            index < old(self)@.len(),
        ensures
            final(self)@ == old(self)@.update(index as int, record),
            final(self).page_size_spec() == old(self).page_size_spec(),
            final(self).wf() == old(self).wf(),
    {
        let b = index / 4;
        let mut records = Record::from_byte(self.bytes[b]);
        records[index % 4] = record;
        let byte = Record::to_byte(records);
        let ghost before = self@;
        self.bytes.set(b, byte);
        assert(self@ =~= before.update(index as int, record)) by {
            assert forall|i: int| 0 <= i < self@.len() implies #[trigger] self@[i] == before.update(index as int, record)[i] by {
                if i / 4 == b as int {
                    if i % 4 == (index % 4) as int {
                        assert(i == index as int);
                    } else {
                        assert(i != index as int);
                    }
                } else {
                    assert(i != index as int);
                }
            }
        }
    }

    /// Is page `index` taken?
    pub fn is_taken(&self, index: usize) -> (r: bool)
        requires
            index < self@.len(),
        ensures
            r == self@[index as int].taken,
    {
        self.get_record(index).taken
    }

    /// Is page `index` the final page of a run?
    pub fn is_last(&self, index: usize) -> (r: bool)
        requires
            index < self@.len(),
        ensures
            r == self@[index as int].last,
    {
        self.get_record(index).last
    }

    fn set_taken(&mut self, index: usize, taken: bool)
        requires
            index < old(self)@.len(),
        ensures
            final(self)@ == old(self)@.update(index as int, Record { taken, last: old(self)@[index as int].last }),
            final(self).page_size_spec() == old(self).page_size_spec(),
            final(self).wf() == old(self).wf(),
    {
        let mut record = self.get_record(index);
        record.taken = taken;
        self.set_record(index, record);
    }

    fn mark_allocated(&mut self, s: usize, n: usize)
        requires
            old(self).wf(),
            0 < n,
            s + n <= old(self)@.len(),
            forall|i: int| s <= i < s + n - 1 ==> !(#[trigger] old(self)@[i]).last,
        ensures
            final(self)@ == alloc_update(old(self)@, s as int, n as int),
            final(self).page_size_spec() == old(self).page_size_spec(),
            final(self).wf() == old(self).wf(),
    {
        let ghost v0 = self@;
        if s > 0 {
            self.set_last(s - 1, true);
        }
        let ghost v1 = self@;
        let mut i = s;
        while i < s + n
            invariant
                s <= i <= s + n,
                s + n <= v1.len(),
                v1.len() <= usize::MAX,
                self@.len() == v1.len(),
                self.page_size_spec() == v0.len() / 4,
                self.page_size_spec() == old(self).page_size_spec(),
                self.wf() == old(self).wf(),
                forall|j: int|
                    0 <= j < v1.len() ==> #[trigger] self@[j] == (if s <= j < i {
                        Record { taken: true, last: v1[j].last }
                    } else {
                        v1[j]
                    }),
            decreases s + n - i,
        {
            self.set_taken(i, true);
            i = i + 1;
        }
        self.set_last(s + n - 1, true);
        assert(self@ =~= alloc_update(v0, s as int, n as int));
    }

    /// Allocate a run of `num_pages` pages on a heap of `heap_size` pages: the
    /// first run of free pages, long enough, with no run boundary before its
    /// final page. Returns the index of its first page.
    pub fn allocate_pages(&mut self, heap_size: usize, num_pages: usize) -> (r: Result<
        usize,
        PageAllocError,
    >)
        requires
            old(self).wf(),
            heap_size > 0,
            num_pages > 0,
        ensures
            final(self).wf(),
            final(self).page_size_spec() == old(self).page_size_spec(),
            match r {
                Ok(s) => first_fit(old(self)@, heap_limit(old(self)@, heap_size as nat), s as int, num_pages as int)
                    && final(self)@ == alloc_update(old(self)@, s as int, num_pages as int),
                Err(e) => e == PageAllocError::OutOfMemory && final(self)@ == old(self)@,
            },
            r.is_err() <==> forall|t: int| !fits(old(self)@, heap_limit(old(self)@, heap_size as nat), t, num_pages as int),
    {
        let n_records = self.num_records();
        let lim = if heap_size < n_records { heap_size } else { n_records };
        let ghost recs = self@;
        assert(lim == heap_limit(recs, heap_size as nat));
        let mut count: usize = 0;
        let mut idx: usize = 0;
        while idx < lim
            invariant
                self@ == recs,
                recs == old(self)@,
                self.wf(),
                self.page_size_spec() == old(self).page_size_spec(),
                lim == heap_limit(recs, heap_size as nat),
                lim <= recs.len(),
                idx <= lim,
                count <= idx,
                count < num_pages,
                forall|j: int| idx - count <= j < idx ==> !(#[trigger] recs[j]).taken && !recs[j].last,
                idx - count > 0 ==> recs[idx - count - 1].taken || recs[idx - count - 1].last,
                forall|t: int| 0 <= t && t + num_pages <= idx ==> !fits(recs, lim as int, t, num_pages as int),
            decreases lim - idx,
        {
            let rec = self.get_record(idx);
            if rec.taken {
                proof {
                    assert forall|t: int| 0 <= t && t + num_pages <= idx + 1 implies !fits(recs, lim as int, t, num_pages as int) by {
                        if t + num_pages == idx + 1 {
                            assert(recs[idx as int].taken);
                        }
                    }
                }
                count = 0;
            } else {
                count = count + 1;
                if count >= num_pages {
                    let s = idx + 1 - count;
                    assert(fits(recs, lim as int, s as int, num_pages as int));
                    assert(first_fit(recs, lim as int, s as int, num_pages as int));
                    self.mark_allocated(s, count);
                    return Ok(s);
                }
                proof {
                    assert forall|t: int| 0 <= t && t + num_pages <= idx + 1 implies !fits(recs, lim as int, t, num_pages as int) by {
                        if t + num_pages == idx + 1 {
                            let k = idx - (count - 1) - 1;
                            assert(recs[k].taken || recs[k].last);
                        }
                    }
                }
                if rec.last {
                    count = 0;
                }
            }
            idx = idx + 1;
        }
        assert(forall|t: int| !fits(recs, lim as int, t, num_pages as int));
        Err(PageAllocError::OutOfMemory)
    }

    /// Free the run of pages that starts at page `index` of a heap of
    /// `heap_size` pages. Returns the number of pages freed. `DoubleFree` is
    /// the allocator's hard failure: no allocated run starts there (freed
    /// twice, or never allocated); the records are left unchanged and the
    /// caller must treat it as fatal.
    pub fn deallocate_pages(&mut self, heap_size: usize, index: usize) -> (r: Result<
        usize,
        PageAllocError,
    >)
        requires
            old(self).wf(),
        ensures
            final(self).wf(),
            final(self).page_size_spec() == old(self).page_size_spec(),
            match r {
                Ok(n) => run_at(old(self)@, heap_limit(old(self)@, heap_size as nat), index as int, n as int)
                    && final(self)@ == dealloc_update(old(self)@, heap_limit(old(self)@, heap_size as nat), index as int, n as int),
                Err(e) => e == PageAllocError::DoubleFree && final(self)@ == old(self)@,
            },
            r.is_err() <==> forall|n: int| !run_at(old(self)@, heap_limit(old(self)@, heap_size as nat), index as int, n),
    {
        let n_records = self.num_records();
        let lim = if heap_size < n_records { heap_size } else { n_records };
        let ghost recs = self@;
        let mut j = index;
        loop
            invariant
                self@ == recs,
                recs == old(self)@,
                self.wf(),
                self.page_size_spec() == old(self).page_size_spec(),
                lim == heap_limit(recs, heap_size as nat),
                lim <= recs.len(),
                index <= j,
                forall|k: int| index <= k < j ==> (#[trigger] recs[k]).taken && !recs[k].last,
            ensures
                self@ == recs,
                index <= j < lim,
                recs[j as int].taken && recs[j as int].last,
                forall|k: int| index <= k < j ==> (#[trigger] recs[k]).taken && !recs[k].last,
            decreases lim - j,
        {
            if j >= lim || !self.is_taken(j) {
                assert forall|n: int| !run_at(recs, lim as int, index as int, n) by {
                    if n >= 1 && index + n - 1 < j {
                        assert(!recs[index + n - 1].last);
                    }
                }
                return Err(PageAllocError::DoubleFree);
            }
            if self.is_last(j) {
                break;
            }
            j = j + 1;
        }
        let n = j - index + 1;
        assert(run_at(recs, lim as int, index as int, n as int));
        if index > 0 && !self.is_taken(index - 1) && self.is_last(index - 1) {
            self.set_last(index - 1, false);
        }
        let ghost v1 = self@;
        let mut k = index;
        while k <= j
            invariant
                index <= k <= j + 1,
                recs == old(self)@,
                lim == heap_limit(recs, heap_size as nat),
                j < lim,
                lim <= recs.len(),
                v1.len() == recs.len(),
                self@.len() == recs.len(),
                self.wf(),
                self.page_size_spec() == old(self).page_size_spec(),
                forall|m: int|
                    0 <= m < recs.len() ==> #[trigger] self@[m] == (if index <= m < k {
                        Record { taken: false, last: v1[m].last }
                    } else {
                        v1[m]
                    }),
            decreases j + 1 - k,
        {
            self.set_taken(k, false);
            k = k + 1;
        }
        if j + 1 >= lim || !self.is_taken(j + 1) {
            self.set_last(j, false);
        }
        assert(self@ =~= dealloc_update(recs, lim as int, index as int, n as int));
        Ok(n)
    }

    /// Allocate `num_pages` pages of the heap that starts at `heap_start` and
    /// holds `heap_size` pages. Returns the address of the first page.
    pub fn allocate_slice(&mut self, heap_start: usize, heap_size: usize, num_pages: usize) -> (r:
        Result<usize, PageAllocError>)
        requires
            old(self).wf(),
            heap_size > 0,
            num_pages > 0,
            heap_start as int % old(self).page_size_spec() as int == 0,
            heap_start + heap_size * old(self).page_size_spec() <= usize::MAX,
        ensures
            final(self).wf(),
            final(self).page_size_spec() == old(self).page_size_spec(),
            match r {
                Ok(a) => exists|s: int|
                    a == heap_start + s * old(self).page_size_spec() && first_fit(
                        old(self)@,
                        heap_limit(old(self)@, heap_size as nat),
                        s,
                        num_pages as int,
                    ) && final(self)@ == alloc_update(old(self)@, s, num_pages as int),
                Err(e) => e == PageAllocError::OutOfMemory && final(self)@ == old(self)@,
            },
            r.is_err() <==> forall|t: int| !fits(old(self)@, heap_limit(old(self)@, heap_size as nat), t, num_pages as int),
    {
        let ps = self.page_size();
        match self.allocate_pages(heap_size, num_pages) {
            Ok(s) => {
                assert(s * ps <= heap_size * ps) by (nonlinear_arith)
                    requires s < heap_size;
                Ok(heap_start + s * ps)
            },
            Err(e) => Err(e),
        }
    }

    /// Free the run of pages at `address` in the heap that starts at
    /// `heap_start` and holds `heap_size` pages. Returns the number of pages freed.
    pub fn deallocate(&mut self, heap_start: usize, heap_size: usize, address: usize) -> (r: Result<
        usize,
        PageAllocError,
    >)
        requires
            old(self).wf(),
            heap_size > 0,
            heap_start as int % old(self).page_size_spec() as int == 0,
            address as int % old(self).page_size_spec() as int == 0,
            heap_start <= address < heap_start + heap_size * old(self).page_size_spec(),
        ensures
            final(self).wf(),
            final(self).page_size_spec() == old(self).page_size_spec(),
            match r {
                Ok(n) => run_at(
                    old(self)@,
                    heap_limit(old(self)@, heap_size as nat),
                    (address - heap_start) / (old(self).page_size_spec() as int),
                    n as int,
                ) && final(self)@ == dealloc_update(
                    old(self)@,
                    heap_limit(old(self)@, heap_size as nat),
                    (address - heap_start) / (old(self).page_size_spec() as int),
                    n as int,
                ),
                Err(e) => e == PageAllocError::DoubleFree && final(self)@ == old(self)@,
            },
            r.is_err() <==> forall|n: int|
                !#[trigger] run_at(
                    old(self)@,
                    heap_limit(old(self)@, heap_size as nat),
                    (address - heap_start) / (old(self).page_size_spec() as int),
                    n,
                ),
    {
        let ps = self.page_size();
        let index = (address - heap_start) / ps;
        self.deallocate_pages(heap_size, index)
    }

    fn set_last(&mut self, index: usize, last: bool)
        requires
            index < old(self)@.len(),
        ensures
            final(self)@ == old(self)@.update(index as int, Record { taken: old(self)@[index as int].taken, last }),
            final(self).page_size_spec() == old(self).page_size_spec(),
            final(self).wf() == old(self).wf(),
    {
        let mut record = self.get_record(index);
        record.last = last;
        self.set_record(index, record);
    }
}

/// Allocating a run and freeing it again frees exactly the pages allocated and
/// gives back the records as they were
pub proof fn lemma_alloc_dealloc_round_trip(recs: Seq<Record>, lim: int, s: int, n: int)
    requires
        wf_records(recs, lim),
        n > 0,
        fits(recs, lim, s, n),
    ensures
        run_at(alloc_update(recs, s, n), lim, s, n),
        dealloc_update(alloc_update(recs, s, n), lim, s, n) == recs,
{
    let a = alloc_update(recs, s, n);
    let d = dealloc_update(a, lim, s, n);
    assert forall|j: int| 0 <= j < recs.len() implies #[trigger] d[j] == recs[j] by {
        if s <= j < s + n {
            if j < s + n - 1 {
                assert(!recs[j].last);
                assert(!recs[j].taken);
            } else {
                assert(!recs[j].taken);
                if j + 1 < lim {
                    assert(a[j + 1] == recs[j + 1]);
                }
            }
        } else if j == s - 1 {
            assert(!recs[s].taken);
        }
    }
    assert(d =~= recs);
}

/// Allocation keeps the book-keeping consistent
pub proof fn lemma_alloc_keeps_wf(recs: Seq<Record>, lim: int, s: int, n: int)
    requires
        wf_records(recs, lim),
        n > 0,
        fits(recs, lim, s, n),
    ensures
        wf_records(alloc_update(recs, s, n), lim),
{
    let a = alloc_update(recs, s, n);
    assert forall|j: int| 0 <= j < lim && !(#[trigger] a[j]).taken implies (a[j].last <==> (j + 1 < lim
        && a[j + 1].taken)) by {
        assert(!recs[j].taken);
        if j + 1 < lim && j + 1 != s - 1 && !(s <= j + 1 < s + n) {
            assert(a[j + 1] == recs[j + 1]);
        }
    }
    assert forall|j: int|
        0 <= j < lim && (#[trigger] a[j]).taken && (j + 1 >= lim || !a[j + 1].taken) implies a[j].last by {
        if j + 1 < lim && j + 1 != s - 1 && !(s <= j + 1 < s + n) {
            assert(a[j + 1] == recs[j + 1]);
        }
    }
}

/// Two runs allocated one after the other do not overlap
pub proof fn lemma_allocations_disjoint(recs: Seq<Record>, lim: int, s1: int, n1: int, s2: int, n2: int)
    requires
        lim <= recs.len(),
        n1 > 0,
        n2 > 0,
        fits(recs, lim, s1, n1),
        fits(alloc_update(recs, s1, n1), lim, s2, n2),
    ensures
        s1 + n1 <= s2 || s2 + n2 <= s1,
{
    let a = alloc_update(recs, s1, n1);
    if !(s1 + n1 <= s2 || s2 + n2 <= s1) {
        let k = if s1 <= s2 { s2 } else { s1 };
        assert(a[k].taken);
    }
}

/// Allocation never frees a page: every page taken before is taken after
pub proof fn lemma_alloc_keeps_taken(recs: Seq<Record>, s: int, n: int, j: int)
    requires
        0 <= j < recs.len(),
        recs[j].taken,
    ensures
        alloc_update(recs, s, n)[j].taken,
{
}

/// On a fresh heap, a run as long as the whole heap fits at its start; after
/// it is allocated not even one more page fits
pub proof fn lemma_fill_exhausts(recs: Seq<Record>, lim: int)
    requires
        0 < lim <= recs.len(),
        forall|i: int| 0 <= i < recs.len() ==> !(#[trigger] recs[i]).taken && !recs[i].last,
    ensures
        first_fit(recs, lim, 0, lim),
        forall|t: int| !fits(alloc_update(recs, 0, lim), lim, t, 1),
{
    let a = alloc_update(recs, 0, lim);
    assert forall|t: int| !fits(a, lim, t, 1) by {
        if 0 <= t && t + 1 <= lim {
            assert(a[t].taken);
        }
    }
}

/// Freeing a run never takes a page, and frees every page of the run
pub proof fn lemma_dealloc_frees(recs: Seq<Record>, lim: int, i: int, n: int)
    ensures
        forall|x: int| 0 <= x < recs.len() && !recs[x].taken ==> !(#[trigger] dealloc_update(recs, lim, i, n)[x]).taken,
        forall|x: int| i <= x < i + n && 0 <= x < recs.len() ==> !(#[trigger] dealloc_update(recs, lim, i, n)[x]).taken,
{
}

/// Freeing a run keeps every other allocated run that does not overlap it
pub proof fn lemma_dealloc_keeps_run(recs: Seq<Record>, lim: int, i: int, n: int, j: int, m: int)
    requires
        lim <= recs.len(),
        run_at(recs, lim, i, n),
        run_at(recs, lim, j, m),
        i + n <= j || j + m <= i,
    ensures
        run_at(dealloc_update(recs, lim, i, n), lim, j, m),
{
    let d = dealloc_update(recs, lim, i, n);
    assert forall|x: int| j <= x < j + m implies #[trigger] d[x] == recs[x] by {}
}

} // verus!
