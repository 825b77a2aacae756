//! Sv39 addresses, page-table entries, and page-table walks
use vstd::prelude::*;
use crate::errors::KernelError;

verus! {

/// Size of a page in bytes
pub const PAGE_SIZE: usize = 4096;

/// Largest Sv39 virtual address
pub const MAX_VIRTUAL_ADDRESS: u64 = 0x7f_ffff_ffff;

/// Largest Sv39 physical address
pub const MAX_PHYSICAL_ADDRESS: u64 = 0xff_ffff_ffff_ffff;

/// Number of entries in a page table
pub const ENTRIES_IN_PAGE_TABLE: usize = 512;

/// Largest physical page number
pub const MAX_PPN: u64 = 0xfff_ffff_ffff;

/// The 9-bit virtual page number of `va` at `level` (0 to 2)
pub open spec fn vpn(va: nat, level: nat) -> nat {
    if level == 0 {
        (va / 4096) % 512
    } else if level == 1 {
        (va / (4096 * 512)) % 512
    } else {
        (va / (4096 * 512 * 512)) % 512
    }
}

/// A 39-bit Sv39 virtual address
#[derive(Copy, Clone, Debug, PartialEq, Eq, Structural)]
pub struct Sv39VirtualAddress {
    value: u64,
}

impl View for Sv39VirtualAddress {
    type V = nat;

    closed spec fn view(&self) -> nat {
        self.value as nat
    }
}

impl Sv39VirtualAddress {
    #[verifier::type_invariant]
    spec fn inv(self) -> bool {
        self.value <= MAX_VIRTUAL_ADDRESS
    }

    /// Checked constructor: fails above the 39-bit range
    pub fn try_from(other: usize) -> (r: Result<Sv39VirtualAddress, KernelError>)
        ensures
            other <= MAX_VIRTUAL_ADDRESS ==> r.is_ok() && r.unwrap()@ == other,
            other > MAX_VIRTUAL_ADDRESS ==> r == Err::<Sv39VirtualAddress, KernelError>(
                KernelError::InvalidVirtualAddress(other),
            ),
    {
        if other as u64 > MAX_VIRTUAL_ADDRESS {
            Err(KernelError::InvalidVirtualAddress(other))
        } else {
            Ok(Sv39VirtualAddress { value: other as u64 })
        }
    }

    /// Checked constructor from a 64-bit value
    pub fn try_from_u64(other: u64) -> (r: Option<Sv39VirtualAddress>)
        ensures
            other <= MAX_VIRTUAL_ADDRESS ==> r.is_some() && r.unwrap()@ == other,
            other > MAX_VIRTUAL_ADDRESS ==> r.is_none(),
    {
        if other > MAX_VIRTUAL_ADDRESS {
            None
        } else {
            Some(Sv39VirtualAddress { value: other })
        }
    }

    /// The address as a 64-bit value
    pub fn to_u64(self) -> (r: u64)
        ensures
            r == self@,
            r <= MAX_VIRTUAL_ADDRESS,
    {
        proof {
            use_type_invariant(self);
        }
        self.value
    }

    /// The address as an integer (on a 64-bit machine, the same value)
    pub fn to_usize(self) -> (r: usize)
        ensures
            r == self@ as usize,
            usize::MAX == u64::MAX ==> r == self@,
    {
        self.value as usize
    }

    /// Is the address page-aligned?
    pub fn is_page_aligned(&self) -> (r: bool)
        ensures
            r == (self@ % 4096 == 0),
    {
        self.value % 4096 == 0
    }

    /// The address moved by `offset` bytes, if it stays in range
    pub fn offset(self, offset: i64) -> (r: Result<Sv39VirtualAddress, KernelError>)
        ensures
            0 <= self@ + offset <= MAX_VIRTUAL_ADDRESS ==> r.is_ok() && r.unwrap()@ == self@ + offset,
            !(0 <= self@ + offset <= MAX_VIRTUAL_ADDRESS) ==> r.is_err(),
    {
        let v = self.to_u64();
        match v.checked_add_signed(offset) {
            Some(x) => {
                if x > MAX_VIRTUAL_ADDRESS {
                    Err(KernelError::InvalidVirtualAddress(v as usize))
                } else {
                    Ok(Sv39VirtualAddress { value: x })
                }
            },
            None => Err(KernelError::InvalidVirtualAddress(v as usize)),
        }
    }

    /// The virtual page number at `level` (0 to 2)
    pub fn vpn(&self, level: usize) -> (r: usize)
        requires
            level <= 2,
        ensures
            r == vpn(self@, level as nat),
            r < 512,
    {
        if level == 0 {
            ((self.value / 4096) % 512) as usize
        } else if level == 1 {
            ((self.value / (4096 * 512)) % 512) as usize
        } else {
            ((self.value / (4096 * 512 * 512)) % 512) as usize
        }
    }

    /// The 12-bit offset within the page
    pub fn page_offset(&self) -> (r: usize)
        ensures
            r == self@ % 4096,
    {
        (self.value % 4096) as usize
    }
}

/// A 56-bit Sv39 physical address
#[derive(Copy, Clone, Debug, PartialEq, Eq, Structural)]
pub struct Sv39PhysicalAddress {
    value: u64,
}

impl View for Sv39PhysicalAddress {
    type V = nat;

    closed spec fn view(&self) -> nat {
        self.value as nat
    }
}

impl Sv39PhysicalAddress {
    #[verifier::type_invariant]
    spec fn inv(self) -> bool {
        self.value <= MAX_PHYSICAL_ADDRESS
    }

    /// Checked constructor: fails above the 56-bit range
    pub fn try_from(other: usize) -> (r: Result<Sv39PhysicalAddress, KernelError>)
        ensures
            other <= MAX_PHYSICAL_ADDRESS ==> r.is_ok() && r.unwrap()@ == other,
            other > MAX_PHYSICAL_ADDRESS ==> r == Err::<Sv39PhysicalAddress, KernelError>(
                KernelError::InvalidPhysicalAddress(other),
            ),
    {
        if other as u64 > MAX_PHYSICAL_ADDRESS {
            Err(KernelError::InvalidPhysicalAddress(other))
        } else {
            Ok(Sv39PhysicalAddress { value: other as u64 })
        }
    }

    /// The address of the start of physical page `ppn`
    pub fn from_ppn(ppn: u64) -> (r: Sv39PhysicalAddress)
        requires
            ppn <= MAX_PPN,
        ensures
            r@ == ppn * 4096,
    {
        Sv39PhysicalAddress { value: ppn * 4096 }
    }

    /// The address as a 64-bit value
    pub fn to_u64(self) -> (r: u64)
        ensures
            r == self@,
            r <= MAX_PHYSICAL_ADDRESS,
    {
        proof {
            use_type_invariant(self);
        }
        self.value
    }

    /// The address as an integer (on a 64-bit machine, the same value)
    pub fn to_usize(self) -> (r: usize)
        ensures
            r == self@ as usize,
            usize::MAX == u64::MAX ==> r == self@,
    {
        self.value as usize
    }

    /// Is the address page-aligned?
    pub fn is_page_aligned(&self) -> (r: bool)
        ensures
            r == (self@ % 4096 == 0),
    {
        self.value % 4096 == 0
    }

    /// The physical page number
    pub fn ppn(&self) -> (r: u64)
        ensures
            r == self@ / 4096,
            r <= MAX_PPN,
    {
        proof {
            use_type_invariant(self);
        }
        self.value / 4096
    }

    /// The address moved by `offset` bytes, if it stays in range
    pub fn offset(self, offset: i64) -> (r: Result<Sv39PhysicalAddress, KernelError>)
        ensures
            0 <= self@ + offset <= MAX_PHYSICAL_ADDRESS ==> r.is_ok() && r.unwrap()@ == self@ + offset,
            !(0 <= self@ + offset <= MAX_PHYSICAL_ADDRESS) ==> r.is_err(),
    {
        let v = self.to_u64();
        match v.checked_add_signed(offset) {
            Some(x) => {
                if x > MAX_PHYSICAL_ADDRESS {
                    Err(KernelError::InvalidPhysicalAddress(v as usize))
                } else {
                    Ok(Sv39PhysicalAddress { value: x })
                }
            },
            None => Err(KernelError::InvalidPhysicalAddress(v as usize)),
        }
    }

    /// The kernel-space virtual address of this physical address, where
    /// `kernel_virtual = physical - pmo`
    pub fn to_vaddr_with_pmo(self, pmo: i64) -> (r: Result<Sv39VirtualAddress, KernelError>)
        ensures
            0 <= self@ - pmo <= MAX_VIRTUAL_ADDRESS ==> r.is_ok() && r.unwrap()@ == self@ - pmo,
            !(0 <= self@ - pmo <= MAX_VIRTUAL_ADDRESS) ==> r.is_err(),
    {
        let v = self.to_u64();
        if pmo == i64::MIN {
            return Err(KernelError::InvalidVirtualAddress(v as usize));
        }
        match v.checked_add_signed(-pmo) {
            Some(x) => match Sv39VirtualAddress::try_from_u64(x) {
                Some(a) => Ok(a),
                None => Err(KernelError::InvalidVirtualAddress(v as usize)),
            },
            None => Err(KernelError::InvalidVirtualAddress(v as usize)),
        }
    }
}

/// How a page is mapped: the permission bits that its leaf entry gets
#[derive(Copy, Clone, Debug, PartialEq, Eq, Structural)]
pub enum PageType {
    UserReadOnly,
    UserReadWrite,
    UserExecute,
    Kernel,
}

/// Permission bits of a page type: (read, write, execute, user, global)
pub open spec fn page_type_bits(kind: PageType) -> (bool, bool, bool, bool, bool) {
    match kind {
        PageType::Kernel => (true, true, true, false, true),
        PageType::UserReadOnly => (true, false, false, true, false),
        PageType::UserReadWrite => (true, true, false, true, false),
        PageType::UserExecute => (true, false, true, true, false),
    }
}

impl PageType {
    /// Readable
    pub fn read(self) -> (r: bool)
        ensures
            r == page_type_bits(self).0,
    {
        true
    }

    /// Writable
    pub fn write(self) -> (r: bool)
        ensures
            r == page_type_bits(self).1,
    {
        match self {
            PageType::UserReadWrite | PageType::Kernel => true,
            _ => false,
        }
    }

    /// Executable
    pub fn execute(self) -> (r: bool)
        ensures
            r == page_type_bits(self).2,
    {
        match self {
            PageType::UserExecute | PageType::Kernel => true,
            _ => false,
        }
    }

    /// Accessible from user mode
    pub fn user(self) -> (r: bool)
        ensures
            r == page_type_bits(self).3,
    {
        match self {
            PageType::Kernel => false,
            _ => true,
        }
    }

    /// Mapped in every address space
    pub fn global(self) -> (r: bool)
        ensures
            r == page_type_bits(self).4,
    {
        !self.user()
    }
}

/// A page-table entry: flags and the physical page number it points to
#[derive(Copy, Clone, Debug, PartialEq, Eq, Structural)]
pub struct Sv39PageTableEntry {
    pub valid: bool,
    pub read: bool,
    pub write: bool,
    pub execute: bool,
    pub user: bool,
    pub global: bool,
    pub ppn: u64,
}

/// The entry maps a page (it has at least one of R, W, X)
pub open spec fn is_leaf(e: Sv39PageTableEntry) -> bool {
    e.read || e.write || e.execute
}

/// The leaf entry that maps physical page `ppn` as `kind`
pub open spec fn leaf_entry(ppn: u64, kind: PageType) -> Sv39PageTableEntry {
    Sv39PageTableEntry {
        valid: true,
        read: page_type_bits(kind).0,
        write: page_type_bits(kind).1,
        execute: page_type_bits(kind).2,
        user: page_type_bits(kind).3,
        global: page_type_bits(kind).4,
        ppn,
    }
}

/// The branch entry that points to the table at physical page `ppn`
pub open spec fn branch_entry(ppn: u64, global: bool) -> Sv39PageTableEntry {
    Sv39PageTableEntry {
        valid: true,
        read: false,
        write: false,
        execute: false,
        user: false,
        global,
        ppn,
    }
}

/// The entry as the 64 bits the MMU reads: flags in bits 0 to 5, the
/// physical page number from bit 10
pub open spec fn entry_bits(e: Sv39PageTableEntry) -> int {
    (if e.valid { 1int } else { 0 }) + (if e.read { 2int } else { 0 }) + (if e.write { 4int } else { 0 })
        + (if e.execute { 8int } else { 0 }) + (if e.user { 16int } else { 0 }) + (if e.global {
        32int
    } else {
        0
    }) + e.ppn * 1024
}

impl Sv39PageTableEntry {
    /// An invalid entry
    pub fn zero() -> (r: Sv39PageTableEntry)
        ensures
            !r.valid && !is_leaf(r) && r.ppn == 0,
    {
        Sv39PageTableEntry {
            valid: false,
            read: false,
            write: false,
            execute: false,
            user: false,
            global: false,
            ppn: 0,
        }
    }

    /// Is this a leaf node (i.e., does not link to a page table)?
    pub fn is_leaf(&self) -> (r: bool)
        ensures
            r == is_leaf(*self),
    {
        self.read || self.write || self.execute
    }

    /// Does this link to another page table?
    pub fn is_branch(&self) -> (r: bool)
        ensures
            r == !is_leaf(*self),
    {
        !self.is_leaf()
    }

    /// Physical address of what this entry points to
    pub fn physical_address(&self) -> (r: Sv39PhysicalAddress)
        requires
            self.ppn <= MAX_PPN,
        ensures
            r@ == self.ppn * 4096,
    {
        Sv39PhysicalAddress::from_ppn(self.ppn)
    }

    /// The 64-bit encoding of the entry
    pub fn bits(&self) -> (r: u64)
        requires
            self.ppn <= MAX_PPN,
        ensures
            r == entry_bits(*self),
    {
        let mut b: u64 = self.ppn * 1024;
        if self.valid {
            b = b + 1;
        }
        if self.read {
            b = b + 2;
        }
        if self.write {
            b = b + 4;
        }
        if self.execute {
            b = b + 8;
        }
        if self.user {
            b = b + 16;
        }
        if self.global {
            b = b + 32;
        }
        b
    }
}

/// The leaf entry that maps `va`, by a three-level walk from table 0; tables
/// are 512 consecutive entries, table `t` at physical page `base + t`
pub open spec fn walk(es: Seq<Sv39PageTableEntry>, base: int, va: nat) -> Option<Sv39PageTableEntry> {
    let e2 = es[vpn(va, 2) as int];
    if !e2.valid {
        None
    } else if is_leaf(e2) {
        Some(e2)
    } else {
        let e1 = es[(e2.ppn - base) * 512 + vpn(va, 1)];
        if !e1.valid {
            None
        } else if is_leaf(e1) {
            Some(e1)
        } else {
            let e0 = es[(e1.ppn - base) * 512 + vpn(va, 0)];
            if e0.valid && is_leaf(e0) {
                Some(e0)
            } else {
                None
            }
        }
    }
}

/// The walk for `va` meets a valid leaf above the last level, or a valid
/// last-level entry: `va` cannot get a new mapping
pub open spec fn slot_in_use(es: Seq<Sv39PageTableEntry>, base: int, va: nat) -> bool {
    let e2 = es[vpn(va, 2) as int];
    e2.valid && (is_leaf(e2) || {
        let e1 = es[(e2.ppn - base) * 512 + vpn(va, 1)];
        e1.valid && (is_leaf(e1) || es[(e1.ppn - base) * 512 + vpn(va, 0)].valid)
    })
}

/// Every valid branch entry points to a table of the set, and every page
/// number is in range
pub open spec fn wf_tables(es: Seq<Sv39PageTableEntry>, base: int) -> bool {
    &&& es.len() >= 512
    &&& es.len() % 512 == 0
    &&& 0 <= base
    &&& base + es.len() / 512 <= MAX_PPN + 1
    &&& forall|k: int| 0 <= k < es.len() ==> (#[trigger] es[k]).ppn <= MAX_PPN
    &&& forall|k: int|
        0 <= k < es.len() && (#[trigger] es[k]).valid && !is_leaf(es[k]) ==> base <= es[k].ppn && (
        es[k].ppn - base) * 512 < es.len()
}

/// The entry links to a table
pub open spec fn is_branch(e: Sv39PageTableEntry) -> bool {
    e.valid && !is_leaf(e)
}

/// The tables form a tree below the root: no entry links to the root, and no
/// two entries link to the same table
pub open spec fn tree(es: Seq<Sv39PageTableEntry>, base: int) -> bool {
    &&& forall|k: int| 0 <= k < es.len() && is_branch(#[trigger] es[k]) ==> es[k].ppn != base
    &&& forall|k1: int, k2: int|
        0 <= k1 < es.len() && 0 <= k2 < es.len() && k1 != k2 && is_branch(#[trigger] es[k1]) && is_branch(
            #[trigger] es[k2],
        ) ==> es[k1].ppn != es[k2].ppn
}

/// `a` and `b` lie in the same page
pub open spec fn same_page(a: nat, b: nat) -> bool {
    vpn(a, 2) == vpn(b, 2) && vpn(a, 1) == vpn(b, 1) && vpn(a, 0) == vpn(b, 0)
}

/// What `map_page` changes: the root slot `i2` links to table `t1`, slot `i1`
/// of `t1` links to table `t0`, slot `i0` of `t0` maps a page; every other old
/// entry is kept and every other new entry is invalid
pub open spec fn map_page_changes(
    es0: Seq<Sv39PageTableEntry>,
    es3: Seq<Sv39PageTableEntry>,
    base: int,
    i2: int,
    i1: int,
    i0: int,
    t1: int,
    t0: int,
) -> bool {
    &&& 0 <= i2 < 512 && 0 <= i1 < 512 && 0 <= i0 < 512
    &&& 1 <= t1 && 1 <= t0 && t1 != t0
    &&& es0.len() <= es3.len()
    &&& t1 * 512 + 512 <= es3.len() && t0 * 512 + 512 <= es3.len()
    &&& is_branch(es3[i2]) && es3[i2].ppn == base + t1
    &&& is_branch(es3[t1 * 512 + i1]) && es3[t1 * 512 + i1].ppn == base + t0
    &&& es3[t0 * 512 + i0].valid && is_leaf(es3[t0 * 512 + i0])
    &&& forall|k: int|
        0 <= k < es0.len() && k != i2 && k != t1 * 512 + i1 && k != t0 * 512 + i0 ==> #[trigger] es3[k]
            == es0[k]
    &&& forall|k: int|
        es0.len() <= k < es3.len() && k != t1 * 512 + i1 && k != t0 * 512 + i0 ==> !(#[trigger] es3[k]).valid
    &&& (t1 * 512 < es0.len() ==> es0[i2] == es3[i2])
    &&& (t0 * 512 < es0.len() ==> t1 * 512 < es0.len() && es0[t1 * 512 + i1] == es3[t1 * 512 + i1])
}

proof fn lemma_map_page_frame(
    es0: Seq<Sv39PageTableEntry>,
    es3: Seq<Sv39PageTableEntry>,
    base: int,
    i2: int,
    i1: int,
    i0: int,
    t1: int,
    t0: int,
    va: nat,
)
    requires
        wf_tables(es0, base),
        wf_tables(es3, base),
        tree(es3, base),
        es0.len() % 512 == 0,
        map_page_changes(es0, es3, base, i2, i1, i0, t1, t0),
        walk(es0, base, va) is None,
        !(vpn(va, 2) == i2 && vpn(va, 1) == i1 && vpn(va, 0) == i0),
    ensures
        walk(es3, base, va) is None,
{
    assert(vpn(va, 2) < 512 && vpn(va, 1) < 512 && vpn(va, 0) < 512) by (nonlinear_arith);
    let v2 = vpn(va, 2) as int;
    let v1 = vpn(va, 1) as int;
    let v0 = vpn(va, 0) as int;
    if v2 != i2 {
        assert(es3[v2] == es0[v2]);
        let e2 = es0[v2];
        if is_branch(e2) {
            let t = e2.ppn - base;
            assert(t != t1);
            assert(t != t0);
            assert(t != 0);
            assert(t * 512 + 512 <= es0.len()) by (nonlinear_arith)
                requires t * 512 < es0.len(), es0.len() % 512 == 0;
            assert(t * 512 + v1 != t1 * 512 + i1) by (nonlinear_arith)
                requires t != t1, 0 <= v1 < 512, 0 <= i1 < 512;
            assert(t * 512 + v1 != t0 * 512 + i0) by (nonlinear_arith)
                requires t != t0, 0 <= v1 < 512, 0 <= i0 < 512;
            assert(es3[t * 512 + v1] == es0[t * 512 + v1]);
            let e1 = es0[t * 512 + v1];
            if is_branch(e1) {
                let u = e1.ppn - base;
                assert(u != t1);
                assert(u != t0);
                assert(u != 0);
                assert(u * 512 + 512 <= es0.len()) by (nonlinear_arith)
                    requires u * 512 < es0.len(), es0.len() % 512 == 0;
                assert(u * 512 + v0 != t1 * 512 + i1) by (nonlinear_arith)
                    requires u != t1, 0 <= v0 < 512, 0 <= i1 < 512;
                assert(u * 512 + v0 != t0 * 512 + i0) by (nonlinear_arith)
                    requires u != t0, 0 <= v0 < 512, 0 <= i0 < 512;
                assert(es3[u * 512 + v0] == es0[u * 512 + v0]);
            }
        }
    } else if v1 != i1 {
        assert(t1 * 512 + v1 != t0 * 512 + i0) by (nonlinear_arith)
            requires t1 != t0, 0 <= v1 < 512, 0 <= i0 < 512;
        assert(t1 * 512 + v1 != t1 * 512 + i1);
        if t1 * 512 < es0.len() {
            assert(t1 * 512 + 512 <= es0.len()) by (nonlinear_arith)
                requires t1 * 512 < es0.len(), es0.len() % 512 == 0;
            assert(es3[t1 * 512 + v1] == es0[t1 * 512 + v1]);
            let e1 = es0[t1 * 512 + v1];
            if is_branch(e1) {
                let u = e1.ppn - base;
                assert(u != t1);
                assert(u != t0);
                assert(u * 512 + 512 <= es0.len()) by (nonlinear_arith)
                    requires u * 512 < es0.len(), es0.len() % 512 == 0;
                assert(u * 512 + v0 != t1 * 512 + i1) by (nonlinear_arith)
                    requires u != t1, 0 <= v0 < 512, 0 <= i1 < 512;
                assert(u * 512 + v0 != t0 * 512 + i0) by (nonlinear_arith)
                    requires u != t0, 0 <= v0 < 512, 0 <= i0 < 512;
                assert(es3[u * 512 + v0] == es0[u * 512 + v0]);
            }
        } else {
            assert(t1 * 512 + v1 >= es0.len());
            assert(!es3[t1 * 512 + v1].valid);
        }
    } else {
        assert(v0 != i0);
        assert(t0 * 512 + v0 != t1 * 512 + i1) by (nonlinear_arith)
            requires t1 != t0, 0 <= v0 < 512, 0 <= i1 < 512;
        if t0 * 512 < es0.len() {
            assert(t0 * 512 + 512 <= es0.len()) by (nonlinear_arith)
                requires t0 * 512 < es0.len(), es0.len() % 512 == 0;
            assert(es3[t0 * 512 + v0] == es0[t0 * 512 + v0]);
        } else {
            assert(!es3[t0 * 512 + v0].valid);
        }
    }
}

proof fn lemma_map_page_slot_frame(
    es0: Seq<Sv39PageTableEntry>,
    es3: Seq<Sv39PageTableEntry>,
    base: int,
    i2: int,
    i1: int,
    i0: int,
    t1: int,
    t0: int,
    va: nat,
)
    requires
        wf_tables(es0, base),
        wf_tables(es3, base),
        tree(es3, base),
        es0.len() % 512 == 0,
        map_page_changes(es0, es3, base, i2, i1, i0, t1, t0),
        !slot_in_use(es0, base, va),
        !(vpn(va, 2) == i2 && vpn(va, 1) == i1 && vpn(va, 0) == i0),
    ensures
        !slot_in_use(es3, base, va),
{
    assert(vpn(va, 2) < 512 && vpn(va, 1) < 512 && vpn(va, 0) < 512) by (nonlinear_arith);
    let v2 = vpn(va, 2) as int;
    let v1 = vpn(va, 1) as int;
    let v0 = vpn(va, 0) as int;
    if v2 != i2 {
        assert(es3[v2] == es0[v2]);
        let e2 = es0[v2];
        if is_branch(e2) {
            let t = e2.ppn - base;
            assert(t != t1);
            assert(t != t0);
            assert(t != 0);
            assert(t * 512 + 512 <= es0.len()) by (nonlinear_arith)
                requires t * 512 < es0.len(), es0.len() % 512 == 0;
            assert(t * 512 + v1 != t1 * 512 + i1) by (nonlinear_arith)
                requires t != t1, 0 <= v1 < 512, 0 <= i1 < 512;
            assert(t * 512 + v1 != t0 * 512 + i0) by (nonlinear_arith)
                requires t != t0, 0 <= v1 < 512, 0 <= i0 < 512;
            assert(es3[t * 512 + v1] == es0[t * 512 + v1]);
            let e1 = es0[t * 512 + v1];
            if is_branch(e1) {
                let u = e1.ppn - base;
                assert(u != t1);
                assert(u != t0);
                assert(u != 0);
                assert(u * 512 + 512 <= es0.len()) by (nonlinear_arith)
                    requires u * 512 < es0.len(), es0.len() % 512 == 0;
                assert(u * 512 + v0 != t1 * 512 + i1) by (nonlinear_arith)
                    requires u != t1, 0 <= v0 < 512, 0 <= i1 < 512;
                assert(u * 512 + v0 != t0 * 512 + i0) by (nonlinear_arith)
                    requires u != t0, 0 <= v0 < 512, 0 <= i0 < 512;
                assert(es3[u * 512 + v0] == es0[u * 512 + v0]);
            }
        }
    } else if v1 != i1 {
        assert(t1 * 512 + v1 != t0 * 512 + i0) by (nonlinear_arith)
            requires t1 != t0, 0 <= v1 < 512, 0 <= i0 < 512;
        assert(t1 * 512 + v1 != t1 * 512 + i1);
        if t1 * 512 < es0.len() {
            assert(t1 * 512 + 512 <= es0.len()) by (nonlinear_arith)
                requires t1 * 512 < es0.len(), es0.len() % 512 == 0;
            assert(es3[t1 * 512 + v1] == es0[t1 * 512 + v1]);
            let e1 = es0[t1 * 512 + v1];
            if is_branch(e1) {
                let u = e1.ppn - base;
                assert(u != t1);
                assert(u != t0);
                assert(u * 512 + 512 <= es0.len()) by (nonlinear_arith)
                    requires u * 512 < es0.len(), es0.len() % 512 == 0;
                assert(u * 512 + v0 != t1 * 512 + i1) by (nonlinear_arith)
                    requires u != t1, 0 <= v0 < 512, 0 <= i1 < 512;
                assert(u * 512 + v0 != t0 * 512 + i0) by (nonlinear_arith)
                    requires u != t0, 0 <= v0 < 512, 0 <= i0 < 512;
                assert(es3[u * 512 + v0] == es0[u * 512 + v0]);
            }
        } else {
            assert(t1 * 512 + v1 >= es0.len());
            assert(!es3[t1 * 512 + v1].valid);
        }
    } else {
        assert(v0 != i0);
        assert(t0 * 512 + v0 != t1 * 512 + i1) by (nonlinear_arith)
            requires t1 != t0, 0 <= v0 < 512, 0 <= i1 < 512;
        if t0 * 512 < es0.len() {
            assert(t0 * 512 + 512 <= es0.len()) by (nonlinear_arith)
                requires t0 * 512 < es0.len(), es0.len() % 512 == 0;
            assert(es3[t0 * 512 + v0] == es0[t0 * 512 + v0]);
        } else {
            assert(!es3[t0 * 512 + v0].valid);
        }
    }
}

/// Two addresses in the same page have the same page number
pub proof fn lemma_same_page(a: nat, b: nat)
    requires
        a <= MAX_VIRTUAL_ADDRESS,
        b <= MAX_VIRTUAL_ADDRESS,
        same_page(a, b),
    ensures
        a / 4096 == b / 4096,
{
    lemma_page_digits(a);
    lemma_page_digits(b);
}

proof fn lemma_page_digits(a: nat)
    requires
        a <= MAX_VIRTUAL_ADDRESS,
    ensures
        a / 4096 == vpn(a, 0) + 512 * vpn(a, 1) + 512 * 512 * vpn(a, 2),
{
    let x = a as int;
    let p: int = 4096;
    let d: int = 512;
    let q = x / p;
    vstd::arithmetic::div_mod::lemma_div_denominator(x, p, d);
    vstd::arithmetic::div_mod::lemma_div_denominator(x, p * d, d);
    vstd::arithmetic::div_mod::lemma_div_denominator(q, d, d);
    vstd::arithmetic::div_mod::lemma_fundamental_div_mod(q, d);
    vstd::arithmetic::div_mod::lemma_fundamental_div_mod(q / d, d);
    assert(q < d * d * d) by (nonlinear_arith)
        requires q == x / p, x <= 0x7f_ffff_ffff, p == 4096, d == 512;
    assert(q / (d * d) < d) by (nonlinear_arith)
        requires q < d * d * d, q >= 0, d == 512;
    assert((q / (d * d)) % d == q / (d * d)) by (nonlinear_arith)
        requires q / (d * d) < d, q >= 0, d == 512;
    assert(q / d / d == q / (d * d));
    assert(x / (p * d) == q / d);
    assert(x / (p * d * d) == q / (d * d)) by {
        vstd::arithmetic::div_mod::lemma_div_denominator(x, p * d, d);
    }
    let r0 = q % d;
    let r1 = (q / d) % d;
    let r2 = q / (d * d);
    assert(vpn(a, 0) == r0);
    assert(vpn(a, 1) == r1);
    assert(vpn(a, 2) == r2);
    assert(q == r0 + d * r1 + d * d * r2) by (nonlinear_arith)
        requires q == d * (q / d) + r0, q / d == d * (q / d / d) + r1, q / d / d == r2;
}

proof fn lemma_walk_kept(old_es: Seq<Sv39PageTableEntry>, new_es: Seq<Sv39PageTableEntry>, base: int, va: nat)
    requires
        wf_tables(old_es, base),
        new_es.len() >= old_es.len(),
        forall|k: int| 0 <= k < old_es.len() ==> #[trigger] new_es[k] == old_es[k] || !old_es[k].valid,
        walk(old_es, base, va) is Some,
    ensures
        walk(new_es, base, va) == walk(old_es, base, va),
{
    let i2 = vpn(va, 2) as int;
    assert(new_es[i2] == old_es[i2] || !old_es[i2].valid);
    let e2 = old_es[i2];
    if e2.valid && !is_leaf(e2) {
        let i1 = (e2.ppn - base) * 512 + vpn(va, 1);
        assert(new_es[i1] == old_es[i1] || !old_es[i1].valid);
        let e1 = old_es[i1];
        if e1.valid && !is_leaf(e1) {
            let i0 = (e1.ppn - base) * 512 + vpn(va, 0);
            assert(new_es[i0] == old_es[i0] || !old_es[i0].valid);
        }
    }
}

/// Mapping `size` bytes from `va` to `pa` cannot fail: the addresses are
/// aligned, the ranges fit the address spaces, no page of the range has its
/// slot in use, and two new tables per page fit in the reserved pages
pub open spec fn map_range_fits(t: &PageTables, va: nat, pa: nat, size: nat) -> bool {
    &&& t.is_tree()
    &&& va % 4096 == 0
    &&& pa % 4096 == 0
    &&& size % 4096 == 0
    &&& va + size <= MAX_VIRTUAL_ADDRESS
    &&& pa + size <= MAX_PHYSICAL_ADDRESS
    &&& forall|v: nat| va <= v < va + size ==> !#[trigger] slot_in_use(t.entries_spec(), t.base_spec(), v)
    &&& t.entries_spec().len() / 512 + 2 * (size / 4096) <= t.max_tables_spec()
}

/// Mapping the kernel image and stack cannot fail: both ranges are non-empty,
/// their addresses after the offsets are in range, the two virtual ranges do
/// not overlap, and each range fits the tables as `map_range` needs
pub open spec fn kernel_space_fits(t: &PageTables, layout: KernelLayout, pmo: int, pmo_offset: int) -> bool {
    let kv = layout.kernel_start - pmo_offset;
    let kp = layout.kernel_start + pmo;
    let ks = layout.table_heap_top - layout.kernel_start;
    let sv = layout.stack_bottom - pmo_offset;
    let sp = layout.stack_bottom + pmo;
    let ss = layout.stack_top - layout.stack_bottom;
    &&& pmo_offset != i64::MIN
    &&& ks > 0 && ss > 0
    &&& 0 <= kv && 0 <= kp && 0 <= sv && 0 <= sp
    &&& (kv + ks <= sv || sv + ss <= kv)
    &&& map_range_fits(t, kv as nat, kp as nat, ks as nat)
    &&& sv % 4096 == 0 && sp % 4096 == 0 && ss % 4096 == 0
    &&& sv + ss <= MAX_VIRTUAL_ADDRESS && sp + ss <= MAX_PHYSICAL_ADDRESS
    &&& t.slots_free(sv as nat, (sv + ss) as nat)
    &&& t.entries_spec().len() / 512 + 2 * (ks / 4096) + 2 * (ss / 4096) <= t.max_tables_spec()
}

/// Link-time addresses of the kernel image and its stack
#[derive(Copy, Clone, Debug, PartialEq, Eq, Structural)]
pub struct KernelLayout {
    pub kernel_start: usize,
    pub table_heap_top: usize,
    pub stack_bottom: usize,
    pub stack_top: usize,
}

/// A set of Sv39 page tables rooted at table 0
pub struct PageTables {
    entries: Vec<Sv39PageTableEntry>,
    base_ppn: u64,
    /// Number of physical pages reserved for tables, from `base_ppn` on
    max_tables: usize,
}

impl PageTables {
    /// All entries, table after table
    pub closed spec fn entries_spec(&self) -> Seq<Sv39PageTableEntry> {
        self.entries@
    }

    /// Physical page number of the root table
    pub closed spec fn base_spec(&self) -> int {
        self.base_ppn as int
    }

    /// Number of physical pages reserved for the tables
    pub closed spec fn max_tables_spec(&self) -> nat {
        self.max_tables as nat
    }

    /// The set is consistent
    pub open spec fn wf(&self) -> bool {
        &&& wf_tables(self.entries_spec(), self.base_spec())
        &&& self.entries_spec().len() / 512 <= self.max_tables_spec()
        &&& self.base_spec() + self.max_tables_spec() <= MAX_PPN + 1
    }

    /// The leaf entry that maps `va`, if any
    pub open spec fn translate(&self, va: nat) -> Option<Sv39PageTableEntry> {
        walk(self.entries_spec(), self.base_spec(), va)
    }

    /// The tables form a tree below the root
    pub open spec fn is_tree(&self) -> bool {
        tree(self.entries_spec(), self.base_spec())
    }

    /// No page from `lo` up to `hi` has its slot in use: each can be mapped
    pub open spec fn slots_free(&self, lo: nat, hi: nat) -> bool {
        forall|va: nat| lo <= va < hi ==> !#[trigger] slot_in_use(self.entries_spec(), self.base_spec(), va)
    }

    /// No address from `lo` up to `hi` is mapped
    pub open spec fn unmapped(&self, lo: nat, hi: nat) -> bool {
        forall|va: nat| lo <= va < hi ==> #[trigger] self.translate(va) is None
    }

    /// Physical address of the root table
    pub open spec fn root_address(&self) -> int {
        self.base_spec() * 4096
    }

    /// A set holding one empty root table at physical page `base_ppn`, with
    /// room for `max_tables` tables in the pages from there on
    pub fn new(base_ppn: u64, max_tables: usize) -> (r: PageTables)
        requires
            max_tables >= 1,
            base_ppn + max_tables <= MAX_PPN + 1,
        ensures
            r.wf(),
            r.base_spec() == base_ppn,
            r.max_tables_spec() == max_tables,
            tree(r.entries_spec(), r.base_spec()),
            forall|va: nat| !#[trigger] slot_in_use(r.entries_spec(), r.base_spec(), va),
            r.entries_spec().len() == 512,
            forall|va: nat| r.translate(va) is None,
    {
        let mut entries: Vec<Sv39PageTableEntry> = Vec::new();
        let mut i: usize = 0;
        while i < ENTRIES_IN_PAGE_TABLE
            invariant
                i <= 512,
                entries@.len() == i,
                forall|k: int| 0 <= k < i ==> !(#[trigger] entries@[k]).valid && entries@[k].ppn == 0,
            decreases 512 - i,
        {
            entries.push(Sv39PageTableEntry::zero());
            i = i + 1;
        }
        let r = PageTables { entries, base_ppn, max_tables };
        assert forall|va: nat| r.translate(va) is None && !#[trigger] slot_in_use(r.entries_spec(), r.base_spec(), va) by {
            assert(vpn(va, 2) < 512) by (nonlinear_arith);
        }
        r
    }

    /// Physical address of the root table
    pub fn root_table_address(&self) -> (r: Sv39PhysicalAddress)
        requires
            self.wf(),
        ensures
            r@ == self.root_address(),
    {
        Sv39PhysicalAddress::from_ppn(self.base_ppn)
    }

    /// Physical page number of the root table
    pub fn root_ppn(&self) -> (r: u64)
        ensures
            r == self.base_spec(),
    {
        self.base_ppn
    }

    /// Number of physical pages reserved for tables
    pub fn max_tables(&self) -> (r: usize)
        ensures
            r == self.max_tables_spec(),
    {
        self.max_tables
    }

    /// Number of tables in the set
    pub fn num_tables(&self) -> (r: usize)
        ensures
            r == self.entries_spec().len() / 512,
    {
        self.entries.len() / 512
    }

    /// Append an empty table; returns its index
    fn new_table(&mut self) -> (r: Result<usize, KernelError>)
        requires
            old(self).wf(),
        ensures
            final(self).wf(),
            final(self).base_spec() == old(self).base_spec(),
            final(self).max_tables_spec() == old(self).max_tables_spec(),
            final(self).entries_spec().len() >= old(self).entries_spec().len(),
            forall|k: int| 0 <= k < old(self).entries_spec().len() ==> #[trigger] final(self).entries_spec()[k] == old(self).entries_spec()[k],
            match r {
                Ok(t) => t * 512 == old(self).entries_spec().len() && final(self).entries_spec().len() == old(self).entries_spec().len() + 512
                    && old(self).base_spec() + t <= MAX_PPN
                    && forall|k: int| t * 512 <= k < (t + 1) * 512 ==> !(#[trigger] final(self).entries_spec()[k]).valid,
                Err(e) => e == KernelError::OutOfMemory && final(self).entries_spec() == old(self).entries_spec(),
            },
            old(self).entries_spec().len() / 512 < old(self).max_tables_spec() ==> r.is_ok(),
    {
        let n = self.entries.len() / 512;
        if n >= self.max_tables {
            return Err(KernelError::OutOfMemory);
        }
        let ghost e0 = self.entries@;
        let mut i: usize = 0;
        while i < ENTRIES_IN_PAGE_TABLE
            invariant
                i <= 512,
                n * 512 == e0.len(),
                self.base_ppn == old(self).base_ppn,
                self.max_tables == old(self).max_tables,
                n < self.max_tables,
                self.base_ppn + self.max_tables <= MAX_PPN + 1,
                e0 == old(self).entries@,
                self.base_ppn + n <= MAX_PPN,
                self.entries@.len() == e0.len() + i,
                forall|k: int| 0 <= k < e0.len() ==> #[trigger] self.entries@[k] == e0[k],
                forall|k: int| e0.len() <= k < e0.len() + i ==> !(#[trigger] self.entries@[k]).valid && self.entries@[k].ppn == 0,
            decreases 512 - i,
        {
            self.entries.push(Sv39PageTableEntry::zero());
            i = i + 1;
        }
        assert(self.entries@.len() / 512 == n + 1);
        Ok(n)
    }

    /// Follow entry `i` of table `t` to the next table, creating that table
    /// if the entry is invalid. Fails if the entry maps a page.
    fn descend(&mut self, t: usize, i: usize, global: bool) -> (r: Result<usize, KernelError>)
        requires
            old(self).wf(),
            i < 512,
            t * 512 + i < old(self).entries_spec().len(),
        ensures
            final(self).wf(),
            final(self).base_spec() == old(self).base_spec(),
            final(self).max_tables_spec() == old(self).max_tables_spec(),
            final(self).entries_spec().len() >= old(self).entries_spec().len(),
            forall|k: int|
                0 <= k < old(self).entries_spec().len() ==> #[trigger] final(self).entries_spec()[k]
                    == old(self).entries_spec()[k] || !old(self).entries_spec()[k].valid,
            forall|k: int|
                0 <= k < old(self).entries_spec().len() && k != t * 512 + i ==> #[trigger] final(self).entries_spec()[k]
                    == old(self).entries_spec()[k],
            tree(old(self).entries_spec(), old(self).base_spec()) ==> tree(final(self).entries_spec(), final(self).base_spec()),
            !old(self).entries_spec()[t * 512 + i].valid && old(self).entries_spec().len() / 512 < old(self).max_tables_spec() ==> r.is_ok(),
            !(old(self).entries_spec()[t * 512 + i].valid && is_leaf(old(self).entries_spec()[t * 512 + i])) && old(self).entries_spec().len()
                / 512 < old(self).max_tables_spec() ==> r.is_ok(),
            final(self).entries_spec().len() <= old(self).entries_spec().len() + 512,
            ({
                let e = old(self).entries_spec()[t * 512 + i];
                match r {
                    Ok(t2) => {
                        &&& final(self).entries_spec()[t * 512 + i] == (if e.valid {
                            e
                        } else {
                            branch_entry((old(self).base_spec() + t2) as u64, global)
                        })
                        &&& !is_leaf(final(self).entries_spec()[t * 512 + i])
                        &&& final(self).entries_spec()[t * 512 + i].valid
                        &&& final(self).entries_spec()[t * 512 + i].ppn == old(self).base_spec() + t2
                        &&& t2 * 512 + 512 <= final(self).entries_spec().len()
                        &&& (e.valid ==> final(self).entries_spec() == old(self).entries_spec())
                        &&& (!e.valid ==> final(self).entries_spec().len() == old(self).entries_spec().len() + 512)
                        &&& (!e.valid ==> t2 * 512 == old(self).entries_spec().len() && forall|k: int|
                            t2 * 512 <= k < t2 * 512 + 512 ==> !(#[trigger] final(self).entries_spec()[k]).valid)
                    },
                    Err(err) => {
                        &&& final(self).entries_spec() == old(self).entries_spec()
                        &&& (err == KernelError::OutOfMemory && !e.valid || err == KernelError::AlreadyMapped(0)
                            && e.valid && is_leaf(e))
                    },
                }
            }),
    {
        let n = self.entries.len();
        let k = t * 512 + i;
        let e = self.entries[k];
        if e.valid {
            if e.is_leaf() {
                return Err(KernelError::AlreadyMapped(0));
            }
            assert(self.entries@[k as int].valid && !is_leaf(self.entries@[k as int]));
            let ghost d = e.ppn - self.base_ppn;
            assert(d < n) by (nonlinear_arith)
                requires d * 512 < n, d >= 0;
            let t2 = (e.ppn - self.base_ppn) as usize;
            assert(t2 * 512 + 512 <= n) by (nonlinear_arith)
                requires t2 * 512 < n, n % 512 == 0;
            return Ok(t2);
        }
        let t2 = self.new_table()?;
        let ghost before = self.entries@;
        let b = self.base_ppn + t2 as u64;
        self.entries.set(
            k,
            Sv39PageTableEntry {
                valid: true,
                read: false,
                write: false,
                execute: false,
                user: false,
                global,
                ppn: b,
            },
        );
        assert(forall|j: int| 0 <= j < before.len() && j != k ==> self.entries@[j] == before[j]);
        Ok(t2)
    }

    /// Map the page at `vaddr` to the physical page at `paddr` as `page_type`,
    /// creating intermediate tables as needed. Fails if an address is not
    /// page-aligned or the slot for `vaddr` is already in use; mappings that
    /// were there stay as they were.
    #[verifier::rlimit(60)]
    pub fn map_page(&mut self, vaddr: Sv39VirtualAddress, paddr: Sv39PhysicalAddress, page_type: PageType) -> (r: Result<(), KernelError>)
        requires
            old(self).wf(),
        ensures
            final(self).wf(),
            final(self).base_spec() == old(self).base_spec(),
            vaddr@ % 4096 != 0 ==> r == Err::<(), KernelError>(KernelError::AddressNotPageAligned(vaddr@ as usize)),
            vaddr@ % 4096 == 0 && paddr@ % 4096 != 0 ==> r == Err::<(), KernelError>(KernelError::AddressNotPageAligned(paddr@ as usize)),
            vaddr@ % 4096 == 0 && paddr@ % 4096 == 0 ==> (r == Err::<(), KernelError>(KernelError::AlreadyMapped(vaddr@ as usize))
                <==> slot_in_use(old(self).entries_spec(), old(self).base_spec(), vaddr@)),
            r.is_ok() ==> final(self).translate(vaddr@) == Some(leaf_entry((paddr@ / 4096) as u64, page_type)),
            r.is_ok() || r == Err::<(), KernelError>(KernelError::OutOfMemory) || final(self).entries_spec() == old(self).entries_spec(),
            forall|va: nat| old(self).translate(va) is Some ==> #[trigger] final(self).translate(va) == old(self).translate(va),
            tree(old(self).entries_spec(), old(self).base_spec()) ==> tree(final(self).entries_spec(), final(self).base_spec()),
            tree(old(self).entries_spec(), old(self).base_spec()) && r.is_ok() ==> forall|va: nat|
                old(self).translate(va) is None && !same_page(va, vaddr@) ==> #[trigger] final(self).translate(va) is None,
            vaddr@ % 4096 == 0 && paddr@ % 4096 == 0 && !slot_in_use(old(self).entries_spec(), old(self).base_spec(), vaddr@)
                && old(self).entries_spec().len() / 512 + 2 <= old(self).max_tables_spec() ==> r.is_ok(),
            tree(old(self).entries_spec(), old(self).base_spec()) && r.is_ok() ==> forall|va: nat|
                !slot_in_use(old(self).entries_spec(), old(self).base_spec(), va) && !same_page(va, vaddr@)
                    ==> !#[trigger] slot_in_use(final(self).entries_spec(), final(self).base_spec(), va),
            final(self).entries_spec().len() / 512 <= old(self).entries_spec().len() / 512 + 2,
            final(self).max_tables_spec() == old(self).max_tables_spec(),
    {
        if !vaddr.is_page_aligned() {
            return Err(KernelError::AddressNotPageAligned(vaddr.to_usize()));
        }
        if !paddr.is_page_aligned() {
            return Err(KernelError::AddressNotPageAligned(paddr.to_usize()));
        }
        let ghost es0 = self.entries@;
        let ghost base = self.base_ppn as int;
        let global = page_type.global();
        let i2 = vaddr.vpn(2);
        let i1 = vaddr.vpn(1);
        let i0 = vaddr.vpn(0);
        let t1 = match self.descend(0, i2, global) {
            Ok(t) => t,
            Err(e) => {
                proof {
                    assert forall|va: nat| old(self).translate(va) is Some implies #[trigger] self.translate(va) == old(self).translate(va) by {}
                }
                return Err(if e == KernelError::OutOfMemory { e } else { KernelError::AlreadyMapped(vaddr.to_usize()) });
            },
        };
        let ghost es1 = self.entries@;
        let t0 = match self.descend(t1, i1, global) {
            Ok(t) => t,
            Err(e) => {
                proof {
                    assert forall|va: nat| old(self).translate(va) is Some implies #[trigger] self.translate(va) == old(self).translate(va) by {
                        lemma_walk_kept(es0, self.entries@, base, va);
                    }
                }
                return Err(if e == KernelError::OutOfMemory { e } else { KernelError::AlreadyMapped(vaddr.to_usize()) });
            },
        };
        let ghost es2 = self.entries@;
        let n = self.entries.len();
        let k = t0 * 512 + i0;
        if self.entries[k].valid {
            proof {
                assert forall|va: nat| old(self).translate(va) is Some implies #[trigger] self.translate(va) == old(self).translate(va) by {
                    lemma_walk_kept(es0, self.entries@, base, va);
                }
            }
            return Err(KernelError::AlreadyMapped(vaddr.to_usize()));
        }
        let leaf = Sv39PageTableEntry {
            valid: true,
            read: page_type.read(),
            write: page_type.write(),
            execute: page_type.execute(),
            user: page_type.user(),
            global,
            ppn: paddr.ppn(),
        };
        self.entries.set(k, leaf);
        proof {
            let es3 = self.entries@;
            if tree(es0, base) {
                assert(tree(es2, base));
                assert(t1 >= 1) by {
                    if es0[i2 as int].valid {
                        assert(is_branch(es0[i2 as int]));
                    }
                }
                assert(t0 >= 1) by {
                    if es1[t1 * 512 + i1].valid {
                        assert(is_branch(es1[t1 * 512 + i1]));
                    }
                }
                assert(t1 != t0) by {
                    if es1[t1 * 512 + i1].valid {
                        assert(is_branch(es1[i2 as int]));
                        assert(is_branch(es1[t1 * 512 + i1]));
                        assert(i2 != t1 * 512 + i1);
                    }
                }
                assert(es2[i2 as int] == es1[i2 as int]);
                assert(es3[i2 as int] == es2[i2 as int]);
                assert forall|j: int| 0 <= j < es3.len() && is_branch(#[trigger] es3[j]) implies es3[j].ppn != base by {
                    if j != k {
                        assert(es3[j] == es2[j]);
                    }
                }
                assert forall|k1: int, k2: int|
                    0 <= k1 < es3.len() && 0 <= k2 < es3.len() && k1 != k2 && is_branch(#[trigger] es3[k1]) && is_branch(
                        #[trigger] es3[k2],
                    ) implies es3[k1].ppn != es3[k2].ppn by {
                    if k1 != k && k2 != k {
                        assert(es3[k1] == es2[k1] && es3[k2] == es2[k2]);
                    }
                }
                assert forall|j: int| es0.len() <= j < es3.len() && j != t1 * 512 + i1 && j != t0 * 512 + i0 implies !(#[trigger] es3[j]).valid by {
                    if j < es1.len() {
                        assert(es2[j] == es1[j]);
                    }
                }
                assert(map_page_changes(es0, es3, base, i2 as int, i1 as int, i0 as int, t1 as int, t0 as int));
                assert forall|va: nat| old(self).translate(va) is None && !same_page(va, vaddr@) implies #[trigger] self.translate(va) is None by {
                    lemma_map_page_frame(es0, es3, base, i2 as int, i1 as int, i0 as int, t1 as int, t0 as int, va);
                }
                assert forall|va: nat| !slot_in_use(es0, base, va) && !same_page(va, vaddr@)
                    implies !#[trigger] slot_in_use(es3, base, va) by {
                    lemma_map_page_slot_frame(es0, es3, base, i2 as int, i1 as int, i0 as int, t1 as int, t0 as int, va);
                }
            }
            assert forall|j: int| 0 <= j < es0.len() implies #[trigger] self.entries@[j] == es0[j] || !es0[j].valid by {
                if j != k {
                    assert(es1[j] == es0[j] || !es0[j].valid);
                    assert(es2[j] == es1[j] || !es1[j].valid);
                }
            }
            assert forall|va: nat| old(self).translate(va) is Some implies #[trigger] self.translate(va) == old(self).translate(va) by {
                lemma_walk_kept(es0, self.entries@, base, va);
            }
        }
        Ok(())
    }

    /// Walk the tables for `vaddr`. Fails with `NotMapped` when no leaf maps
    /// it, and, when `user_only`, with `ForbiddenPage` when the leaf lacks the
    /// user bit.
    pub fn vaddr_to_paddr_inner(&self, vaddr: Sv39VirtualAddress, user_only: bool) -> (r: Result<Sv39PhysicalAddress, KernelError>)
        requires
            self.wf(),
        ensures
            match self.translate(vaddr@) {
                None => r == Err::<Sv39PhysicalAddress, KernelError>(KernelError::NotMapped(vaddr@ as usize)),
                Some(e) => if user_only && !e.user {
                    r == Err::<Sv39PhysicalAddress, KernelError>(KernelError::ForbiddenPage)
                } else {
                    r.is_ok() && r.unwrap()@ == e.ppn * 4096 + vaddr@ % 4096
                },
            },
    {
        let n = self.entries.len();
        let mut t: usize = 0;
        let mut level: usize = 3;
        let ghost es = self.entries@;
        let ghost base = self.base_ppn as int;
        while level > 0
            invariant
                1 <= level <= 3,
                n == es.len(),
                es == self.entries@,
                base == self.base_ppn,
                wf_tables(es, base),
                t * 512 + 512 <= n,
                level == 3 ==> t == 0,
                level <= 2 ==> es[vpn(vaddr@, 2) as int].valid && !is_leaf(es[vpn(vaddr@, 2) as int]),
                level == 2 ==> t == es[vpn(vaddr@, 2) as int].ppn - base,
                level <= 1 ==> ({
                    let e1 = es[(es[vpn(vaddr@, 2) as int].ppn - base) * 512 + vpn(vaddr@, 1)];
                    e1.valid && !is_leaf(e1) && t == e1.ppn - base
                }),
            decreases level,
        {
            level = level - 1;
            let i = vaddr.vpn(level);
            let e = self.entries[t * 512 + i];
            if !e.valid {
                return Err(KernelError::NotMapped(vaddr.to_usize()));
            }
            if e.is_leaf() {
                if user_only && !e.user {
                    return Err(KernelError::ForbiddenPage);
                }
                let pa = e.physical_address();
                let off = vaddr.page_offset();
                assert(e.ppn * 4096 + 4095 <= MAX_PHYSICAL_ADDRESS);
                return pa.offset(off as i64);
            }
            if level == 0 {
                return Err(KernelError::NotMapped(vaddr.to_usize()));
            }
            assert(es[t * 512 + i].valid && !is_leaf(es[t * 512 + i]));
            let ghost d = e.ppn - self.base_ppn;
            assert(d < n) by (nonlinear_arith)
                requires d * 512 < n, d >= 0;
            t = (e.ppn - self.base_ppn) as usize;
            assert(t * 512 + 512 <= n) by (nonlinear_arith)
                requires t * 512 < n, n % 512 == 0;
        }
        Err(KernelError::NotMapped(vaddr.to_usize()))
    }

    /// The physical address that `vaddr` maps to
    pub fn vaddr_to_paddr(&self, vaddr: usize) -> (r: Result<Sv39PhysicalAddress, KernelError>)
        requires
            self.wf(),
        ensures
            vaddr > MAX_VIRTUAL_ADDRESS ==> r == Err::<Sv39PhysicalAddress, KernelError>(KernelError::InvalidVirtualAddress(vaddr)),
            vaddr <= MAX_VIRTUAL_ADDRESS ==> match self.translate(vaddr as nat) {
                None => r == Err::<Sv39PhysicalAddress, KernelError>(KernelError::NotMapped(vaddr)),
                Some(e) => r.is_ok() && r.unwrap()@ == e.ppn * 4096 + vaddr % 4096,
            },
    {
        let va = Sv39VirtualAddress::try_from(vaddr)?;
        self.vaddr_to_paddr_inner(va, false)
    }

    /// The physical address that a user pointer maps to; fails on pages
    /// without the user bit
    pub fn user_vaddr_to_paddr(&self, vaddr: usize) -> (r: Result<Sv39PhysicalAddress, KernelError>)
        requires
            self.wf(),
        ensures
            vaddr > MAX_VIRTUAL_ADDRESS ==> r == Err::<Sv39PhysicalAddress, KernelError>(KernelError::InvalidVirtualAddress(vaddr)),
            vaddr <= MAX_VIRTUAL_ADDRESS ==> match self.translate(vaddr as nat) {
                None => r == Err::<Sv39PhysicalAddress, KernelError>(KernelError::NotMapped(vaddr)),
                Some(e) => if !e.user {
                    r == Err::<Sv39PhysicalAddress, KernelError>(KernelError::ForbiddenPage)
                } else {
                    r.is_ok() && r.unwrap()@ == e.ppn * 4096 + vaddr % 4096
                },
            },
    {
        let va = Sv39VirtualAddress::try_from(vaddr)?;
        self.vaddr_to_paddr_inner(va, true)
    }

    /// Map `size` bytes of contiguous virtual pages from `vaddr` to contiguous
    /// physical pages from `paddr`. Returns the virtual address just past the
    /// mapped range.
    pub fn map_range(&mut self, vaddr: Sv39VirtualAddress, paddr: Sv39PhysicalAddress, page_type: PageType, size: usize) -> (r: Result<Sv39VirtualAddress, KernelError>)
        requires
            old(self).wf(),
            size > 0,
        ensures
            final(self).wf(),
            final(self).base_spec() == old(self).base_spec(),
            vaddr@ % 4096 != 0 ==> r == Err::<Sv39VirtualAddress, KernelError>(KernelError::AddressNotPageAligned(vaddr@ as usize)),
            vaddr@ % 4096 == 0 && paddr@ % 4096 != 0 ==> r == Err::<Sv39VirtualAddress, KernelError>(KernelError::AddressNotPageAligned(paddr@ as usize)),
            vaddr@ % 4096 == 0 && paddr@ % 4096 == 0 && size % 4096 != 0 ==> r == Err::<Sv39VirtualAddress, KernelError>(KernelError::SizeMisaligned(size)),
            r.is_ok() ==> r.unwrap()@ == vaddr@ + size,
            r.is_ok() ==> forall|k: nat| k < size / 4096 ==> #[trigger] final(self).translate(vaddr@ + k * 4096)
                == Some(leaf_entry((paddr@ / 4096 + k) as u64, page_type)),
            forall|va: nat| old(self).translate(va) is Some ==> #[trigger] final(self).translate(va) == old(self).translate(va),
            tree(old(self).entries_spec(), old(self).base_spec()) ==> tree(final(self).entries_spec(), final(self).base_spec()),
            tree(old(self).entries_spec(), old(self).base_spec()) && r.is_ok() ==> forall|va: nat|
                va <= MAX_VIRTUAL_ADDRESS && old(self).translate(va) is None && !(vaddr@ <= va < vaddr@ + size)
                    ==> #[trigger] final(self).translate(va) is None,
            tree(old(self).entries_spec(), old(self).base_spec()) && r.is_ok() ==> forall|va: nat|
                va <= MAX_VIRTUAL_ADDRESS && !slot_in_use(old(self).entries_spec(), old(self).base_spec(), va) && !(vaddr@ <= va
                    < vaddr@ + size) ==> !#[trigger] slot_in_use(final(self).entries_spec(), final(self).base_spec(), va),
            final(self).max_tables_spec() == old(self).max_tables_spec(),
            final(self).entries_spec().len() / 512 <= old(self).entries_spec().len() / 512 + 2 * (size / 4096),
            map_range_fits(old(self), vaddr@, paddr@, size as nat) ==> r.is_ok(),
    {
        let ghost fits = map_range_fits(old(self), vaddr@, paddr@, size as nat);
        if !vaddr.is_page_aligned() {
            return Err(KernelError::AddressNotPageAligned(vaddr.to_usize()));
        }
        if !paddr.is_page_aligned() {
            return Err(KernelError::AddressNotPageAligned(paddr.to_usize()));
        }
        if size % PAGE_SIZE != 0 {
            return Err(KernelError::SizeMisaligned(size));
        }
        let pages = size / PAGE_SIZE;
        let mut v = vaddr;
        let mut p = paddr;
        let mut i: usize = 0;
        while i < pages
            invariant
                self.wf(),
                self.base_spec() == old(self).base_spec(),
                pages == size / 4096,
                size % 4096 == 0,
                i <= pages,
                vaddr@ % 4096 == 0,
                paddr@ % 4096 == 0,
                v@ == vaddr@ + i * 4096,
                p@ == paddr@ + i * 4096,
                i < pages ==> v@ + 4096 <= vaddr@ + size,
                forall|k: nat| k < i ==> #[trigger] self.translate(vaddr@ + k * 4096)
                    == Some(leaf_entry((paddr@ / 4096 + k) as u64, page_type)),
                forall|va: nat| old(self).translate(va) is Some ==> #[trigger] self.translate(va) == old(self).translate(va),
                tree(old(self).entries_spec(), old(self).base_spec()) ==> tree(self.entries_spec(), self.base_spec()),
                tree(old(self).entries_spec(), old(self).base_spec()) ==> forall|va: nat|
                    va <= MAX_VIRTUAL_ADDRESS && old(self).translate(va) is None && !(vaddr@ <= va < v@)
                        ==> #[trigger] self.translate(va) is None,
                tree(old(self).entries_spec(), old(self).base_spec()) ==> forall|va: nat|
                    va <= MAX_VIRTUAL_ADDRESS && !slot_in_use(old(self).entries_spec(), old(self).base_spec(), va) && !(vaddr@ <= va < v@)
                        ==> !#[trigger] slot_in_use(self.entries_spec(), self.base_spec(), va),
                fits == map_range_fits(old(self), vaddr@, paddr@, size as nat),
                fits ==> forall|va: nat| v@ <= va < vaddr@ + size ==> !#[trigger] slot_in_use(self.entries_spec(), self.base_spec(), va),
                self.max_tables_spec() == old(self).max_tables_spec(),
                self.entries_spec().len() / 512 <= old(self).entries_spec().len() / 512 + 2 * i,
            decreases pages - i,
        {
            let ghost before = *self;
            let _ = v.to_u64();
            assert(v@ % 4096 == 0 && p@ % 4096 == 0) by (nonlinear_arith)
                requires v@ == vaddr@ + i * 4096, p@ == paddr@ + i * 4096, vaddr@ % 4096 == 0, paddr@ % 4096 == 0;
            assert(2 * i + 2 <= 2 * (size / 4096)) by (nonlinear_arith)
                requires i < pages, pages == size / 4096;
            assert(fits ==> !slot_in_use(before.entries_spec(), before.base_spec(), v@));
            match self.map_page(v, p, page_type) {
                Ok(()) => {},
                Err(e) => {
                    proof {
                        assert forall|va: nat| old(self).translate(va) is Some implies #[trigger] self.translate(va) == old(self).translate(va) by {
                            assert(before.translate(va) == old(self).translate(va));
                        }
                    }
                    return Err(e);
                },
            }
            assert(p@ / 4096 == paddr@ / 4096 + i) by (nonlinear_arith)
                requires p@ == paddr@ + i * 4096, paddr@ % 4096 == 0;
            proof {
                assert forall|k: nat| k < i + 1 implies #[trigger] self.translate(vaddr@ + k * 4096)
                    == Some(leaf_entry((paddr@ / 4096 + k) as u64, page_type)) by {
                    if k < i {
                        assert(before.translate(vaddr@ + k * 4096) is Some);
                    }
                }
                assert forall|va: nat| old(self).translate(va) is Some implies #[trigger] self.translate(va) == old(self).translate(va) by {
                    assert(before.translate(va) == old(self).translate(va));
                }
                if tree(old(self).entries_spec(), old(self).base_spec()) {
                    assert forall|va: nat|
                        va <= MAX_VIRTUAL_ADDRESS && !slot_in_use(old(self).entries_spec(), old(self).base_spec(), va) && !(vaddr@ <= va < v@ + 4096)
                            implies !#[trigger] slot_in_use(self.entries_spec(), self.base_spec(), va) by {
                        assert(!slot_in_use(before.entries_spec(), before.base_spec(), va));
                        if same_page(va, v@) {
                            lemma_same_page(va, v@);
                            assert(v@ <= va < v@ + 4096) by (nonlinear_arith)
                                requires va / 4096 == v@ / 4096, v@ % 4096 == 0;
                        }
                    }
                }
                if fits {
                    assert forall|va: nat| v@ + 4096 <= va < vaddr@ + size implies !#[trigger] slot_in_use(self.entries_spec(), self.base_spec(), va) by {
                        assert(!slot_in_use(before.entries_spec(), before.base_spec(), va));
                        assert(va <= MAX_VIRTUAL_ADDRESS);
                        if same_page(va, v@) {
                            lemma_same_page(va, v@);
                            assert(v@ <= va < v@ + 4096) by (nonlinear_arith)
                                requires va / 4096 == v@ / 4096, v@ % 4096 == 0;
                        }
                    }
                }
                if tree(old(self).entries_spec(), old(self).base_spec()) {
                    assert forall|va: nat|
                        va <= MAX_VIRTUAL_ADDRESS && old(self).translate(va) is None && !(vaddr@ <= va < v@ + 4096)
                            implies #[trigger] self.translate(va) is None by {
                        assert(before.translate(va) is None);
                        if same_page(va, v@) {
                            lemma_same_page(va, v@);
                            assert(v@ <= va < v@ + 4096) by (nonlinear_arith)
                                requires va / 4096 == v@ / 4096, v@ % 4096 == 0;
                        }
                    }
                }
            }
            i = i + 1;
            if i < pages {
                assert(v@ + 4096 + 4096 <= vaddr@ + size) by (nonlinear_arith)
                    requires v@ == vaddr@ + (i - 1) * 4096, i < pages, pages == size / 4096;
            }
            assert(v@ + 4096 <= vaddr@ + size && p@ + 4096 <= paddr@ + size) by (nonlinear_arith)
                requires v@ == vaddr@ + (i - 1) * 4096, p@ == paddr@ + (i - 1) * 4096, i <= pages, pages == size / 4096;
            v = v.offset(4096)?;
            p = p.offset(4096)?;
        }
        assert(v@ == vaddr@ + size) by (nonlinear_arith)
            requires v@ == vaddr@ + i * 4096, i == pages, pages == size / 4096, size % 4096 == 0;
        Ok(v)
    }

    /// Physical addresses of the tables below the root: the pages to give
    /// back to the page allocator when the set is dropped
    pub fn branch_tables(&self) -> (r: Vec<Sv39PhysicalAddress>)
        requires
            self.wf(),
        ensures
            r@.len() == self.entries_spec().len() / 512 - 1,
            forall|k: int| 0 <= k < r@.len() ==> (#[trigger] r@[k])@ == (self.base_spec() + k + 1) * 4096,
    {
        let n = self.entries.len() / 512;
        let mut out: Vec<Sv39PhysicalAddress> = Vec::new();
        let mut t: usize = 1;
        while t < n
            invariant
                1 <= t <= n,
                n == self.entries_spec().len() / 512,
                self.wf(),
                out@.len() == t - 1,
                forall|k: int| 0 <= k < out@.len() ==> (#[trigger] out@[k])@ == (self.base_spec() + k + 1) * 4096,
            decreases n - t,
        {
            out.push(Sv39PhysicalAddress::from_ppn(self.base_ppn + t as u64));
            t = t + 1;
        }
        out
    }

    /// The kernel-space address at which the user page holding `vaddr` can be
    /// read, where `kernel_virtual = physical - pmo`; fails unless the page is
    /// mapped with the user bit
    pub fn get_user_page(&self, vaddr: Sv39VirtualAddress, pmo: i64) -> (r: Result<Sv39VirtualAddress, KernelError>)
        requires
            self.wf(),
        ensures
            self.translate(vaddr@) is None ==> r == Err::<Sv39VirtualAddress, KernelError>(KernelError::NotMapped(vaddr@ as usize)),
            self.translate(vaddr@) is Some && !self.translate(vaddr@).unwrap().user ==> r == Err::<Sv39VirtualAddress, KernelError>(KernelError::ForbiddenPage),
            r.is_ok() ==> self.translate(vaddr@) is Some && r.unwrap()@ == self.translate(vaddr@).unwrap().ppn * 4096 + vaddr@ % 4096 - pmo,
    {
        let paddr = self.vaddr_to_paddr_inner(vaddr, true)?;
        paddr.to_vaddr_with_pmo(pmo)
    }

    /// Map a memory-mapped device into kernel space at its own address
    pub fn map_device(&mut self, phys_address: usize, size: usize) -> (r: Result<usize, KernelError>)
        requires
            old(self).wf(),
            size >= PAGE_SIZE,
        ensures
            final(self).wf(),
            r.is_ok() ==> r.unwrap() == phys_address,
            r.is_ok() ==> forall|k: nat| k < size / 4096 ==> #[trigger] final(self).translate(phys_address as nat + k * 4096)
                == Some(leaf_entry((phys_address as nat / 4096 + k) as u64, PageType::Kernel)),
            forall|va: nat| old(self).translate(va) is Some ==> #[trigger] final(self).translate(va) == old(self).translate(va),
    {
        let vaddr = Sv39VirtualAddress::try_from(phys_address)?;
        let paddr = Sv39PhysicalAddress::try_from(phys_address)?;
        self.map_range(vaddr, paddr, PageType::Kernel, size)?;
        Ok(phys_address)
    }

    /// Map the kernel image and its stack as `Kernel` pages: virtual pages are
    /// the link-time addresses moved back by `pmo_offset`, physical pages the
    /// link-time addresses moved by `pmo`
    pub fn map_kernel_space_with_pmo_offset(&mut self, layout: KernelLayout, pmo: i64, pmo_offset: i64) -> (r: Result<(), KernelError>)
        requires
            old(self).wf(),
        ensures
            final(self).wf(),
            r.is_ok() ==> forall|k: nat| k < (layout.table_heap_top - layout.kernel_start) / 4096 ==> #[trigger] final(self).translate(
                (layout.kernel_start - pmo_offset + k * 4096) as nat) == Some(leaf_entry(((layout.kernel_start + pmo) / 4096 + k) as u64, PageType::Kernel)),
            r.is_ok() ==> forall|k: nat| k < (layout.stack_top - layout.stack_bottom) / 4096 ==> #[trigger] final(self).translate(
                (layout.stack_bottom - pmo_offset + k * 4096) as nat) == Some(leaf_entry(((layout.stack_bottom + pmo) / 4096 + k) as u64, PageType::Kernel)),
            forall|va: nat| old(self).translate(va) is Some ==> #[trigger] final(self).translate(va) == old(self).translate(va),
            kernel_space_fits(old(self), layout, pmo as int, pmo_offset as int) ==> r.is_ok(),
    {
        let ghost fits = kernel_space_fits(old(self), layout, pmo as int, pmo_offset as int);
        if layout.table_heap_top <= layout.kernel_start || layout.stack_top <= layout.stack_bottom || pmo_offset == i64::MIN {
            return Err(KernelError::InvalidArguments);
        }
        let kv = match (layout.kernel_start as u64).checked_add_signed(-pmo_offset) {
            Some(v) => v,
            None => return Err(KernelError::InvalidArguments),
        };
        let kp = match (layout.kernel_start as u64).checked_add_signed(pmo) {
            Some(v) => v,
            None => return Err(KernelError::InvalidArguments),
        };
        let vaddr = match Sv39VirtualAddress::try_from_u64(kv) {
            Some(v) => v,
            None => return Err(KernelError::InvalidArguments),
        };
        if kp > MAX_PHYSICAL_ADDRESS {
            return Err(KernelError::InvalidArguments);
        }
        let paddr = Sv39PhysicalAddress { value: kp };
        self.map_range(vaddr, paddr, PageType::Kernel, layout.table_heap_top - layout.kernel_start)?;
        let ghost mid = *self;
        proof {
            if fits {
                let sv = layout.stack_bottom - pmo_offset;
                let ss = layout.stack_top - layout.stack_bottom;
                assert forall|va: nat| sv <= va < sv + ss implies !#[trigger] slot_in_use(mid.entries_spec(), mid.base_spec(), va) by {
                    assert(!slot_in_use(old(self).entries_spec(), old(self).base_spec(), va));
                }
            }
        }
        let sv = match (layout.stack_bottom as u64).checked_add_signed(-pmo_offset) {
            Some(v) => v,
            None => return Err(KernelError::InvalidArguments),
        };
        let sp = match (layout.stack_bottom as u64).checked_add_signed(pmo) {
            Some(v) => v,
            None => return Err(KernelError::InvalidArguments),
        };
        let svaddr = match Sv39VirtualAddress::try_from_u64(sv) {
            Some(v) => v,
            None => return Err(KernelError::InvalidArguments),
        };
        if sp > MAX_PHYSICAL_ADDRESS {
            return Err(KernelError::InvalidArguments);
        }
        let spaddr = Sv39PhysicalAddress { value: sp };
        match self.map_range(svaddr, spaddr, PageType::Kernel, layout.stack_top - layout.stack_bottom) {
            Ok(_) => {},
            Err(e) => {
                proof {
                    assert forall|va: nat| old(self).translate(va) is Some implies #[trigger] self.translate(va) == old(self).translate(va) by {
                        assert(mid.translate(va) == old(self).translate(va));
                    }
                }
                return Err(e);
            },
        }
        proof {
            assert forall|va: nat| old(self).translate(va) is Some implies #[trigger] self.translate(va) == old(self).translate(va) by {
                assert(mid.translate(va) == old(self).translate(va));
            }
            assert forall|k: nat| k < (layout.table_heap_top - layout.kernel_start) / 4096 implies #[trigger] self.translate(
                (layout.kernel_start - pmo_offset + k * 4096) as nat) == Some(leaf_entry(((layout.kernel_start + pmo) / 4096 + k) as u64, PageType::Kernel)) by {
                assert(mid.translate(vaddr@ + k * 4096) is Some);
            }
            assert forall|k: nat| k < (layout.stack_top - layout.stack_bottom) / 4096 implies #[trigger] self.translate(
                (layout.stack_bottom - pmo_offset + k * 4096) as nat) == Some(leaf_entry(((layout.stack_bottom + pmo) / 4096 + k) as u64, PageType::Kernel)) by {
                assert(self.translate(svaddr@ + k * 4096) is Some);
            }
        }
        Ok(())
    }
}

/// A page that is mapped has its slot in use: mapping it again fails
pub proof fn lemma_mapped_slot_in_use(es: Seq<Sv39PageTableEntry>, base: int, va: nat)
    requires
        walk(es, base, va) is Some,
    ensures
        slot_in_use(es, base, va),
{
}

/// After `map_page` of the page at `va` to the page at `pa`, the walk for
/// `va` yields `pa`
pub proof fn lemma_map_then_translate(tables: PageTables, va: nat, pa: nat, kind: PageType)
    requires
        va % 4096 == 0,
        pa % 4096 == 0,
        tables.translate(va) == Some(leaf_entry((pa / 4096) as u64, kind)),
        pa <= MAX_PHYSICAL_ADDRESS,
    ensures
        tables.translate(va) is Some,
        tables.translate(va).unwrap().ppn * 4096 + va % 4096 == pa,
{
    assert((pa / 4096) * 4096 == pa) by (nonlinear_arith)
        requires pa % 4096 == 0;
}

} // verus!
