//! The segmented memory: five fixed regions of bytes.
//!
//! Mathematically the memory is a map from addresses to bytes whose domain
//! is the union of the regions ([`mapped`]). A multi-byte access is served
//! only when all of its bytes lie in one region ([`span_mapped`]); values
//! are stored with the least significant byte at the lowest address.

use vstd::prelude::*;

verus! {

/// DATA: user-mode data.
pub const MEM_DATA_START: u32 = 0x10000000;

pub const MEM_DATA_SIZE: u32 = 0x00100000;

/// TEXT: the program image.
pub const MEM_TEXT_START: u32 = 0x00400000;

pub const MEM_TEXT_SIZE: u32 = 0x00100000;

/// STACK: the user-mode stack.
pub const MEM_STACK_START: u32 = 0x7ff00000;

pub const MEM_STACK_SIZE: u32 = 0x00100000;

/// KDATA: kernel data.
pub const MEM_KDATA_START: u32 = 0x90000000;

pub const MEM_KDATA_SIZE: u32 = 0x00100000;

/// KTEXT: kernel text.
pub const MEM_KTEXT_START: u32 = 0x80000000;

pub const MEM_KTEXT_SIZE: u32 = 0x00100000;

/// Number of regions.
pub const MEM_REGIONS: usize = 5;

/// First address of the region with the given index, in scan order.
pub open spec fn region_start(index: int) -> int {
    if index == 0 {
        MEM_DATA_START as int
    } else if index == 1 {
        MEM_TEXT_START as int
    } else if index == 2 {
        MEM_STACK_START as int
    } else if index == 3 {
        MEM_KDATA_START as int
    } else {
        MEM_KTEXT_START as int
    }
}

/// Number of bytes of the region with the given index.
pub open spec fn region_size(index: int) -> int {
    if index == 0 {
        MEM_DATA_SIZE as int
    } else if index == 1 {
        MEM_TEXT_SIZE as int
    } else if index == 2 {
        MEM_STACK_SIZE as int
    } else if index == 3 {
        MEM_KDATA_SIZE as int
    } else {
        MEM_KTEXT_SIZE as int
    }
}

/// Whether the region with the given index holds the address.
pub open spec fn in_region(index: int, address: int) -> bool {
    region_start(index) <= address < region_start(index) + region_size(index)
}

/// Index of the first region, in scan order, that holds the address.
pub open spec fn region_of(address: int) -> Option<int> {
    if in_region(0, address) {
        Some(0)
    } else if in_region(1, address) {
        Some(1)
    } else if in_region(2, address) {
        Some(2)
    } else if in_region(3, address) {
        Some(3)
    } else if in_region(4, address) {
        Some(4)
    } else {
        None
    }
}

/// Whether the address lies in some region.
pub open spec fn mapped(address: int) -> bool {
    region_of(address) is Some
}

/// Whether the `len` bytes from `address` on start in a region and do not
/// run past its end.
pub open spec fn span_mapped(address: int, len: int) -> bool {
    region_of(address) matches Some(index) && address + len <= region_start(index) + region_size(
        index,
    )
}

/// Whether a map is defined on the mapped addresses and nowhere else, as
/// the view of every [`Memory`] is.
pub open spec fn memory_wf(mem: Map<int, u8>) -> bool {
    forall|a: int| mem.dom().contains(a) <==> mapped(a)
}

/// The memory in which every byte is zero.
pub open spec fn zero_memory() -> Map<int, u8> {
    Map::new(|a: int| mapped(a), |a: int| 0u8)
}

/// The value of two bytes, least significant first.
pub open spec fn le_value16(bytes: Seq<u8>) -> u16
    recommends
        bytes.len() == 2,
{
    (bytes[0] + 0x100 * bytes[1]) as u16
}

/// The value of four bytes, least significant first.
pub open spec fn le_value32(bytes: Seq<u8>) -> u32
    recommends
        bytes.len() == 4,
{
    (bytes[0] + 0x100 * bytes[1] + 0x1_0000 * bytes[2] + 0x100_0000 * bytes[3]) as u32
}

/// The two bytes of a half-word, least significant first.
pub open spec fn le_bytes16(value: u16) -> Seq<u8> {
    seq![(value % 0x100) as u8, (value / 0x100) as u8]
}

/// The four bytes of a word, least significant first.
pub open spec fn le_bytes32(value: u32) -> Seq<u8> {
    seq![
        (value % 0x100) as u8,
        ((value / 0x100) % 0x100) as u8,
        ((value / 0x1_0000) % 0x100) as u8,
        (value / 0x100_0000) as u8,
    ]
}

/// The `len` bytes that a memory holds from `address` on.
pub open spec fn load(mem: Map<int, u8>, address: int, len: nat) -> Seq<u8> {
    Seq::new(len, |i: int| mem[address + i])
}

/// The memory with `bytes` written from `address` on, over what was there.
pub open spec fn store(mem: Map<int, u8>, address: int, bytes: Seq<u8>) -> Map<int, u8> {
    Map::new(
        |a: int| mem.dom().contains(a),
        |a: int|
            if address <= a < address + bytes.len() {
                bytes[a - address]
            } else {
                mem[a]
            },
    )
}

/// What reading a byte gives: absent unless the address is mapped.
pub open spec fn byte_at(mem: Map<int, u8>, address: u32) -> Option<u8> {
    if mapped(address as int) {
        Some(mem[address as int])
    } else {
        None
    }
}

/// What reading a half-word gives: absent unless both bytes lie in one
/// region.
pub open spec fn half_at(mem: Map<int, u8>, address: u32) -> Option<u16> {
    if span_mapped(address as int, 2) {
        Some(le_value16(load(mem, address as int, 2)))
    } else {
        None
    }
}

/// What reading a word gives: absent unless all four bytes lie in one
/// region.
pub open spec fn word_at(mem: Map<int, u8>, address: u32) -> Option<u32> {
    if span_mapped(address as int, 4) {
        Some(le_value32(load(mem, address as int, 4)))
    } else {
        None
    }
}

/// The memory after an attempt to write `bytes` at `address`: unchanged
/// unless the whole span lies in one region.
pub open spec fn write_at(mem: Map<int, u8>, address: u32, bytes: Seq<u8>) -> Map<int, u8> {
    if span_mapped(address as int, bytes.len() as int) {
        store(mem, address as int, bytes)
    } else {
        mem
    }
}

/// A byte sequence with `bytes` written from `offset` on.
pub open spec fn splice(old: Seq<u8>, offset: int, bytes: Seq<u8>) -> Seq<u8> {
    Seq::new(
        old.len(),
        |i: int|
            if offset <= i < offset + bytes.len() {
                bytes[i - offset]
            } else {
                old[i]
            },
    )
}

/// What a region is: where it starts and the bytes it holds.
pub struct RegionView {
    pub start: u32,
    pub bytes: Seq<u8>,
}

impl RegionView {
    /// `base <= address < base + size`.
    pub open spec fn contains(self, address: int) -> bool {
        self.start <= address < self.start + self.bytes.len()
    }

    /// Whether the `len` bytes from `address` on lie in the region.
    pub open spec fn holds(self, address: int, len: int) -> bool {
        self.contains(address) && address + len <= self.start + self.bytes.len()
    }

    /// The `len` bytes from `address` on.
    pub open spec fn span(self, address: int, len: int) -> Seq<u8> {
        self.bytes.subrange(address - self.start, address - self.start + len)
    }

    /// The region with `bytes` written from `address` on.
    pub open spec fn with_span(self, address: int, bytes: Seq<u8>) -> RegionView {
        RegionView { start: self.start, bytes: splice(self.bytes, address - self.start, bytes) }
    }
}

/// One region: a flat buffer of bytes at a fixed base address.
pub struct MemRegion {
    start: u32,
    size: u32,
    mem: Vec<u8>,
}

/// Shifting and or-ing bytes together gives their little-endian value.
proof fn lemma_assemble(b0: u8, b1: u8, b2: u8, b3: u8)
    by (bit_vector)
    ensures
        ((b3 as u32) << 24) | ((b2 as u32) << 16) | ((b1 as u32) << 8) | (b0 as u32) == b0 + 0x100
            * b1 + 0x1_0000 * b2 + 0x100_0000 * b3,
        ((b1 as u16) << 8) | (b0 as u16) == b0 + 0x100 * b1,
{
}

/// Shifting and truncating a word gives its little-endian bytes.
proof fn lemma_split(value: u32)
    by (bit_vector)
    ensures
        value as u8 == value % 0x100,
        (value >> 8) as u8 == (value / 0x100) % 0x100,
        (value >> 16) as u8 == (value / 0x1_0000) % 0x100,
        (value >> 24) as u8 == value / 0x100_0000,
{
}

/// Shifting and truncating a half-word gives its little-endian bytes.
proof fn lemma_split_half(value: u16)
    by (bit_vector)
    ensures
        value as u8 == value % 0x100,
        (value >> 8) as u8 == value / 0x100,
{
}

impl View for MemRegion {
    type V = RegionView;

    closed spec fn view(&self) -> RegionView {
        RegionView { start: self.start, bytes: self.mem@ }
    }
}

impl MemRegion {
    #[verifier::type_invariant]
    spec fn inv(&self) -> bool {
        self.mem.len() == self.size
    }

    /// A region of `size` zero bytes at `start`.
    pub fn new(start: u32, size: u32) -> (region: Self)
        ensures
            region@.start == start,
            region@.bytes == Seq::new(size as nat, |i: int| 0u8),
    {
        Self { start, size, mem: vec![0u8; size as usize] }
    }

    /// Whether the region holds the address.
    pub fn contains_address(&self, address: u32) -> (r: bool)
        ensures
            r == self@.contains(address as int),
        no_unwind
    {
        proof {
            use_type_invariant(self);
        }
        address >= self.start && address - self.start < self.size
    }

    /// Whether the region holds the `len` bytes from `address` on.
    fn holds_span(&self, address: u32, len: usize) -> (r: bool)
        ensures
            r == self@.holds(address as int, len as int),
        no_unwind
    {
        proof {
            use_type_invariant(self);
        }
        self.contains_address(address) && len <= (self.size - (address - self.start)) as usize
    }

    /// Reads the word at `address`, if all of it lies in the region.
    pub fn read_32(&self, address: u32) -> (r: Option<u32>)
        ensures
            r == (if self@.holds(address as int, 4) {
                Some(le_value32(self@.span(address as int, 4)))
            } else {
                None
            }),
    {
        proof {
            use_type_invariant(self);
        }
        if !self.holds_span(address, 4) {
            None
        } else {
            let offset: usize = (address - self.start) as usize;
            let byte3: u32 = self.mem[offset + 3] as u32;
            let byte2: u32 = self.mem[offset + 2] as u32;
            let byte1: u32 = self.mem[offset + 1] as u32;
            let byte0: u32 = self.mem[offset] as u32;
            proof {
                lemma_assemble(
                    self.mem@[offset as int],
                    self.mem@[offset + 1],
                    self.mem@[offset + 2],
                    self.mem@[offset + 3],
                );
            }
            Some((byte3 << 24) | (byte2 << 16) | (byte1 << 8) | byte0)
        }
    }

    /// Reads the byte at `address`, if the region holds it.
    pub fn read_8(&self, address: u32) -> (r: Option<u8>)
        ensures
            r == (if self@.contains(address as int) {
                Some(self@.bytes[address - self@.start])
            } else {
                None
            }),
    {
        proof {
            use_type_invariant(self);
        }
        if !self.contains_address(address) {
            None
        } else {
            let offset: usize = (address - self.start) as usize;
            Some(self.mem[offset])
        }
    }

    /// Reads the half-word at `address`, if all of it lies in the region.
    pub fn read_16(&self, address: u32) -> (r: Option<u16>)
        ensures
            r == (if self@.holds(address as int, 2) {
                Some(le_value16(self@.span(address as int, 2)))
            } else {
                None
            }),
    {
        proof {
            use_type_invariant(self);
        }
        if !self.holds_span(address, 2) {
            None
        } else {
            let offset: usize = (address - self.start) as usize;
            let byte1: u16 = self.mem[offset + 1] as u16;
            let byte0: u16 = self.mem[offset] as u16;
            proof {
                lemma_assemble(self.mem@[offset as int], self.mem@[offset + 1], 0, 0);
            }
            Some((byte1 << 8) | byte0)
        }
    }

    /// Writes a word at `address`, if all of it lies in the region.
    pub fn write_32(&mut self, address: u32, value: u32) -> (written: bool)
        ensures
            written == old(self)@.holds(address as int, 4),
            written ==> final(self)@ == old(self)@.with_span(address as int, le_bytes32(value)),
            !written ==> final(self)@ == old(self)@,
        no_unwind
    {
        proof {
            use_type_invariant(&*self);
            lemma_split(value);
        }
        if !self.holds_span(address, 4) {
            return false;
        } else {
            let offset: usize = (address - self.start) as usize;
            self.mem[offset + 3] = #[verifier::truncate] ((value >> 24) as u8);
            self.mem[offset + 2] = #[verifier::truncate] ((value >> 16) as u8);
            self.mem[offset + 1] = #[verifier::truncate] ((value >> 8) as u8);
            self.mem[offset] = #[verifier::truncate] (value as u8);
            assert(self.mem@ =~= splice(old(self).mem@, offset as int, le_bytes32(value)));
            return true;
        }
    }

    /// Writes a half-word at `address`, if all of it lies in the region.
    pub fn write_16(&mut self, address: u32, value: u16) -> (written: bool)
        ensures
            written == old(self)@.holds(address as int, 2),
            written ==> final(self)@ == old(self)@.with_span(address as int, le_bytes16(value)),
            !written ==> final(self)@ == old(self)@,
        no_unwind
    {
        proof {
            use_type_invariant(&*self);
            lemma_split_half(value);
        }
        if !self.holds_span(address, 2) {
            return false;
        } else {
            let offset: usize = (address - self.start) as usize;
            self.mem[offset + 1] = #[verifier::truncate] ((value >> 8) as u8);
            self.mem[offset] = #[verifier::truncate] (value as u8);
            assert(self.mem@ =~= splice(old(self).mem@, offset as int, le_bytes16(value)));
            return true;
        }
    }

    /// Writes a byte at `address`, if the region holds it.
    pub fn write_8(&mut self, address: u32, value: u8) -> (written: bool)
        ensures
            written == old(self)@.contains(address as int),
            written ==> final(self)@ == old(self)@.with_span(address as int, seq![value]),
            !written ==> final(self)@ == old(self)@,
        no_unwind
    {
        proof {
            use_type_invariant(&*self);
        }
        if !self.contains_address(address) {
            return false;
        } else {
            let offset: usize = (address - self.start) as usize;
            self.mem[offset] = value;
            assert(self.mem@ =~= splice(old(self).mem@, offset as int, seq![value]));
            return true;
        }
    }

    /// Writes `bytes` from `address` on, lowest address first, if the
    /// region holds `address` and the bytes do not run past its end.
    pub fn write_bytes(&mut self, address: u32, bytes: &[u8]) -> (written: bool)
        ensures
            written == old(self)@.holds(address as int, bytes@.len() as int),
            written ==> final(self)@ == old(self)@.with_span(address as int, bytes@),
            !written ==> final(self)@ == old(self)@,
    {
        proof {
            use_type_invariant(&*self);
        }
        if !self.holds_span(address, bytes.len()) {
            return false;
        } else {
            let offset: usize = (address - self.start) as usize;
            let mut idx: usize = 0;
            while idx < bytes.len()
                invariant
                    idx <= bytes.len(),
                    offset + bytes.len() <= self.mem.len(),
                    self.mem.len() == old(self).mem.len(),
                    self.mem.len() == self.size,
                    self.start == old(self).start,
                    self.size == old(self).size,
                    self.mem@ =~= splice(old(self).mem@, offset as int, bytes@.take(idx as int)),
                decreases bytes.len() - idx,
            {
                self.mem[offset + idx] = bytes[idx];
                idx += 1;
            }
            assert(bytes@.take(idx as int) =~= bytes@);
            return true;
        }
    }
}

/// The five regions, in the order in which an access scans them: DATA,
/// TEXT, STACK, KDATA, KTEXT.
pub struct Memory {
    regions: [MemRegion; MEM_REGIONS],
}

impl View for Memory {
    type V = Map<int, u8>;

    closed spec fn view(&self) -> Map<int, u8> {
        Map::new(
            |a: int| mapped(a),
            |a: int|
                {
                    let index = region_of(a).unwrap();
                    self.regions[index]@.bytes[a - region_start(index)]
                },
        )
    }
}

impl Memory {
    #[verifier::type_invariant]
    spec fn inv(&self) -> bool {
        forall|i: int|
            0 <= i < MEM_REGIONS ==> (#[trigger] self.regions[i])@.start == region_start(i)
                && self.regions[i]@.bytes.len() == region_size(i)
    }

    /// Every memory is defined on the mapped addresses and nowhere else.
    pub proof fn lemma_domain(&self)
        ensures
            memory_wf(self@),
    {
    }

    /// The five regions, all bytes zero.
    pub fn new() -> (memory: Self)
        ensures
            memory@ == zero_memory(),
    {
        let memory = Self {
            regions: [
                MemRegion::new(MEM_DATA_START, MEM_DATA_SIZE),
                MemRegion::new(MEM_TEXT_START, MEM_TEXT_SIZE),
                MemRegion::new(MEM_STACK_START, MEM_STACK_SIZE),
                MemRegion::new(MEM_KDATA_START, MEM_KDATA_SIZE),
                MemRegion::new(MEM_KTEXT_START, MEM_KTEXT_SIZE),
            ],
        };
        assert(memory@ =~= zero_memory());
        memory
    }

    /// Reads the word at `address`, least significant byte first.
    pub fn read_32(&self, address: u32) -> (r: Option<u32>)
        ensures
            r == word_at(self@, address),
    {
        let mut i: usize = 0;
        while i < MEM_REGIONS
            invariant
                i <= MEM_REGIONS,
                forall|j: int| 0 <= j < i ==> !(in_region(j, address as int) && address + 4
                    <= region_start(j) + region_size(j)),
            decreases MEM_REGIONS - i,
        {
            proof {
                use_type_invariant(self);
            }
            if let Some(data) = self.regions[i].read_32(address) {
                assert(load(self@, address as int, 4) =~= self.regions[i as int]@.span(
                    address as int,
                    4,
                ));
                return Some(data);
            }
            i += 1;
        }
        return None;
    }

    /// Reads the half-word at `address`, least significant byte first.
    pub fn read_16(&self, address: u32) -> (r: Option<u16>)
        ensures
            r == half_at(self@, address),
    {
        let mut i: usize = 0;
        while i < MEM_REGIONS
            invariant
                i <= MEM_REGIONS,
                forall|j: int| 0 <= j < i ==> !(in_region(j, address as int) && address + 2
                    <= region_start(j) + region_size(j)),
            decreases MEM_REGIONS - i,
        {
            proof {
                use_type_invariant(self);
            }
            if let Some(data) = self.regions[i].read_16(address) {
                assert(load(self@, address as int, 2) =~= self.regions[i as int]@.span(
                    address as int,
                    2,
                ));
                return Some(data);
            }
            i += 1;
        }
        return None;
    }

    /// Reads the byte at `address`.
    pub fn read_8(&self, address: u32) -> (r: Option<u8>)
        ensures
            r == byte_at(self@, address),
    {
        let mut i: usize = 0;
        while i < MEM_REGIONS
            invariant
                i <= MEM_REGIONS,
                forall|j: int| 0 <= j < i ==> !in_region(j, address as int),
            decreases MEM_REGIONS - i,
        {
            proof {
                use_type_invariant(self);
            }
            if let Some(data) = self.regions[i].read_8(address) {
                return Some(data);
            }
            i += 1;
        }
        return None;
    }

    /// Writes a word at `address`, least significant byte first. Nothing
    /// is written unless all four bytes lie in one region.
    pub fn write_32(&mut self, address: u32, value: u32) -> (written: bool)
        ensures
            written == span_mapped(address as int, 4),
            final(self)@ == write_at(old(self)@, address, le_bytes32(value)),
    {
        let mut i: usize = 0;
        while i < MEM_REGIONS
            invariant
                i <= MEM_REGIONS,
                forall|j: int|
                    0 <= j < MEM_REGIONS ==> (#[trigger] self.regions[j])@ == old(
                        self,
                    ).regions[j]@,
                forall|j: int| 0 <= j < i ==> !(in_region(j, address as int) && address + 4
                    <= region_start(j) + region_size(j)),
            decreases MEM_REGIONS - i,
        {
            proof {
                use_type_invariant(&*self);
            }
            if self.regions[i].write_32(address, value) {
                assert(self@ =~= store(old(self)@, address as int, le_bytes32(value)));
                return true;
            }
            i += 1;
        }
        return false;
    }

    /// Writes a half-word at `address`, least significant byte first.
    /// Nothing is written unless both bytes lie in one region.
    pub fn write_16(&mut self, address: u32, value: u16) -> (written: bool)
        ensures
            written == span_mapped(address as int, 2),
            final(self)@ == write_at(old(self)@, address, le_bytes16(value)),
    {
        let mut i: usize = 0;
        while i < MEM_REGIONS
            invariant
                i <= MEM_REGIONS,
                forall|j: int|
                    0 <= j < MEM_REGIONS ==> (#[trigger] self.regions[j])@ == old(
                        self,
                    ).regions[j]@,
                forall|j: int| 0 <= j < i ==> !(in_region(j, address as int) && address + 2
                    <= region_start(j) + region_size(j)),
            decreases MEM_REGIONS - i,
        {
            proof {
                use_type_invariant(&*self);
            }
            if self.regions[i].write_16(address, value) {
                assert(self@ =~= store(old(self)@, address as int, le_bytes16(value)));
                return true;
            }
            i += 1;
        }
        return false;
    }

    /// Writes a byte at `address`, if it is mapped.
    pub fn write_8(&mut self, address: u32, value: u8) -> (written: bool)
        ensures
            written == mapped(address as int),
            final(self)@ == write_at(old(self)@, address, seq![value]),
    {
        let mut i: usize = 0;
        while i < MEM_REGIONS
            invariant
                i <= MEM_REGIONS,
                forall|j: int|
                    0 <= j < MEM_REGIONS ==> (#[trigger] self.regions[j])@ == old(
                        self,
                    ).regions[j]@,
                forall|j: int| 0 <= j < i ==> !in_region(j, address as int),
            decreases MEM_REGIONS - i,
        {
            proof {
                use_type_invariant(&*self);
            }
            if self.regions[i].write_8(address, value) {
                assert(self@ =~= store(old(self)@, address as int, seq![value]));
                return true;
            }
            i += 1;
        }
        return false;
    }

    /// Writes `bytes` from `address` on, lowest address first. Nothing is
    /// written unless `address` is mapped and the bytes end within its
    /// region.
    pub fn write_bytes(&mut self, address: u32, bytes: &[u8]) -> (written: bool)
        ensures
            written == span_mapped(address as int, bytes@.len() as int),
            final(self)@ == write_at(old(self)@, address, bytes@),
    {
        let mut i: usize = 0;
        while i < MEM_REGIONS
            invariant
                i <= MEM_REGIONS,
                forall|j: int|
                    0 <= j < MEM_REGIONS ==> (#[trigger] self.regions[j])@ == old(self).regions[j]@,
                forall|j: int|
                    0 <= j < i ==> !(in_region(j, address as int) && address + bytes@.len()
                        <= region_start(j) + region_size(j)),
            decreases MEM_REGIONS - i,
        {
            proof {
                use_type_invariant(&*self);
            }
            if self.regions[i].holds_span(address, bytes.len()) {
                assert(self.regions[i as int]@.with_span(address as int, bytes@.take(0)).bytes
                    =~= self.regions[i as int]@.bytes);
                let mut idx: usize = 0;
                while idx < bytes.len()
                    invariant
                        i < MEM_REGIONS,
                        idx <= bytes.len(),
                        in_region(i as int, address as int),
                        address + bytes@.len() <= region_start(i as int) + region_size(i as int),
                        forall|j: int|
                            0 <= j < MEM_REGIONS && j != i ==> (#[trigger] self.regions[j])@ == old(
                                self,
                            ).regions[j]@,
                        self.regions[i as int]@ == old(self).regions[i as int]@.with_span(
                            address as int,
                            bytes@.take(idx as int),
                        ),
                    decreases bytes.len() - idx,
                {
                    proof {
                        use_type_invariant(&*self);
                    }
                    self.regions[i].write_8(address + idx as u32, bytes[idx]);
                    assert(self.regions[i as int]@.bytes =~= old(self).regions[i as int]@.with_span(
                        address as int,
                        bytes@.take(idx + 1),
                    ).bytes);
                    idx += 1;
                }
                assert(bytes@.take(idx as int) =~= bytes@);
                assert(self@ =~= store(old(self)@, address as int, bytes@));
                return true;
            }
            i += 1;
        }
        assert(self@ =~= old(self)@);
        return false;
    }
}

/// No address lies in two regions.
pub proof fn lemma_regions_disjoint(first: int, second: int, address: int)
    requires
        0 <= first < MEM_REGIONS,
        0 <= second < MEM_REGIONS,
        in_region(first, address),
        in_region(second, address),
    ensures
        first == second,
        region_of(address) == Some(first),
{
}

/// Every byte of a span that lies in one region is mapped.
proof fn lemma_span_bytes_mapped(address: int, len: int)
    requires
        span_mapped(address, len),
    ensures
        forall|i: int| 0 <= i < len ==> mapped(#[trigger] (address + i)),
{
}

/// The bytes of a word have that word as their value.
proof fn lemma_value_of_bytes(value: u32)
    by (bit_vector)
    ensures
        (value % 0x100) + 0x100 * ((value / 0x100) % 0x100) + 0x1_0000 * ((value / 0x1_0000)
            % 0x100) + 0x100_0000 * (value / 0x100_0000) == value,
        (value % 0x100) < 0x100,
        ((value / 0x100) % 0x100) < 0x100,
        ((value / 0x1_0000) % 0x100) < 0x100,
        (value / 0x100_0000) < 0x100,
{
}

/// The value of four bytes has those bytes as its bytes.
proof fn lemma_bytes_of_value(b0: u8, b1: u8, b2: u8, b3: u8)
    by (bit_vector)
    ensures
        ({
            let value = (b0 + 0x100 * b1 + 0x1_0000 * b2 + 0x100_0000 * b3) as u32;
            &&& value == b0 + 0x100 * b1 + 0x1_0000 * b2 + 0x100_0000 * b3
            &&& value % 0x100 == b0
            &&& (value / 0x100) % 0x100 == b1
            &&& (value / 0x1_0000) % 0x100 == b2
            &&& value / 0x100_0000 == b3
        }),
{
}

/// A word that was written is the word that is read back from the same
/// address.
pub proof fn lemma_read_after_write(mem: Map<int, u8>, address: u32, value: u32)
    requires
        memory_wf(mem),
        span_mapped(address as int, 4),
    ensures
        word_at(write_at(mem, address, le_bytes32(value)), address) == Some(value),
{
    lemma_value_of_bytes(value);
    lemma_span_bytes_mapped(address as int, 4);
    let after = write_at(mem, address, le_bytes32(value));
    assert(load(after, address as int, 4) =~= le_bytes32(value));
}

/// A write leaves every word that it does not overlap as it was.
pub proof fn lemma_read_after_write_elsewhere(
    mem: Map<int, u8>,
    address: u32,
    other: u32,
    bytes: Seq<u8>,
)
    requires
        memory_wf(mem),
        other + bytes.len() <= address || address + 4 <= other,
    ensures
        word_at(write_at(mem, other, bytes), address) == word_at(mem, address),
{
    let after = write_at(mem, other, bytes);
    if span_mapped(address as int, 4) {
        lemma_span_bytes_mapped(address as int, 4);
        assert(load(after, address as int, 4) =~= load(mem, address as int, 4));
    }
}

/// Writing back the word that was read from an address changes nothing.
pub proof fn lemma_write_after_read(mem: Map<int, u8>, address: u32)
    requires
        memory_wf(mem),
        span_mapped(address as int, 4),
    ensures
        write_at(mem, address, le_bytes32(word_at(mem, address).unwrap())) == mem,
{
    let a = address as int;
    lemma_span_bytes_mapped(a, 4);
    lemma_bytes_of_value(mem[a], mem[a + 1], mem[a + 2], mem[a + 3]);
    let value = word_at(mem, address).unwrap();
    assert(le_bytes32(value) =~= load(mem, a, 4));
    assert(write_at(mem, address, le_bytes32(value)) =~= mem);
}

} // verus!
