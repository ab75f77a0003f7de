//! A single-level page-table model of a user address space, with the
//! translations that system calls use to reach user buffers.
use vstd::prelude::*;
use crate::config::PAGE_SIZE;

verus! {

/// A user address space: `num_pages` virtual pages, each either mapped or
/// not; the bytes of every page are kept whether or not it is mapped.
pub struct UserMemory {
    /// Physical page number of the root page table (the `satp` token's PPN).
    pub root_ppn: usize,
    /// The bytes of the address space, `PAGE_SIZE` per page.
    pub bytes: Vec<u8>,
    /// `mapped[vpn]`: whether virtual page `vpn` is mapped.
    pub mapped: Vec<bool>,
}

/// The bytes `bytes` with `src` written at offset `at`.
pub open spec fn write_spec(bytes: Seq<u8>, at: int, src: Seq<u8>) -> Seq<u8> {
    Seq::new(bytes.len(), |i: int| if at <= i < at + src.len() { src[i - at] } else { bytes[i] })
}

/// `a / PAGE_SIZE` stays below the page count for every address of the space.
pub proof fn lemma_page_of_address(a: int, n: int)
    requires
        0 <= a < n * PAGE_SIZE,
    ensures
        0 <= a / (PAGE_SIZE as int) < n,
        a / (PAGE_SIZE as int) * (PAGE_SIZE as int) <= a,
        a < (a / (PAGE_SIZE as int) + 1) * (PAGE_SIZE as int),
{
    assert(0 <= a / 4096 < n) by (nonlinear_arith)
        requires 0 <= a < n * 4096;
    assert(a / 4096 * 4096 <= a) by (nonlinear_arith)
        requires 0 <= a;
    assert(a < (a / 4096 + 1) * 4096) by (nonlinear_arith)
        requires 0 <= a;
}

impl UserMemory {
    /// The sizes of the byte and page vectors agree.
    pub open spec fn wf(&self) -> bool {
        self.bytes.len() == self.mapped.len() * PAGE_SIZE
    }

    /// Address `a` lies in a mapped page.
    pub open spec fn is_mapped(&self, a: int) -> bool {
        0 <= a < self.bytes.len() && self.mapped[a / (PAGE_SIZE as int)]
    }

    /// Every address of `[start, start + len)` lies in a mapped page.
    pub open spec fn range_mapped(&self, start: int, len: int) -> bool {
        forall|a: int| start <= a < start + len ==> #[trigger] self.is_mapped(a)
    }

    /// An address space of `num_pages` pages, none of them mapped, all zero.
    pub fn new(root_ppn: usize, num_pages: usize) -> (r: Self)
        requires
            num_pages * PAGE_SIZE <= usize::MAX,
        ensures
            r.wf(),
            r.root_ppn == root_ppn,
            r.mapped@ == Seq::new(num_pages as nat, |i: int| false),
            r.bytes@ == Seq::new((num_pages * PAGE_SIZE) as nat, |i: int| 0u8),
    {
        let bytes = vec![0u8; num_pages * PAGE_SIZE];
        let mapped = vec![false; num_pages];
        assert(bytes@ =~= Seq::new((num_pages * PAGE_SIZE) as nat, |i: int| 0u8));
        assert(mapped@ =~= Seq::new(num_pages as nat, |i: int| false));
        UserMemory { root_ppn, bytes, mapped }
    }

    /// Number of pages of the address space.
    pub fn num_pages(&self) -> (r: usize)
        ensures
            r == self.mapped.len(),
    {
        self.mapped.len()
    }

    /// Maps (`true`) or unmaps (`false`) virtual page `vpn`.
    pub fn set_mapped(&mut self, vpn: usize, mapped: bool)
        requires
            vpn < old(self).mapped.len(),
        ensures
            final(self).mapped@ == old(self).mapped@.update(vpn as int, mapped),
            final(self).bytes == old(self).bytes,
            final(self).root_ppn == old(self).root_ppn,
    {
        self.mapped.set(vpn, mapped);
    }

    /// Whether address `a` lies in a mapped page.
    pub fn addr_mapped(&self, a: usize) -> (r: bool)
        requires
            self.wf(),
        ensures
            r == self.is_mapped(a as int),
    {
        if a < self.bytes.len() {
            proof { lemma_page_of_address(a as int, self.mapped.len() as int); }
            self.mapped[a / PAGE_SIZE]
        } else {
            false
        }
    }

    /// The byte at address `a`, or `None` when `a` is not mapped.
    pub fn read_byte(&self, a: usize) -> (r: Option<u8>)
        requires
            self.wf(),
        ensures
            r == (if self.is_mapped(a as int) { Some(self.bytes[a as int]) } else { None::<u8> }),
    {
        if self.addr_mapped(a) {
            Some(self.bytes[a])
        } else {
            None
        }
    }

    /// Stores `b` at the mapped address `a`.
    pub fn write_byte(&mut self, a: usize, b: u8)
        requires
            old(self).wf(),
            old(self).is_mapped(a as int),
        ensures
            final(self).bytes@ == old(self).bytes@.update(a as int, b),
            final(self).mapped == old(self).mapped,
            final(self).root_ppn == old(self).root_ppn,
    {
        self.bytes.set(a, b);
    }

    /// A copy of this address space (what `fork` gives the child).
    pub fn from_existed_user(&self) -> (r: Self)
        ensures
            r.root_ppn == self.root_ppn,
            r.bytes@ == self.bytes@,
            r.mapped@ == self.mapped@,
    {
        let bytes = self.bytes.clone();
        let mapped = self.mapped.clone();
        assert(bytes@ =~= self.bytes@);
        assert(mapped@ =~= self.mapped@);
        UserMemory { root_ppn: self.root_ppn, bytes, mapped }
    }

    /// Unmaps every page (the data pages of an exited process are recycled).
    pub fn recycle_data_pages(&mut self)
        ensures
            final(self).mapped@ == Seq::new(old(self).mapped.len() as nat, |i: int| false),
            final(self).bytes == old(self).bytes,
            final(self).root_ppn == old(self).root_ppn,
    {
        let n = self.mapped.len();
        let mut i: usize = 0;
        while i < n
            invariant
                n == self.mapped.len(),
                n == old(self).mapped.len(),
                i <= n,
                self.bytes == old(self).bytes,
                self.root_ppn == old(self).root_ppn,
                forall|j: int| 0 <= j < i ==> self.mapped[j] == false,
            decreases n - i,
        {
            self.mapped.set(i, false);
            i = i + 1;
        }
        assert(self.mapped@ =~= Seq::new(old(self).mapped.len() as nat, |i: int| false));
    }
}

/// The chunks `chunks` cut `[start, start + len)` into consecutive pieces,
/// none empty, each inside one page.
pub open spec fn chunks_cover(chunks: Seq<(usize, usize)>, start: int, len: int) -> bool {
    &&& (len == 0 <==> chunks.len() == 0)
    &&& chunks.len() > 0 ==> chunks[0].0 == start
    &&& chunks.len() > 0 ==> chunks.last().0 + chunks.last().1 == start + len
    &&& forall|i: int| 0 <= i < chunks.len() ==> #[trigger] chunks[i].1 > 0
    &&& forall|i: int| 0 <= i < chunks.len() ==> (#[trigger] chunks[i]).0 as int / (PAGE_SIZE as int)
        == (chunks[i].0 + chunks[i].1 - 1) / (PAGE_SIZE as int)
    &&& forall|i: int| 0 <= i < chunks.len() - 1 ==> #[trigger] chunks[i].0 + chunks[i].1
        == chunks[i + 1].0
}

/// Splits the mapped user range `[ptr, ptr + len)` into per-page chunks
/// `(address, length)`.
pub fn translated_byte_buffer(mem: &UserMemory, ptr: usize, len: usize) -> (r: Vec<(usize, usize)>)
    requires
        mem.wf(),
        mem.range_mapped(ptr as int, len as int),
    ensures
        chunks_cover(r@, ptr as int, len as int),
{
    translated_byte_buffer_checked(mem, ptr, len).unwrap()
}

/// Splits the user range `[ptr, ptr + len)` into per-page chunks
/// `(address, length)`; `None` when some byte of the range is not mapped.
pub fn translated_byte_buffer_checked(mem: &UserMemory, ptr: usize, len: usize) -> (r: Option<
    Vec<(usize, usize)>,
>)
    requires
        mem.wf(),
    ensures
        r is Some <==> mem.range_mapped(ptr as int, len as int),
        r matches Some(chunks) ==> chunks_cover(chunks@, ptr as int, len as int),
{
    if len > mem.bytes.len() || ptr > mem.bytes.len() - len {
        if len > 0 {
            assert(!mem.is_mapped(ptr + len - 1));
        }
        if len == 0 {
            return Some(Vec::new());
        }
        return None;
    }
    let end = ptr + len;
    let mut start = ptr;
    let mut chunks: Vec<(usize, usize)> = Vec::new();
    while start < end
        invariant
            mem.wf(),
            ptr <= start <= end,
            end == ptr + len,
            end <= mem.bytes.len(),
            mem.range_mapped(ptr as int, start - ptr),
            chunks.len() == 0 <==> start == ptr,
            chunks.len() > 0 ==> chunks@[0].0 == ptr,
            chunks.len() > 0 ==> chunks@.last().0 + chunks@.last().1 == start,
            forall|i: int| 0 <= i < chunks.len() ==> #[trigger] chunks@[i].1 > 0,
            forall|i: int| 0 <= i < chunks.len() ==> (#[trigger] chunks@[i]).0 as int / (PAGE_SIZE as int)
                == (chunks@[i].0 + chunks@[i].1 - 1) / (PAGE_SIZE as int),
            forall|i: int| 0 <= i < chunks.len() - 1 ==> #[trigger] chunks@[i].0 + chunks@[i].1
                == chunks@[i + 1].0,
        decreases end - start,
    {
        proof { lemma_page_of_address(start as int, mem.mapped.len() as int); }
        let vpn = start / PAGE_SIZE;
        if !mem.mapped[vpn] {
            assert(!mem.is_mapped(start as int));
            return None;
        }
        let page_end = (vpn + 1) * PAGE_SIZE;
        let chunk_end = if page_end < end { page_end } else { end };
        proof {
            assert forall|a: int| start <= a < chunk_end implies #[trigger] mem.is_mapped(a) by {
                assert(a / 4096 == vpn) by (nonlinear_arith)
                    requires vpn * 4096 <= start <= a, a < (vpn + 1) * 4096;
            }
            assert((chunk_end - 1) / 4096 == vpn) by (nonlinear_arith)
                requires vpn * 4096 <= start < chunk_end, chunk_end <= (vpn + 1) * 4096;
        }
        let ghost old_chunks = chunks@;
        chunks.push((start, chunk_end - start));
        proof {
            assert forall|i: int| 0 <= i < chunks.len() - 1 implies #[trigger] chunks@[i].0
                + chunks@[i].1 == chunks@[i + 1].0 by {
                if i < old_chunks.len() - 1 {
                    assert(chunks@[i] == old_chunks[i]);
                    assert(chunks@[i + 1] == old_chunks[i + 1]);
                }
            }
        }
        start = chunk_end;
    }
    Some(chunks)
}

} // verus!

verus! {

/// The eight little-endian bytes of `x` (the `to_ne_bytes` of the riscv64 target).
pub open spec fn u64_le(x: u64) -> Seq<u8> {
    seq![
        x as u8,
        (x >> 8u64) as u8,
        (x >> 16u64) as u8,
        (x >> 24u64) as u8,
        (x >> 32u64) as u8,
        (x >> 40u64) as u8,
        (x >> 48u64) as u8,
        (x >> 56u64) as u8,
    ]
}

/// The value whose little-endian bytes are `s[0..8]`.
pub open spec fn u64_from_le(s: Seq<u8>) -> u64 {
    (s[0] as u64) | ((s[1] as u64) << 8u64) | ((s[2] as u64) << 16u64) | ((s[3] as u64) << 24u64)
        | ((s[4] as u64) << 32u64) | ((s[5] as u64) << 40u64) | ((s[6] as u64) << 48u64) | ((
    s[7] as u64) << 56u64)
}

/// The four little-endian bytes of `x`.
pub open spec fn i32_le(x: i32) -> Seq<u8> {
    let u = x as u32;
    seq![u as u8, (u >> 8u32) as u8, (u >> 16u32) as u8, (u >> 24u32) as u8]
}

/// The value whose little-endian bytes are `s[0..4]`.
pub open spec fn i32_from_le(s: Seq<u8>) -> i32 {
    ((s[0] as u32) | ((s[1] as u32) << 8u32) | ((s[2] as u32) << 16u32) | ((s[3] as u32)
        << 24u32)) as i32
}

/// Decoding the little-endian bytes of `x` gives `x` back.
pub proof fn lemma_u64_le_roundtrip(x: u64)
    ensures
        u64_le(x).len() == 8,
        u64_from_le(u64_le(x)) == x,
{
    let s = u64_le(x);
    let b0 = x as u8;
    let b1 = (x >> 8u64) as u8;
    let b2 = (x >> 16u64) as u8;
    let b3 = (x >> 24u64) as u8;
    let b4 = (x >> 32u64) as u8;
    let b5 = (x >> 40u64) as u8;
    let b6 = (x >> 48u64) as u8;
    let b7 = (x >> 56u64) as u8;
    assert(s[0] == b0 && s[1] == b1 && s[2] == b2 && s[3] == b3);
    assert(s[4] == b4 && s[5] == b5 && s[6] == b6 && s[7] == b7);
    assert((b0 as u64) | ((b1 as u64) << 8u64) | ((b2 as u64) << 16u64) | ((b3 as u64) << 24u64)
        | ((b4 as u64) << 32u64) | ((b5 as u64) << 40u64) | ((b6 as u64) << 48u64) | ((
    b7 as u64) << 56u64) == x) by (bit_vector)
        requires
            b0 == x as u8,
            b1 == (x >> 8u64) as u8,
            b2 == (x >> 16u64) as u8,
            b3 == (x >> 24u64) as u8,
            b4 == (x >> 32u64) as u8,
            b5 == (x >> 40u64) as u8,
            b6 == (x >> 48u64) as u8,
            b7 == (x >> 56u64) as u8,
    ;
}

/// Decoding the little-endian bytes of `x` gives `x` back.
pub proof fn lemma_i32_le_roundtrip(x: i32)
    ensures
        i32_le(x).len() == 4,
        i32_from_le(i32_le(x)) == x,
{
    let u = x as u32;
    let s = i32_le(x);
    let b0 = u as u8;
    let b1 = (u >> 8u32) as u8;
    let b2 = (u >> 16u32) as u8;
    let b3 = (u >> 24u32) as u8;
    assert(s[0] == b0 && s[1] == b1 && s[2] == b2 && s[3] == b3);
    assert((b0 as u32) | ((b1 as u32) << 8u32) | ((b2 as u32) << 16u32) | ((b3 as u32) << 24u32)
        == u) by (bit_vector)
        requires
            b0 == u as u8,
            b1 == (u >> 8u32) as u8,
            b2 == (u >> 16u32) as u8,
            b3 == (u >> 24u32) as u8,
    ;
    assert((u as i32) == x) by (bit_vector)
        requires u == x as u32;
}

/// The little-endian bytes of `x`.
pub fn u64_to_le_bytes(x: u64) -> (r: Vec<u8>)
    ensures
        r@ == u64_le(x),
{
    let mut r: Vec<u8> = Vec::new();
    r.push(x as u8);
    r.push((x >> 8) as u8);
    r.push((x >> 16) as u8);
    r.push((x >> 24) as u8);
    r.push((x >> 32) as u8);
    r.push((x >> 40) as u8);
    r.push((x >> 48) as u8);
    r.push((x >> 56) as u8);
    assert(r@ =~= u64_le(x));
    r
}

/// The little-endian bytes of `x`.
pub fn i32_to_le_bytes(x: i32) -> (r: Vec<u8>)
    ensures
        r@ == i32_le(x),
{
    let u = x as u32;
    let mut r: Vec<u8> = Vec::new();
    r.push(u as u8);
    r.push((u >> 8) as u8);
    r.push((u >> 16) as u8);
    r.push((u >> 24) as u8);
    assert(r@ =~= i32_le(x));
    r
}

/// `s` is the NUL-terminated string at `ptr` in `bytes` (without the NUL).
pub open spec fn is_cstr_at(bytes: Seq<u8>, ptr: int, s: Seq<u8>) -> bool {
    &&& 0 <= ptr
    &&& ptr + s.len() < bytes.len()
    &&& s == bytes.subrange(ptr, ptr + s.len())
    &&& bytes[ptr + s.len()] == 0
    &&& forall|i: int| 0 <= i < s.len() ==> s[i] != 0
}

/// At most one string is NUL-terminated at a given address.
pub proof fn lemma_cstr_unique(bytes: Seq<u8>, ptr: int, s: Seq<u8>, t: Seq<u8>)
    requires
        is_cstr_at(bytes, ptr, s),
        is_cstr_at(bytes, ptr, t),
    ensures
        s == t,
{
    if s.len() < t.len() {
        assert(t[s.len() as int] == bytes.subrange(ptr, ptr + t.len())[s.len() as int]);
    } else if t.len() < s.len() {
        assert(s[t.len() as int] == bytes.subrange(ptr, ptr + s.len())[t.len() as int]);
    }
    assert(s =~= t);
}

/// Reads the NUL-terminated string at user address `ptr` (without the NUL).
pub fn translated_str(mem: &UserMemory, ptr: usize) -> (r: Vec<u8>)
    requires
        mem.wf(),
        exists|n: int| 0 <= n && #[trigger] mem.range_mapped(ptr as int, n + 1) && mem.bytes[ptr + n] == 0,
    ensures
        is_cstr_at(mem.bytes@, ptr as int, r@),
{
    let ghost n = choose|n: int| 0 <= n && #[trigger] mem.range_mapped(ptr as int, n + 1) && mem.bytes[ptr + n] == 0;
    assert(mem.is_mapped(ptr + n));
    let mut r: Vec<u8> = Vec::new();
    let mut a = ptr;
    assert(r@ =~= mem.bytes@.subrange(ptr as int, a as int));
    loop
        invariant
            mem.wf(),
            0 <= n,
            ptr + n < mem.bytes.len(),
            mem.range_mapped(ptr as int, n + 1),
            mem.bytes[ptr + n] == 0,
            ptr <= a <= ptr + n,
            r.len() == a - ptr,
            r@ == mem.bytes@.subrange(ptr as int, a as int),
            forall|i: int| 0 <= i < r.len() ==> r[i] != 0,
        ensures
            ptr <= a <= ptr + n,
            r.len() == a - ptr,
            r@ == mem.bytes@.subrange(ptr as int, a as int),
            forall|i: int| 0 <= i < r.len() ==> r[i] != 0,
            mem.bytes[a as int] == 0,
        decreases ptr + n - a,
    {
        assert(mem.is_mapped(a as int));
        let b = mem.bytes[a];
        if b == 0 {
            break;
        }
        r.push(b);
        assert(a != ptr + n);
        a = a + 1;
        assert(r@ =~= mem.bytes@.subrange(ptr as int, a as int));
    }
    r
}

/// Stores `v` (little-endian) at the aligned, mapped user address `ptr`.
pub fn translated_refmut_write_i32(mem: &mut UserMemory, ptr: usize, v: i32)
    requires
        old(mem).wf(),
        old(mem).range_mapped(ptr as int, 4),
    ensures
        final(mem).wf(),
        final(mem).bytes@ == write_spec(old(mem).bytes@, ptr as int, i32_le(v)),
        final(mem).mapped == old(mem).mapped,
        final(mem).root_ppn == old(mem).root_ppn,
{
    let bytes = i32_to_le_bytes(v);
    let mut i: usize = 0;
    while i < 4
        invariant
            bytes@ == i32_le(v),
            i <= 4,
            mem.wf(),
            old(mem).range_mapped(ptr as int, 4),
            mem.mapped == old(mem).mapped,
            mem.root_ppn == old(mem).root_ppn,
            mem.bytes@ == write_spec(old(mem).bytes@, ptr as int, bytes@.subrange(0, i as int)),
        decreases 4 - i,
    {
        assert(old(mem).is_mapped(ptr + i));
        mem.write_byte(ptr + i, bytes[i]);
        i = i + 1;
        assert(mem.bytes@ =~= write_spec(old(mem).bytes@, ptr as int, bytes@.subrange(0, i as int)));
    }
    assert(bytes@.subrange(0, 4) =~= bytes@);
}

} // verus!

verus! {

/// Number of pages needed to hold `[0, x)`.
pub open spec fn page_ceil(x: int) -> int {
    (x + PAGE_SIZE - 1) / (PAGE_SIZE as int)
}

/// Number of pages needed to hold `[0, x)`.
pub fn page_ceil_of(x: usize) -> (r: usize)
    ensures
        r == page_ceil(x as int),
{
    let q = x / PAGE_SIZE;
    let rem = x % PAGE_SIZE;
    proof {
        assert(q == (x as int) / 4096 && rem == (x as int) % 4096);
        assert(x as int == q * 4096 + rem) by (nonlinear_arith)
            requires q == (x as int) / 4096, rem == (x as int) % 4096;
        if rem == 0 {
            assert((x + 4095) / 4096 == q) by (nonlinear_arith)
                requires x as int == q * 4096, q >= 0;
        } else {
            assert((x + 4095) / 4096 == q + 1) by (nonlinear_arith)
                requires x as int == q * 4096 + rem, 0 < rem < 4096, q >= 0;
        }
    }
    if rem == 0 {
        q
    } else {
        q + 1
    }
}

/// `m` with pages `[lo, hi)` set to `value`.
pub open spec fn with_pages(m: Seq<bool>, lo: int, hi: int, value: bool) -> Seq<bool> {
    Seq::new(m.len(), |v: int| if lo <= v < hi { value } else { m[v] })
}

impl UserMemory {
    /// Maps (`true`) or unmaps (`false`) the pages `[lo, hi)`.
    pub fn set_pages(&mut self, lo: usize, hi: usize, value: bool)
        requires
            lo <= hi <= old(self).mapped.len(),
        ensures
            final(self).mapped@ == with_pages(old(self).mapped@, lo as int, hi as int, value),
            final(self).bytes == old(self).bytes,
            final(self).root_ppn == old(self).root_ppn,
    {
        let mut v = lo;
        while v < hi
            invariant
                lo <= v <= hi <= self.mapped.len(),
                self.mapped.len() == old(self).mapped.len(),
                self.bytes == old(self).bytes,
                self.root_ppn == old(self).root_ppn,
                self.mapped@ == with_pages(old(self).mapped@, lo as int, v as int, value),
            decreases hi - v,
        {
            self.mapped.set(v, value);
            v = v + 1;
            assert(self.mapped@ =~= with_pages(old(self).mapped@, lo as int, v as int, value));
        }
    }
}

} // verus!
