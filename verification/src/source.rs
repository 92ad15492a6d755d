use vstd::prelude::*;

verus! {

// The archive is a single read-only memory-mapped byte view; every offset in
// the record tree is absolute into this view. The map itself is an outside
// type, so its contents are given a name (`mmap_seq`) and each raw access
// goes through a small trusted wrapper.

#[verifier::external_type_specification]
#[verifier::external_body]
pub struct ExMmap(memmap::Mmap);

/// The byte contents of a read-only memory map.
pub uninterp spec fn mmap_seq(m: memmap::Mmap) -> Seq<u8>;

/// Relies on `Mmap`'s `Deref` to `[u8]` and `<[u8]>::len`: the length of the
/// mapped byte view.
#[verifier::external_body]
pub(crate) fn mmap_len(m: &memmap::Mmap) -> (n: usize)
    ensures
        n == mmap_seq(*m).len(),
{
    m.len()
}

/// Relies on `Mmap`'s `Deref` to `[u8]` and slice indexing: one byte of the
/// mapped view.
#[verifier::external_body]
pub(crate) fn mmap_get(m: &memmap::Mmap, i: usize) -> (b: u8)
    requires
        i < mmap_seq(*m).len(),
    ensures
        b == mmap_seq(*m)[i as int],
{
    m[i]
}

/// Relies on `MmapMut::map_anon`, `<[u8]>::copy_from_slice` and
/// `MmapMut::make_read_only`: an anonymous read-only map holding exactly the
/// given bytes. Returns `None` when the underlying system call fails.
#[verifier::external_body]
pub(crate) fn mmap_of_bytes(data: &[u8]) -> (r: Option<memmap::Mmap>)
    ensures
        r matches Some(m) ==> mmap_seq(m) == data@,
{
    match memmap::MmapMut::map_anon(data.len()) {
        Ok(mut m) => {
            m.copy_from_slice(data);
            m.make_read_only().ok()
        },
        Err(_) => None,
    }
}

/// A 16-bit little-endian value read at byte offset `i`.
pub open spec fn le16(d: Seq<u8>, i: int) -> int {
    d[i] + 0x100 * d[i + 1]
}

/// A 32-bit little-endian value read at byte offset `i`.
pub open spec fn le32(d: Seq<u8>, i: int) -> int {
    d[i] + 0x100 * d[i + 1] + 0x1_0000 * d[i + 2] + 0x100_0000 * d[i + 3]
}

/// A 64-bit little-endian value read at byte offset `i`.
pub open spec fn le64(d: Seq<u8>, i: int) -> int {
    le32(d, i) + 0x1_0000_0000 * le32(d, i + 4)
}

pub(crate) fn read_u16(m: &memmap::Mmap, i: usize) -> (x: u16)
    requires
        i + 2 <= mmap_seq(*m).len() <= usize::MAX,
    ensures
        x == le16(mmap_seq(*m), i as int),
{
    let b0 = mmap_get(m, i);
    let b1 = mmap_get(m, i + 1);
    b0 as u16 + 0x100 * (b1 as u16)
}

pub(crate) fn read_u32(m: &memmap::Mmap, i: usize) -> (x: u32)
    requires
        i + 4 <= mmap_seq(*m).len() <= usize::MAX,
    ensures
        x == le32(mmap_seq(*m), i as int),
{
    let b0 = mmap_get(m, i);
    let b1 = mmap_get(m, i + 1);
    let b2 = mmap_get(m, i + 2);
    let b3 = mmap_get(m, i + 3);
    b0 as u32 + 0x100 * (b1 as u32) + 0x1_0000 * (b2 as u32) + 0x100_0000 * (b3 as u32)
}

pub(crate) fn read_u64(m: &memmap::Mmap, i: usize) -> (x: u64)
    requires
        i + 8 <= mmap_seq(*m).len() <= usize::MAX,
    ensures
        x == le64(mmap_seq(*m), i as int),
{
    let lo = read_u32(m, i);
    let hi = read_u32(m, i + 4);
    lo as u64 + 0x1_0000_0000 * (hi as u64)
}

} // verus!
