use crate::source::le16;
use crate::source::le32;
use crate::source::mmap_seq;
use crate::source::read_u16;
use crate::source::read_u32;
use vstd::prelude::*;

verus! {

// Name strings inside records are stored as little-endian code units (2 bytes
// per unit up to version 3, 4 bytes from version 4 on) terminated by a zero
// unit. Decoding is a pure function of the bytes at the cursor and the
// version's encoding.

/// The 16-bit code units starting at byte offset `i`, up to (excluding) the
/// first zero unit; `None` when the bytes run out before a zero unit.
pub open spec fn units16(d: Seq<u8>, i: int) -> Option<Seq<u16>>
    decreases d.len() - i,
{
    if i < 0 || i + 2 > d.len() {
        None
    } else if le16(d, i) == 0 {
        Some(Seq::empty())
    } else {
        match units16(d, i + 2) {
            None => None,
            Some(rest) => Some(seq![le16(d, i) as u16] + rest),
        }
    }
}

/// The 32-bit code units starting at byte offset `i`, up to (excluding) the
/// first zero unit; `None` when the bytes run out before a zero unit.
pub open spec fn units32(d: Seq<u8>, i: int) -> Option<Seq<u32>>
    decreases d.len() - i,
{
    if i < 0 || i + 4 > d.len() {
        None
    } else if le32(d, i) == 0 {
        Some(Seq::empty())
    } else {
        match units32(d, i + 4) {
            None => None,
            Some(rest) => Some(seq![le32(d, i) as u32] + rest),
        }
    }
}

/// What `String::from_utf16` decodes a unit sequence to: the text when the
/// units are valid UTF-16, `None` otherwise.
pub uninterp spec fn utf16_text(units: Seq<u16>) -> Option<Seq<char>>;

/// One UTF-32 code unit decoded leniently: a valid Unicode scalar value maps
/// to its character, anything else to the replacement character.
pub open spec fn lossy_char(u: u32) -> char {
    if u < 0xD800 || (0xE000 <= u && u <= 0x10FFFF) {
        u as char
    } else {
        '\u{FFFD}'
    }
}

/// A UTF-32 unit sequence decoded leniently, unit by unit.
pub open spec fn utf32_text(units: Seq<u32>) -> Seq<char> {
    units.map_values(|u: u32| lossy_char(u))
}

/// Relies on `String::from_utf16`: decodes the units as UTF-16, failing
/// exactly when they are not valid UTF-16. The decoded text is a function of
/// the units alone and is named `utf16_text`.
#[verifier::external_body]
fn utf16_to_string(units: &Vec<u16>) -> (r: Option<String>)
    ensures
        match r {
            Some(s) => utf16_text(units@) == Some(s@),
            None => utf16_text(units@) is None,
        },
{
    String::from_utf16(units.as_slice()).ok()
}

/// Relies on `widestring::U32String::from_vec` and
/// `widestring::U32Str::to_string_lossy`: each unit that is a valid Unicode
/// scalar value decodes to its character, every other unit to U+FFFD.
#[verifier::external_body]
fn utf32_to_string(units: &Vec<u32>) -> (r: String)
    ensures
        r@ == utf32_text(units@),
{
    widestring::U32String::from_vec(units.clone()).to_string_lossy()
}

/// The name string at byte offset `i` under the given encoding, together
/// with the byte offset just past its zero terminator. `None` when the bytes
/// run out before the terminator or the units are not valid text.
pub open spec fn name_at(d: Seq<u8>, i: int, utf32: bool) -> Option<(Seq<char>, int)> {
    if utf32 {
        match units32(d, i) {
            None => None,
            Some(us) => Some((utf32_text(us), i + 4 * (us.len() + 1))),
        }
    } else {
        match units16(d, i) {
            None => None,
            Some(us) => match utf16_text(us) {
                None => None,
                Some(t) => Some((t, i + 2 * (us.len() + 1))),
            },
        }
    }
}

/// The text of the name at byte offset `i` (empty when there is none).
pub open spec fn name_text(d: Seq<u8>, i: int, utf32: bool) -> Seq<char> {
    match name_at(d, i, utf32) {
        Some(p) => p.0,
        None => Seq::empty(),
    }
}

/// Character-wise string equality.
#[verifier::loop_isolation(false)]
pub(crate) fn str_eq(a: &str, b: &str) -> (r: bool)
    ensures
        r == (a@ == b@),
{
    let al = a.unicode_len();
    let bl = b.unicode_len();
    if al != bl {
        return false;
    }
    for k in 0..al
        invariant
            forall|t: int| 0 <= t < k ==> a@[t] == b@[t],
    {
        if a.get_char(k) != b.get_char(k) {
            return false;
        }
    }
    proof {
        assert(a@ =~= b@);
    }
    true
}

/// Whether `p` is a character-wise prefix of `q`.
#[verifier::loop_isolation(false)]
pub(crate) fn str_is_prefix(p: &str, q: &str) -> (r: bool)
    ensures
        r == p@.is_prefix_of(q@),
{
    let pl = p.unicode_len();
    let ql = q.unicode_len();
    if pl > ql {
        return false;
    }
    for k in 0..pl
        invariant
            pl <= ql,
            forall|t: int| 0 <= t < k ==> p@[t] == q@[t],
    {
        if p.get_char(k) != q.get_char(k) {
            proof {
                assert(p@[k as int] != q@.subrange(0, pl as int)[k as int]);
            }
            return false;
        }
    }
    proof {
        assert(p@ =~= q@.subrange(0, pl as int));
    }
    true
}

/// Reads and decodes the name string at byte offset `start`.
pub(crate) fn read_name(m: &memmap::Mmap, start: usize, utf32: bool) -> (r: Option<(String, usize)>)
    requires
        mmap_seq(*m).len() <= usize::MAX,
    ensures
        match r {
            Some(p) => name_at(mmap_seq(*m), start as int, utf32) == Some((p.0@, p.1 as int))
                && start <= p.1 <= mmap_seq(*m).len(),
            None => name_at(mmap_seq(*m), start as int, utf32) is None,
        },
{
    let ghost d = mmap_seq(*m);
    let len = crate::source::mmap_len(m);
    if utf32 {
        if start > len {
            assert(units32(d, start as int) is None);
            return None;
        }
        let mut units: Vec<u32> = Vec::new();
        let mut i = start;
        proof {
            if units32(d, start as int) is Some {
                assert(Seq::<u32>::empty() + units32(d, start as int)->0 =~= units32(
                    d,
                    start as int,
                )->0);
            }
        }
        loop
            invariant
                utf32,
                d == mmap_seq(*m),
                d.len() <= usize::MAX,
                len == d.len(),
                start <= i <= len,
                i == start + 4 * units.len(),
                units32(d, start as int) == match units32(d, i as int) {
                    None => None::<Seq<u32>>,
                    Some(rest) => Some(units@ + rest),
                },
            decreases d.len() - i,
        {
            if i >= len || len - i < 4 {
                assert(units32(d, i as int) is None);
                return None;
            }
            let u = read_u32(m, i);
            if u == 0 {
                assert(units32(d, i as int) == Some(Seq::<u32>::empty()));
                assert(units32(d, start as int) == Some(units@ + Seq::<u32>::empty()));
                assert(units@ + Seq::<u32>::empty() =~= units@);
                let s = utf32_to_string(&units);
                return Some((s, i + 4));
            }
            assert(units32(d, i as int) == match units32(d, i as int + 4) {
                None => None::<Seq<u32>>,
                Some(rest) => Some(seq![u] + rest),
            });
            proof {
                if units32(d, i as int + 4) is Some {
                    let rest = units32(d, i as int + 4)->0;
                    assert(units@ + (seq![u] + rest) =~= units@.push(u) + rest);
                }
            }
            units.push(u);
            i = i + 4;
        }
    } else {
        if start > len {
            assert(units16(d, start as int) is None);
            return None;
        }
        let mut units: Vec<u16> = Vec::new();
        let mut i = start;
        proof {
            if units16(d, start as int) is Some {
                assert(Seq::<u16>::empty() + units16(d, start as int)->0 =~= units16(
                    d,
                    start as int,
                )->0);
            }
        }
        loop
            invariant
                !utf32,
                d == mmap_seq(*m),
                d.len() <= usize::MAX,
                len == d.len(),
                start <= i <= len,
                i == start + 2 * units.len(),
                units16(d, start as int) == match units16(d, i as int) {
                    None => None::<Seq<u16>>,
                    Some(rest) => Some(units@ + rest),
                },
            decreases d.len() - i,
        {
            if i >= len || len - i < 2 {
                assert(units16(d, i as int) is None);
                return None;
            }
            let u = read_u16(m, i);
            if u == 0 {
                assert(units16(d, i as int) == Some(Seq::<u16>::empty()));
                assert(units16(d, start as int) == Some(units@ + Seq::<u16>::empty()));
                assert(units@ + Seq::<u16>::empty() =~= units@);
                match utf16_to_string(&units) {
                    Some(s) => {
                        return Some((s, i + 2));
                    },
                    None => {
                        return None;
                    },
                }
            }
            assert(units16(d, i as int) == match units16(d, i as int + 2) {
                None => None::<Seq<u16>>,
                Some(rest) => Some(seq![u] + rest),
            });
            proof {
                if units16(d, i as int + 2) is Some {
                    let rest = units16(d, i as int + 2)->0;
                    assert(units@ + (seq![u] + rest) =~= units@.push(u) + rest);
                }
            }
            units.push(u);
            i = i + 2;
        }
    }
}

} // verus!
