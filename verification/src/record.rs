use crate::source::le32;
use crate::source::le64;
use crate::strings::name_at;
use vstd::prelude::*;

verus! {

// The mathematical model of the archive: what the bytes at a given offset
// parse to, and which file descriptors a walk from an offset collects.
//
// Every record starts with a 4-byte little-endian total size and a 4-byte
// ASCII tag. A root record holds a version field and 8-byte child offsets; a
// directory record holds a name and fixed 12-byte child entries; a file
// record holds a name, a 32-byte signature and its raw content bytes; a free
// record is unused space. A malformed record (out-of-bounds field, missing
// terminator, invalid name text, unknown tag) spoils only itself: it
// contributes nothing to any walk.

/// The abstract value of one file descriptor: decoded name, directory path,
/// content signature, and the content byte range.
pub struct FileRec {
    pub name: Seq<char>,
    pub path: Seq<char>,
    pub signature: Seq<u8>,
    pub begin: int,
    pub bytes: int,
}

/// What the bytes at one offset parse to.
pub enum Rec {
    /// Malformed: a field runs past the end of the archive, a name has no
    /// terminator or is not valid text, or the tag is unknown.
    Fail,
    /// Unused space.
    Free,
    /// The archive root: a list of child record offsets.
    Root { children: Seq<int> },
    /// A directory: its own name and a list of child record offsets.
    Dir { name: Seq<char>, children: Seq<int> },
    /// An embedded file: its name, signature and content byte range.
    File { name: Seq<char>, signature: Seq<u8>, begin: int, bytes: int },
}

pub open spec fn tag_at(d: Seq<u8>, off: int, t0: u8, t1: u8, t2: u8, t3: u8) -> bool {
    d[off + 4] == t0 && d[off + 5] == t1 && d[off + 6] == t2 && d[off + 7] == t3
}

/// `GGPK` in ASCII: the root record's tag.
pub open spec fn is_root_tag(d: Seq<u8>, off: int) -> bool {
    tag_at(d, off, 0x47, 0x47, 0x50, 0x4B)
}

/// `PDIR` in ASCII: the directory record's tag.
pub open spec fn is_dir_tag(d: Seq<u8>, off: int) -> bool {
    tag_at(d, off, 0x50, 0x44, 0x49, 0x52)
}

/// `FILE` in ASCII: the file record's tag.
pub open spec fn is_file_tag(d: Seq<u8>, off: int) -> bool {
    tag_at(d, off, 0x46, 0x49, 0x4C, 0x45)
}

/// `FREE` in ASCII: the free record's tag.
pub open spec fn is_free_tag(d: Seq<u8>, off: int) -> bool {
    tag_at(d, off, 0x46, 0x52, 0x45, 0x45)
}

/// A root record: a 4-byte sub-version field, then `(size - 12) / 8` 8-byte
/// child offsets.
pub open spec fn parse_root(d: Seq<u8>, off: int, size: int) -> Rec {
    if size < 12 {
        Rec::Fail
    } else {
        let n = (size - 12) / 8;
        if off + 12 + 8 * n > d.len() {
            Rec::Fail
        } else {
            Rec::Root { children: Seq::new(n as nat, |j: int| le64(d, off + 12 + 8 * j)) }
        }
    }
}

/// A directory record: a 4-byte declared name length, a 4-byte entry count,
/// a 32-byte hash, the name, then `entry_count` entries of 4 hash bytes and
/// an 8-byte child offset each.
pub open spec fn parse_dir(d: Seq<u8>, off: int, utf32: bool) -> Rec {
    if off + 48 > d.len() {
        Rec::Fail
    } else {
        let entries = le32(d, off + 12);
        match name_at(d, off + 48, utf32) {
            None => Rec::Fail,
            Some(p) => {
                if p.1 + 12 * entries > d.len() {
                    Rec::Fail
                } else {
                    Rec::Dir {
                        name: p.0,
                        children: Seq::new(entries as nat, |j: int| le64(d, p.1 + 12 * j + 4)),
                    }
                }
            },
        }
    }
}

/// A file record: a 4-byte declared name length, a 32-byte signature, the
/// name, then the raw content bytes filling the rest of the record. The
/// content range is derived from the name's actual encoded length; the
/// declared name length plays no part in it.
pub open spec fn parse_file(d: Seq<u8>, off: int, size: int, utf32: bool) -> Rec {
    if off + 44 > d.len() {
        Rec::Fail
    } else {
        match name_at(d, off + 44, utf32) {
            None => Rec::Fail,
            Some(p) => {
                if off + size < p.1 {
                    Rec::Fail
                } else {
                    Rec::File {
                        name: p.0,
                        signature: d.subrange(off + 12, off + 44),
                        begin: p.1,
                        bytes: off + size - p.1,
                    }
                }
            },
        }
    }
}

/// What the bytes at offset `off` parse to under the given name encoding.
pub open spec fn parse_at(d: Seq<u8>, off: int, utf32: bool) -> Rec {
    if !(0 <= off && off + 8 <= d.len()) {
        Rec::Fail
    } else {
        let size = le32(d, off);
        if is_root_tag(d, off) {
            parse_root(d, off, size)
        } else if is_dir_tag(d, off) {
            parse_dir(d, off, utf32)
        } else if is_file_tag(d, off) {
            parse_file(d, off, size, utf32)
        } else if is_free_tag(d, off) {
            Rec::Free
        } else {
            Rec::Fail
        }
    }
}

/// A directory's own path: the base path, or base and name joined by `/`
/// (just the name at the archive root, whose base path is empty).
pub open spec fn dir_join(base: Seq<char>, name: Seq<char>) -> Seq<char> {
    if base.len() == 0 {
        name
    } else {
        base + seq!['/'] + name
    }
}

/// A file's absolute path: its directory path and name joined by `/`.
pub open spec fn abs_join(path: Seq<char>, name: Seq<char>) -> Seq<char> {
    path + seq!['/'] + name
}

/// The absolute path of a file descriptor.
pub open spec fn abs_of(fr: FileRec) -> Seq<char> {
    abs_join(fr.path, fr.name)
}

/// The absolute paths of a sequence of file descriptors.
pub open spec fn paths_of(s: Seq<FileRec>) -> Seq<Seq<char>> {
    s.map_values(|fr: FileRec| abs_of(fr))
}

/// Whether a walk filtered for target path `t` descends into a directory
/// whose own path is `path`: it does when either is a prefix of the other.
pub open spec fn keep_dir(path: Seq<char>, filt: Option<Seq<char>>) -> bool {
    match filt {
        None => true,
        Some(t) => path.is_prefix_of(t) || t.is_prefix_of(path),
    }
}

/// Whether a filtered walk retains a file with absolute path `abs`: only an
/// exact match does.
pub open spec fn keep_file(abs: Seq<char>, filt: Option<Seq<char>>) -> bool {
    match filt {
        None => true,
        Some(t) => abs == t,
    }
}

/// The file descriptors collected by a walk starting at offset `off`, with
/// accumulated base path `base`, optionally filtered for one target path.
/// `fuel` bounds the recursion depth; a walk of a whole archive starts with
/// fuel equal to the archive's byte length, which no well-formed record tree
/// can exhaust, so corrupt offset cycles end in an empty contribution rather
/// than an unbounded descent.
pub open spec fn walk(
    d: Seq<u8>,
    utf32: bool,
    off: int,
    base: Seq<char>,
    filt: Option<Seq<char>>,
    fuel: nat,
) -> Seq<FileRec>
    decreases fuel, 0nat,
{
    if fuel == 0 {
        Seq::empty()
    } else {
        match parse_at(d, off, utf32) {
            Rec::Fail => Seq::empty(),
            Rec::Free => Seq::empty(),
            Rec::Root { children } => walk_children(
                d,
                utf32,
                children,
                base,
                filt,
                (fuel - 1) as nat,
            ),
            Rec::Dir { name, children } => {
                let path = dir_join(base, name);
                if keep_dir(path, filt) {
                    walk_children(d, utf32, children, path, filt, (fuel - 1) as nat)
                } else {
                    Seq::empty()
                }
            },
            Rec::File { name, signature, begin, bytes } => {
                if keep_file(abs_join(base, name), filt) {
                    seq![FileRec { name, path: base, signature, begin, bytes }]
                } else {
                    Seq::empty()
                }
            },
        }
    }
}

/// The concatenation of the walks of a list of child offsets, left to right.
pub open spec fn walk_children(
    d: Seq<u8>,
    utf32: bool,
    children: Seq<int>,
    base: Seq<char>,
    filt: Option<Seq<char>>,
    fuel: nat,
) -> Seq<FileRec>
    decreases fuel, children.len() + 1,
{
    if children.len() == 0 {
        Seq::empty()
    } else {
        walk(d, utf32, children[0], base, filt, fuel) + walk_children(
            d,
            utf32,
            children.drop_first(),
            base,
            filt,
            fuel,
        )
    }
}

/// A walk of a whole archive: from the root record expected at offset 0,
/// with an empty base path.
pub open spec fn archive_walk(d: Seq<u8>, utf32: bool, filt: Option<Seq<char>>) -> Seq<FileRec> {
    walk(d, utf32, 0, Seq::empty(), filt, d.len())
}

/// Extending a child list on the right appends that child's walk.
pub proof fn lemma_walk_children_snoc(
    d: Seq<u8>,
    utf32: bool,
    children: Seq<int>,
    o: int,
    base: Seq<char>,
    filt: Option<Seq<char>>,
    fuel: nat,
)
    ensures
        walk_children(d, utf32, children.push(o), base, filt, fuel) == walk_children(
            d,
            utf32,
            children,
            base,
            filt,
            fuel,
        ) + walk(d, utf32, o, base, filt, fuel),
    decreases children.len(),
{
    if children.len() == 0 {
        assert(children.push(o).drop_first() =~= children);
        assert(walk_children(d, utf32, children, base, filt, fuel) == Seq::<FileRec>::empty());
        assert(walk_children(d, utf32, children.push(o), base, filt, fuel) == walk(
            d,
            utf32,
            o,
            base,
            filt,
            fuel,
        ) + walk_children(d, utf32, children, base, filt, fuel));
        assert(walk(d, utf32, o, base, filt, fuel) + Seq::<FileRec>::empty() =~= Seq::<
            FileRec,
        >::empty() + walk(d, utf32, o, base, filt, fuel));
    } else {
        assert(children.push(o).drop_first() =~= children.drop_first().push(o));
        lemma_walk_children_snoc(d, utf32, children.drop_first(), o, base, filt, fuel);
        assert((walk(d, utf32, children[0], base, filt, fuel) + walk_children(
            d,
            utf32,
            children.drop_first(),
            base,
            filt,
            fuel,
        )) + walk(d, utf32, o, base, filt, fuel) =~= walk(d, utf32, children[0], base, filt, fuel)
            + (walk_children(d, utf32, children.drop_first(), base, filt, fuel) + walk(
            d,
            utf32,
            o,
            base,
            filt,
            fuel,
        )));
    }
}

} // verus!
