use crate::file::FileRecord;
use crate::file::GGPKError;
use crate::file::GGPKFile;
use crate::record::Rec;
use crate::record::abs_join;
use crate::record::abs_of;
use crate::record::archive_walk;
use crate::record::dir_join;
use crate::record::keep_dir;
use crate::record::keep_file;
use crate::record::lemma_walk_children_snoc;
use crate::record::parse_at;
use crate::record::walk;
use crate::record::walk_children;
use crate::source::le32;
use crate::source::le64;
use crate::source::mmap_get;
use crate::source::mmap_len;
use crate::source::mmap_of_bytes;
use crate::source::mmap_seq;
use crate::source::read_u32;
use crate::source::read_u64;
use crate::strings::read_name;
use crate::strings::str_eq;
use crate::strings::str_is_prefix;
use crate::version::GGPKVersion;
use rayon::iter::IntoParallelRefIterator;
use rayon::iter::ParallelIterator;
use vstd::prelude::*;
use vstd::seq_lib::lemma_multiset_commutative;

verus! {

/// An open archive: the memory-mapped bytes and the format version resolved
/// once from the header.
pub struct GGPK {
    pub version: GGPKVersion,
    pub mmap: memmap::Mmap,
}

/// The version id stored at byte offset 8 of the archive (inside the root
/// record's header); an archive too short to hold it yields id 0, which is
/// unknown and so resolves to the newest known version.
pub open spec fn header_version_id(d: Seq<u8>) -> u32 {
    if d.len() >= 12 {
        le32(d, 8) as u32
    } else {
        0
    }
}

/// The view of an optional borrowed target path.
pub open spec fn filter_view(w: Option<&str>) -> Option<Seq<char>> {
    match w {
        Some(s) => Some(s@),
        None => None,
    }
}

impl GGPK {
    /// The archive's bytes.
    pub open spec fn data(&self) -> Seq<u8> {
        mmap_seq(self.mmap)
    }

    /// Whether names decode as UTF-32 under the resolved version.
    pub open spec fn utf32(&self) -> bool {
        self.version.spec_use_utf32()
    }

    /// A well-formed handle: the version is the one the header resolves to,
    /// and the mapped length fits an address.
    pub open spec fn wf(&self) -> bool {
        &&& self.version == GGPKVersion::from_id_spec(header_version_id(self.data()))
        &&& self.data().len() <= usize::MAX
    }

    /// Wraps an already-mapped archive, resolving its version from the
    /// header. Never fails: an unreadable or unknown version field falls
    /// back to the newest known version.
    pub fn from_mmap(mmap: memmap::Mmap) -> (g: GGPK)
        ensures
            g.wf(),
            g.data() == mmap_seq(mmap),
    {
        let len = mmap_len(&mmap);
        let id: u32 = if len >= 12 {
            read_u32(&mmap, 8)
        } else {
            0
        };
        GGPK { version: GGPKVersion::from_id(id), mmap }
    }

    /// Opens an archive held in a byte buffer by copying it into a fresh
    /// read-only anonymous map. Fails only when the map cannot be created.
    pub fn from_bytes(data: &[u8]) -> (r: Result<GGPK, GGPKError>)
        ensures
            r matches Ok(g) ==> g.wf() && g.data() == data@,
            r matches Err(e) ==> e is OpenFailure,
    {
        match mmap_of_bytes(data) {
            Some(m) => Ok(GGPK::from_mmap(m)),
            None => Err(GGPKError::OpenFailure),
        }
    }

    /// Lists the absolute path of every file in the archive. The order is
    /// unspecified; the paths themselves, with multiplicity, are exactly
    /// those an unfiltered walk from the root collects. Corrupt records
    /// cost only their own subtree: the rest is still listed.
    pub fn list_files(&self) -> (r: Vec<String>)
        requires
            self.wf(),
        ensures
            r@.map_values(|s: String| s@).to_multiset() == crate::record::paths_of(
                archive_walk(self.data(), self.utf32(), None),
            ).to_multiset(),
    {
        proof {
            reveal_strlit("");
            assert(("")@ =~= Seq::<char>::empty());
        }
        let len = mmap_len(&self.mmap);
        let files = read_record(self, 0, "", None, len as u64);
        let ghost w = archive_walk(self.data(), self.utf32(), None);
        let mut out: Vec<String> = Vec::new();
        let mut k: usize = 0;
        while k < files.len()
            invariant
                k <= files@.len(),
                out@.len() == k,
                forall|t: int| 0 <= t < k ==> out@[t]@ == abs_of(files@[t]@),
            decreases files@.len() - k,
        {
            out.push(files[k].absolute_path());
            k = k + 1;
        }
        proof {
            assert(out@.map_values(|s: String| s@) =~= views_of(files@).map_values(
                |fr: crate::record::FileRec| abs_of(fr),
            ));
            crate::laws::lemma_map_preserves_multiset(
                views_of(files@),
                w,
                |fr: crate::record::FileRec| abs_of(fr),
            );
        }
        out
    }

    /// Looks one file up by its exact absolute path. Succeeds exactly when
    /// one file in the archive has that path, and then hands back its
    /// descriptor; reports `NotFound` when no listed path equals it, and
    /// `Ambiguous`, carrying every colliding path, when several files share
    /// it.
    pub fn get_file<'a>(&'a self, path: &str) -> (r: Result<GGPKFile<'a>, GGPKError>)
        requires
            self.wf(),
        ensures
            ({
                let m = archive_walk(self.data(), self.utf32(), Some(path@));
                let listed = crate::record::paths_of(
                    archive_walk(self.data(), self.utf32(), None),
                ).to_multiset();
                match r {
                    Ok(gf) => m.len() == 1 && gf.record@ == m[0] && gf.ggpk == self
                        && listed.count(path@) == 1 && abs_of(gf.record@) == path@,
                    Err(e) => match e {
                        GGPKError::NotFound { path: p } => m.len() == 0 && p@ == path@
                            && listed.count(path@) == 0,
                        GGPKError::Ambiguous { path: p, candidates } => m.len() >= 2 && p@ == path@
                            && listed.count(path@) >= 2
                            && candidates@.map_values(|s: String| s@).to_multiset()
                            == crate::record::paths_of(m).to_multiset(),
                        _ => false,
                    },
                }
            }),
    {
        broadcast use vstd::seq_lib::group_to_multiset_ensures;

        proof {
            reveal_strlit("");
            assert(("")@ =~= Seq::<char>::empty());
            crate::laws::lemma_lookup_counts_matches(self.data(), self.utf32(), path@);
        }
        let len = mmap_len(&self.mmap);
        let mut files = read_record(self, 0, "", Some(path), len as u64);
        let ghost files0 = files@;
        let ghost m = archive_walk(self.data(), self.utf32(), Some(path@));
        proof {
            assert(views_of(files0).len() == files0.len());
            assert(views_of(files0).to_multiset().len() == views_of(files0).len());
            assert(m.to_multiset().len() == m.len());
        }
        if files.len() == 1 {
            let rec = match files.pop() {
                Some(rec) => rec,
                None => {
                    proof {
                        assert(false);
                    }
                    unreached()
                },
            };
            proof {
                assert(files0 =~= files@.push(rec));
                assert(views_of(files0)[0] == rec@);
                assert(views_of(files0).contains(rec@));
                assert(views_of(files0).to_multiset().count(rec@) > 0);
                assert(m.to_multiset().count(rec@) > 0);
                assert(m.contains(rec@));
                let i = choose|i: int| 0 <= i < m.len() && m[i] == rec@;
                assert(i == 0);
            }
            Ok(GGPKFile { ggpk: self, record: rec })
        } else if files.len() == 0 {
            Err(GGPKError::NotFound { path: path.to_owned() })
        } else {
            let mut out: Vec<String> = Vec::new();
            let mut k: usize = 0;
            while k < files.len()
                invariant
                    k <= files@.len(),
                    out@.len() == k,
                    forall|t: int| 0 <= t < k ==> out@[t]@ == abs_of(files@[t]@),
                decreases files@.len() - k,
            {
                out.push(files[k].absolute_path());
                k = k + 1;
            }
            proof {
                assert(out@.map_values(|s: String| s@) =~= views_of(files@).map_values(
                    |fr: crate::record::FileRec| abs_of(fr),
                ));
                crate::laws::lemma_map_preserves_multiset(
                    views_of(files@),
                    m,
                    |fr: crate::record::FileRec| abs_of(fr),
                );
            }
            Err(GGPKError::Ambiguous { path: path.to_owned(), candidates: out })
        }
    }
}

/// The views of a sequence of file records.
pub open spec fn views_of(s: Seq<FileRecord>) -> Seq<crate::record::FileRec> {
    s.map_values(|fr: FileRecord| fr@)
}

/// An empty walk result.
fn no_records() -> (r: Vec<FileRecord>)
    ensures
        r@ == Seq::<FileRecord>::empty(),
        views_of(r@).to_multiset() == Seq::<crate::record::FileRec>::empty().to_multiset(),
{
    let r: Vec<FileRecord> = Vec::new();
    proof {
        assert(views_of(r@) =~= Seq::<crate::record::FileRec>::empty());
    }
    r
}

/// Two walk results joined.
fn concat_records(a: Vec<FileRecord>, b: Vec<FileRecord>) -> (r: Vec<FileRecord>)
    ensures
        r@ == a@ + b@,
{
    let mut a = a;
    let mut b = b;
    a.append(&mut b);
    a
}

/// Relies on rayon's `par_iter`, `map` and `reduce`: runs the verified
/// record walk on every child offset, on parallel workers, and joins the
/// per-child results in an unspecified order. Each closure only calls a
/// verified function of this crate, whose contract ties its result to
/// `walk`; joining the pieces in any order leaves their element multiset
/// equal to the left-to-right concatenation's.
#[verifier::external_body]
fn par_walk_children(
    g: &GGPK,
    offs: &Vec<u64>,
    base: &str,
    wanted: Option<&str>,
    fuel: u64,
) -> (r: Vec<FileRecord>)
    requires
        g.wf(),
    ensures
        views_of(r@).to_multiset() == walk_children(
            g.data(),
            g.utf32(),
            offs@.map_values(|o: u64| o as int),
            base@,
            filter_view(wanted),
            fuel as nat,
        ).to_multiset(),
{
    offs.par_iter().map(|o: &u64| read_record(g, *o, base, wanted, fuel)).reduce(
        || no_records(),
        |a: Vec<FileRecord>, b: Vec<FileRecord>| concat_records(a, b),
    )
}

/// Decodes the record at `offset` and recursively collects the file
/// descriptors below it, with accumulated directory path `base`, pruned and
/// filtered for the exact target path `wanted` when one is given. A
/// malformed record contributes nothing; siblings are unaffected.
#[verifier::loop_isolation(false)]
fn read_record(g: &GGPK, offset: u64, base: &str, wanted: Option<&str>, fuel: u64) -> (r: Vec<
    FileRecord,
>)
    requires
        g.wf(),
    ensures
        views_of(r@).to_multiset() == walk(
            g.data(),
            g.utf32(),
            offset as int,
            base@,
            filter_view(wanted),
            fuel as nat,
        ).to_multiset(),
    decreases fuel,
{
    let ghost d = g.data();
    let ghost u = g.utf32();
    let ghost f = filter_view(wanted);
    if fuel == 0 {
        return no_records();
    }
    let len = mmap_len(&g.mmap);
    if offset >= len as u64 || (len as u64) - offset < 8 {
        assert(parse_at(d, offset as int, u) is Fail);
        return no_records();
    }
    let off = offset as usize;
    assert(off == offset as int);
    let size = read_u32(&g.mmap, off);
    let t0 = mmap_get(&g.mmap, off + 4);
    let t1 = mmap_get(&g.mmap, off + 5);
    let t2 = mmap_get(&g.mmap, off + 6);
    let t3 = mmap_get(&g.mmap, off + 7);
    if t0 == 0x47 && t1 == 0x47 && t2 == 0x50 && t3 == 0x4B {
        // A root record: recurse into each 8-byte child offset.
        if size < 12 {
            return no_records();
        }
        let n = (size - 12) / 8;
        if ((len - off) as u64) < 12 + 8 * (n as u64) {
            assert(parse_at(d, offset as int, u) is Fail);
            return no_records();
        }
        let ghost children = Seq::new(n as nat, |j: int| le64(d, off + 12 + 8 * j));
        assert(parse_at(d, offset as int, u) == (Rec::Root { children }));
        let mut out: Vec<FileRecord> = Vec::new();
        let mut j: u32 = 0;
        proof {
            assert(children.take(0) =~= Seq::<int>::empty());
            assert(walk_children(d, u, children.take(0), base@, f, (fuel - 1) as nat) == Seq::<
                crate::record::FileRec,
            >::empty());
            assert(out@.map_values(|fr: FileRecord| fr@) =~= Seq::<crate::record::FileRec>::empty());
        }
        while j < n
            invariant
                j <= n,
                out@.map_values(|fr: FileRecord| fr@).to_multiset() == walk_children(
                    d,
                    u,
                    children.take(j as int),
                    base@,
                    f,
                    (fuel - 1) as nat,
                ).to_multiset(),
            decreases n - j,
        {
            let child = read_u64(&g.mmap, off + 12 + 8 * (j as usize));
            assert(child == children[j as int]);
            let mut part = read_record(g, child, base, wanted, fuel - 1);
            proof {
                lemma_walk_children_snoc(
                    d,
                    u,
                    children.take(j as int),
                    children[j as int],
                    base@,
                    f,
                    (fuel - 1) as nat,
                );
                assert(children.take(j + 1) =~= children.take(j as int).push(children[j as int]));
                assert((out@ + part@).map_values(|fr: FileRecord| fr@) =~= out@.map_values(
                    |fr: FileRecord| fr@,
                ) + part@.map_values(|fr: FileRecord| fr@));
                lemma_multiset_commutative(
                    out@.map_values(|fr: FileRecord| fr@),
                    part@.map_values(|fr: FileRecord| fr@),
                );
                lemma_multiset_commutative(
                    walk_children(d, u, children.take(j as int), base@, f, (fuel - 1) as nat),
                    walk(d, u, children[j as int], base@, f, (fuel - 1) as nat),
                );
            }
            out.append(&mut part);
            j = j + 1;
        }
        proof {
            assert(children.take(n as int) =~= children);
        }
        return out;
    } else if t0 == 0x50 && t1 == 0x44 && t2 == 0x49 && t3 == 0x52 {
        // A directory record: build its path, prune when a target is given
        // and unrelated, then recurse into each 12-byte child entry.
        if len - off < 48 {
            assert(parse_at(d, offset as int, u) is Fail);
            return no_records();
        }
        let entries = read_u32(&g.mmap, off + 12);
        let (name, name_end) = match read_name(&g.mmap, off + 48, g.version.use_utf32()) {
            None => {
                return no_records();
            },
            Some(p) => p,
        };
        let path: String = if base.is_empty() {
            name
        } else {
            proof {
                reveal_strlit("/");
                assert(("/")@ =~= seq!['/']);
            }
            base.to_owned().concat("/").concat(name.as_str())
        };
        assert(path@ == dir_join(base@, crate::strings::name_text(d, off + 48, u)));
        if ((len - name_end) as u64) < 12 * (entries as u64) {
            return no_records();
        }
        let ghost children = Seq::new(entries as nat, |j: int| le64(d, name_end + 12 * j + 4));
        assert(parse_at(d, offset as int, u) == (Rec::Dir {
            name: crate::strings::name_text(d, off + 48, u),
            children,
        }));
        match wanted {
            Some(w) => {
                let related = str_is_prefix(path.as_str(), w) || str_is_prefix(w, path.as_str());
                if !related {
                    assert(!keep_dir(path@, f));
                    return no_records();
                }
            },
            None => {},
        }
        assert(keep_dir(path@, f));
        let mut offs: Vec<u64> = Vec::new();
        let mut j: u32 = 0;
        while j < entries
            invariant
                j <= entries,
                offs@.len() == j,
                forall|t: int| 0 <= t < j ==> offs@[t] == children[t],
            decreases entries - j,
        {
            offs.push(read_u64(&g.mmap, name_end + 12 * (j as usize) + 4));
            j = j + 1;
        }
        proof {
            assert(offs@.map_values(|o: u64| o as int) =~= children);
        }
        let out = par_walk_children(g, &offs, path.as_str(), wanted, fuel - 1);
        return out;
    } else if t0 == 0x46 && t1 == 0x49 && t2 == 0x4C && t3 == 0x45 {
        // A file record: decode its name and emit one descriptor for the
        // content bytes that fill the rest of the record.
        if len - off < 44 {
            return no_records();
        }
        let (name, name_end) = match read_name(&g.mmap, off + 44, g.version.use_utf32()) {
            None => {
                return no_records();
            },
            Some(p) => p,
        };
        let mut sig: [u8; 32] = [0u8; 32];
        let mut i: usize = 0;
        while i < 32
            invariant
                i <= 32,
                forall|t: int| 0 <= t < i ==> sig@[t] == d[off + 12 + t],
            decreases 32 - i,
        {
            sig.set(i, mmap_get(&g.mmap, off + 12 + i));
            i = i + 1;
        }
        proof {
            assert(sig@ =~= d.subrange(off + 12, off + 44));
        }
        if name_end - off > size as usize {
            assert(parse_at(d, offset as int, u) is Fail);
            return no_records();
        }
        let content_len: u32 = size - ((name_end - off) as u32);
        let ghost frec = crate::record::FileRec {
            name: crate::strings::name_text(d, off + 44, u),
            path: base@,
            signature: d.subrange(off + 12, off + 44),
            begin: name_end as int,
            bytes: content_len as int,
        };
        assert(parse_at(d, offset as int, u) == (Rec::File {
            name: frec.name,
            signature: frec.signature,
            begin: frec.begin,
            bytes: frec.bytes,
        }));
        match wanted {
            Some(w) => {
                proof {
                    reveal_strlit("/");
                    assert(("/")@ =~= seq!['/']);
                }
                let abs = base.to_owned().concat("/").concat(name.as_str());
                if !str_eq(abs.as_str(), w) {
                    assert(!keep_file(abs_join(base@, frec.name), f));
                    return no_records();
                }
            },
            None => {},
        }
        assert(keep_file(abs_join(base@, frec.name), f));
        let rec = FileRecord {
            name,
            path: base.to_owned(),
            signature: sig,
            begin: name_end,
            bytes: content_len,
        };
        let mut out: Vec<FileRecord> = Vec::new();
        out.push(rec);
        proof {
            assert(out@.map_values(|fr: FileRecord| fr@) =~= seq![frec]);
        }
        return out;
    } else if t0 == 0x46 && t1 == 0x52 && t2 == 0x45 && t3 == 0x45 {
        // Unused space: contributes nothing.
        return no_records();
    } else {
        // An unknown tag: contributes nothing, the walk goes on elsewhere.
        return no_records();
    }
}

} // verus!
