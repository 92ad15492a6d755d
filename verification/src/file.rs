use crate::ggpk::GGPK;
use crate::record::FileRec;
use crate::record::abs_of;
use crate::source::mmap_get;
use crate::source::mmap_len;
use vstd::prelude::*;

verus! {

/// One embedded file found by a walk: its decoded name, the path of the
/// directory holding it, its 32-byte content signature, and the absolute
/// byte range of its content inside the archive.
pub struct FileRecord {
    pub name: String,
    pub path: String,
    pub signature: [u8; 32],
    pub begin: usize,
    pub bytes: u32,
}

impl View for FileRecord {
    type V = FileRec;

    open spec fn view(&self) -> FileRec {
        FileRec {
            name: self.name@,
            path: self.path@,
            signature: self.signature@,
            begin: self.begin as int,
            bytes: self.bytes as int,
        }
    }
}

impl FileRecord {
    /// The file's absolute path: directory path and name joined by `/`.
    pub fn absolute_path(&self) -> (r: String)
        ensures
            r@ == abs_of(self@),
    {
        proof {
            reveal_strlit("/");
            assert(("/")@ =~= seq!['/']);
        }
        let r = self.path.clone().concat("/").concat(self.name.as_str());
        r
    }

    /// A field-by-field copy of the record.
    pub fn clone(&self) -> (r: FileRecord)
        ensures
            r@ == self@,
    {
        FileRecord {
            name: self.name.clone(),
            path: self.path.clone(),
            signature: self.signature,
            begin: self.begin,
            bytes: self.bytes,
        }
    }
}

/// Why an archive operation failed.
#[derive(Debug)]
pub enum GGPKError {
    /// The archive bytes could not be mapped.
    OpenFailure,
    /// A lookup matched no file; holds the path looked up.
    NotFound { path: String },
    /// A lookup matched more than one file; holds the path looked up and the
    /// absolute paths of every match.
    Ambiguous { path: String, candidates: Vec<String> },
    /// A descriptor's content range runs past the end of the archive.
    OutOfBounds,
}

/// One file of an open archive, ready for extraction: the handle that found
/// it and its descriptor.
pub struct GGPKFile<'a> {
    pub ggpk: &'a GGPK,
    pub record: FileRecord,
}

impl GGPKFile<'_> {
    /// Copies the file's content bytes out of the archive. Fails exactly
    /// when the descriptor's content range runs past the end of the mapped
    /// bytes.
    #[verifier::loop_isolation(false)]
    pub fn bytes(&self) -> (r: Result<Vec<u8>, GGPKError>)
        requires
            self.ggpk.wf(),
        ensures
            ({
                let d = self.ggpk.data();
                let b = self.record@.begin;
                let n = self.record@.bytes;
                match r {
                    Ok(v) => b + n <= d.len() && v@ == d.subrange(b, b + n) && v@.len() == n,
                    Err(e) => e is OutOfBounds && b + n > d.len(),
                }
            }),
    {
        let ghost d = self.ggpk.data();
        let len = mmap_len(&self.ggpk.mmap);
        let begin = self.record.begin;
        let count = self.record.bytes;
        if begin > len || ((len - begin) as u64) < count as u64 {
            return Err(GGPKError::OutOfBounds);
        }
        let n = count as usize;
        let mut v: Vec<u8> = Vec::new();
        let mut i: usize = 0;
        while i < n
            invariant
                i <= n,
                v@.len() == i,
                forall|t: int| 0 <= t < i ==> v@[t] == d[begin + t],
            decreases n - i,
        {
            v.push(mmap_get(&self.ggpk.mmap, begin + i));
            i = i + 1;
        }
        proof {
            assert(v@ =~= d.subrange(begin as int, begin + count));
        }
        Ok(v)
    }
}

} // verus!
