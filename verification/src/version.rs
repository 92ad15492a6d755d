use vstd::prelude::*;

verus! {

/// An archive format revision. The revision fixes exactly one behaviour:
/// the encoding of the name strings stored in directory and file records.
#[derive(Clone, Copy, PartialEq, Eq, Structural, Debug)]
pub struct GGPKVersion {
    id: u32,
    utf32_paths: bool,
}

/// The string encoding selected by a header version id: ids 1, 2 and 3 use
/// UTF-16, id 4 uses UTF-32, and an unknown id falls back to the newest
/// known version (id 4).
pub open spec fn spec_utf32_for(id: u32) -> bool {
    if id == 4 {
        true
    } else if id == 3 {
        false
    } else if id == 2 {
        false
    } else if id == 1 {
        false
    } else {
        true
    }
}

/// The id that a header version id resolves to: itself when known,
/// otherwise the newest known id.
pub open spec fn spec_id_for(id: u32) -> u32 {
    if id == 4 || id == 3 || id == 2 || id == 1 {
        id
    } else {
        4
    }
}

impl GGPKVersion {
    pub closed spec fn spec_id(&self) -> u32 {
        self.id
    }

    pub closed spec fn spec_use_utf32(&self) -> bool {
        self.utf32_paths
    }

    /// The version value that a header id resolves to.
    pub closed spec fn from_id_spec(id: u32) -> GGPKVersion {
        GGPKVersion { id: spec_id_for(id), utf32_paths: spec_utf32_for(id) }
    }

    /// Looks a version id up in the table of known versions. An unknown id
    /// resolves to the newest known version; resolution never fails.
    pub fn from_id(id: u32) -> (v: GGPKVersion)
        ensures
            v == GGPKVersion::from_id_spec(id),
            v.spec_id() == spec_id_for(id),
            v.spec_use_utf32() == spec_utf32_for(id),
    {
        if id == 4 {
            GGPKVersion { id: 4, utf32_paths: true }
        } else if id == 3 {
            GGPKVersion { id: 3, utf32_paths: false }
        } else if id == 2 {
            GGPKVersion { id: 2, utf32_paths: false }
        } else if id == 1 {
            GGPKVersion { id: 1, utf32_paths: false }
        } else {
            GGPKVersion { id: 4, utf32_paths: true }
        }
    }

    /// Whether name strings are encoded as UTF-32 code units (otherwise UTF-16).
    #[verifier::when_used_as_spec(spec_use_utf32)]
    pub fn use_utf32(&self) -> (b: bool)
        ensures
            b == self.spec_use_utf32(),
    {
        self.utf32_paths
    }
}

/// Version fallback law: an unknown version id resolves to exactly the same
/// version value as the newest known id, so name decoding (and with it every
/// listing and lookup) behaves as it does under the newest known version.
pub proof fn lemma_unknown_version_falls_back(id: u32)
    requires
        id != 1,
        id != 2,
        id != 3,
        id != 4,
    ensures
        GGPKVersion::from_id_spec(id) == GGPKVersion::from_id_spec(4),
{
}

} // verus!
