//! The archive index: which path checksums are delivered inside which
//! pre-packed archive.
//!
//! The index is consumed read-only.  A file whose path checksum appears
//! here is bundled inside a named archive and need not be fetched
//! individually.  An absent index file is a valid "no archives" state,
//! carried as the empty index.

use vstd::prelude::*;

verus! {

/// One pack archive.
#[derive(Debug, Clone, PartialEq, Eq)]
pub struct ArchiveRef {
    /// The path to the archive, relative to the installation
    pub path: String,
}

/// What the index records for one path checksum.
#[derive(Debug, Clone, Copy, PartialEq, Eq, Structural)]
pub struct ArchiveFileRef {
    /// The category of the file; the least significant byte indicates
    /// whether the file is stored compressed
    pub category: u32,
    /// The position of the containing archive in [`ArchiveIndex::archives`]
    pub pack_file: u32,
}

/// The record stored under a checksum, if any: the first entry that
/// carries it.
pub open spec fn crc_find(s: Seq<(u32, ArchiveFileRef)>, crc: u32) -> Option<ArchiveFileRef>
    decreases s.len(),
{
    if s.len() == 0 {
        None
    } else if s[0].0 == crc {
        Some(s[0].1)
    } else {
        crc_find(s.skip(1), crc)
    }
}

/// The archive index, mapping path checksums to archive membership.
#[derive(Debug, Clone)]
pub struct ArchiveIndex {
    /// The pack archives
    pub archives: Vec<ArchiveRef>,
    /// The mapping from path checksum to archive membership
    pub files: Vec<(u32, ArchiveFileRef)>,
}

impl ArchiveIndex {
    /// A checksum is shadowed when the index maps it to an archive.
    pub open spec fn shadows(&self, crc: u32) -> bool {
        crc_find(self.files@, crc).is_some()
    }

    /// The empty index: no archives, nothing shadowed.
    pub fn empty() -> (r: ArchiveIndex)
        ensures
            r.archives@.len() == 0,
            r.files@.len() == 0,
    {
        ArchiveIndex { archives: Vec::new(), files: Vec::new() }
    }

    /// Look up the archive membership of a path checksum.
    pub fn get(&self, crc: u32) -> (r: Option<&ArchiveFileRef>)
        ensures
            match r {
                Some(m) => crc_find(self.files@, crc) == Some(*m),
                None => crc_find(self.files@, crc) == None::<ArchiveFileRef>,
            },
    {
        let n = self.files.len();
        let mut i: usize = 0;
        proof {
            assert(self.files@.skip(0) =~= self.files@);
        }
        while i < n
            invariant
                0 <= i <= n,
                n == self.files@.len(),
                crc_find(self.files@, crc) == crc_find(self.files@.skip(i as int), crc),
            decreases n - i,
        {
            proof {
                assert(self.files@.skip(i as int)[0] == self.files@[i as int]);
                assert(self.files@.skip(i as int).skip(1) =~= self.files@.skip(i + 1));
            }
            if self.files[i].0 == crc {
                return Some(&self.files[i].1);
            }
            i = i + 1;
        }
        proof {
            assert(self.files@.skip(n as int) =~= Seq::<(u32, ArchiveFileRef)>::empty());
        }
        None
    }
}

} // verus!
