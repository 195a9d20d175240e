//! The file rack: the blob-storage collaborator that holds uploaded files
//! and their thumbnails, reached only through store / fetch / delete
//! operations, plus a verified in-memory rack.

use vstd::prelude::*;

use crate::util::ErrOrigin;
use crate::util::PlainchantErr;

verus! {

/// An error whose origin is the file rack.
pub fn static_err(msg: &'static str) -> (r: PlainchantErr)
    ensures
        r.origin is FileRack,
        r.msg@ == msg@,
{
    PlainchantErr { origin: ErrOrigin::FileRack, msg: msg.to_owned() }
}

/// What a file store backend offers. File handling is best-effort from the
/// core's point of view, so the interface promises nothing; the in-memory
/// rack strengthens each operation with an exact contract.
pub trait FileRack: Sized {
    fn store_file(&mut self, file_id: &str, file: Vec<u8>) -> Result<(), PlainchantErr>;

    fn get_file(&self, file_id: &str) -> Result<Vec<u8>, PlainchantErr>;

    fn get_file_thumbnail(&self, file_id: &str) -> Result<Vec<u8>, PlainchantErr>;

    fn delete_file(&mut self, file_id: &str) -> Result<(), PlainchantErr>;
}

/// A file rack held in memory: a map from file id to the stored bytes.
pub struct MemFileRack {
    files: vstd::hash_map::StringHashMap<Vec<u8>>,
}

impl MemFileRack {
    /// The stored files, as a map from id to byte contents.
    pub closed spec fn files(&self) -> Map<Seq<char>, Seq<u8>> {
        self.files@.map_values(|v: Vec<u8>| v@)
    }

    pub fn new() -> (r: MemFileRack)
        ensures
            r.files() == Map::<Seq<char>, Seq<u8>>::empty(),
    {
        let r = MemFileRack { files: vstd::hash_map::StringHashMap::new() };
        proof {
            assert(r.files() =~= Map::<Seq<char>, Seq<u8>>::empty());
        }
        r
    }

    pub fn store_file(&mut self, file_id: &str, file: Vec<u8>) -> (r: Result<(), PlainchantErr>)
        ensures
            r is Ok,
            final(self).files() == old(self).files().insert(file_id@, file@),
    {
        self.files.insert(file_id.to_owned(), file);
        proof {
            assert(final(self).files() =~= old(self).files().insert(file_id@, file@));
        }
        Ok(())
    }

    pub fn get_file(&self, file_id: &str) -> (r: Result<Vec<u8>, PlainchantErr>)
        ensures
            r is Ok <==> self.files().contains_key(file_id@),
            r is Ok ==> r->Ok_0@ == self.files()[file_id@],
    {
        match self.files.get(file_id) {
            Some(v) => Ok(vstd::slice::slice_to_vec(v.as_slice())),
            None => Err(static_err("No stored file under that id")),
        }
    }

    /// The in-memory rack keeps no derived thumbnails: it hands back the
    /// stored file itself.
    pub fn get_file_thumbnail(&self, file_id: &str) -> (r: Result<Vec<u8>, PlainchantErr>)
        ensures
            r is Ok <==> self.files().contains_key(file_id@),
            r is Ok ==> r->Ok_0@ == self.files()[file_id@],
    {
        self.get_file(file_id)
    }

    pub fn delete_file(&mut self, file_id: &str) -> (r: Result<(), PlainchantErr>)
        ensures
            r is Ok <==> old(self).files().contains_key(file_id@),
            final(self).files() == old(self).files().remove(file_id@),
    {
        if self.files.contains_key(file_id) {
            self.files.remove(file_id);
            proof {
                assert(final(self).files() =~= old(self).files().remove(file_id@));
            }
            Ok(())
        } else {
            proof {
                assert(final(self).files() =~= old(self).files().remove(file_id@));
            }
            Err(static_err("No stored file under that id"))
        }
    }
}

impl FileRack for MemFileRack {
    fn store_file(&mut self, file_id: &str, file: Vec<u8>) -> Result<(), PlainchantErr> {
        self.store_file(file_id, file)
    }

    fn get_file(&self, file_id: &str) -> Result<Vec<u8>, PlainchantErr> {
        self.get_file(file_id)
    }

    fn get_file_thumbnail(&self, file_id: &str) -> Result<Vec<u8>, PlainchantErr> {
        self.get_file_thumbnail(file_id)
    }

    fn delete_file(&mut self, file_id: &str) -> Result<(), PlainchantErr> {
        self.delete_file(file_id)
    }
}

} // verus!
