//! The flat-file store's in-memory board table: board id, slug, title and
//! the next post number, with the counter allocation verified. Reading and
//! writing the backing files is the application shell's work.

use vstd::prelude::*;
use vstd::string::StringExecFns;

use crate::db;
use crate::util::PlainchantErr;

verus! {

/// A flat-file entity store's board table. Each entry is
/// `(board id, url, title, next post number)`.
#[derive(Debug)]
pub struct FSDatabase {
    root: String,
    boards_path: String,
    boards: Vec<(u64, String, String, u64)>,
}

impl FSDatabase {
    /// The board table rows.
    pub closed spec fn boards_view(&self) -> Seq<(u64, String, String, u64)> {
        self.boards@
    }

    /// The root directory this table was loaded from.
    pub closed spec fn root_view(&self) -> Seq<char> {
        self.root@
    }

    /// Build the table from an already-parsed boards file.
    pub fn from_parts(root: String, boards: Vec<(u64, String, String, u64)>) -> (r: FSDatabase)
        ensures
            r.boards_view() == boards@,
            r.root_view() == root@,
    {
        let boards_path = root.clone().concat("/boards");
        FSDatabase { root, boards_path, boards }
    }

    /// Hand out the first matching board's next post number and move its
    /// counter up by one, atomically with respect to this table.
    pub fn use_next_post_num(&mut self, board_id: u64) -> (r: Result<u64, PlainchantErr>)
        ensures
            r is Ok ==> exists|i: int|
                #![trigger old(self).boards_view()[i]]
                0 <= i < old(self).boards_view().len() && old(self).boards_view()[i].0 == board_id
                    && (forall|j: int|
                    0 <= j < i ==> (#[trigger] old(self).boards_view()[j]).0 != board_id) && old(self).boards_view()[i].3 < u64::MAX && r->Ok_0 == old(self).boards_view()[i].3
                    && final(self).boards_view() == old(self).boards_view().update(
                    i,
                    (
                        old(self).boards_view()[i].0,
                        old(self).boards_view()[i].1,
                        old(self).boards_view()[i].2,
                        (old(self).boards_view()[i].3 + 1) as u64,
                    ),
                ),
            r is Err ==> *final(self) == *old(self),
            (forall|i: int|
                0 <= i < old(self).boards_view().len() ==> (
                #[trigger] old(self).boards_view()[i]).0 != board_id) ==> r is Err,
            (exists|i: int|
                #![trigger old(self).boards_view()[i]]
                0 <= i < old(self).boards_view().len() && old(self).boards_view()[i].0 == board_id
                    && (forall|j: int|
                    0 <= j < i ==> (#[trigger] old(self).boards_view()[j]).0 != board_id) && old(
                    self,
                ).boards_view()[i].3 < u64::MAX) ==> r is Ok,
    {
        let mut i: usize = 0;
        while i < self.boards.len()
            invariant
                i <= self.boards@.len(),
                *self == *old(self),
                forall|j: int| 0 <= j < i ==> (#[trigger] self.boards@[j]).0 != board_id,
            decreases self.boards@.len() - i,
        {
            if self.boards[i].0 == board_id {
                let next = self.boards[i].3;
                if next == u64::MAX {
                    proof {
                        if exists|i2: int|
                            #![trigger old(self).boards_view()[i2]]
                            0 <= i2 < old(self).boards_view().len() && old(self).boards_view()[
                            i2].0 == board_id && (forall|j: int|
                            0 <= j < i2 ==> (#[trigger] old(self).boards_view()[j]).0 != board_id)
                            && old(self).boards_view()[i2].3 < u64::MAX {
                            let i2 = choose|i2: int|
                                #![trigger old(self).boards_view()[i2]]
                                0 <= i2 < old(self).boards_view().len() && old(self).boards_view()[
                                i2].0 == board_id && (forall|j: int|
                                0 <= j < i2 ==> (#[trigger] old(self).boards_view()[j]).0
                                    != board_id) && old(self).boards_view()[i2].3 < u64::MAX;
                            if i2 < i as int {
                                assert((#[trigger] self.boards@[i2]).0 != board_id);
                            } else if i2 > i as int {
                                assert((#[trigger] old(self).boards_view()[i as int]).0
                                    == board_id);
                            }
                            assert(false);
                        }
                    }
                    return Err(db::static_err("Post number space exhausted"));
                }
                let nt = (
                    self.boards[i].0,
                    self.boards[i].1.clone(),
                    self.boards[i].2.clone(),
                    next + 1,
                );
                proof {
                    assert((#[trigger] old(self).boards_view()[i as int]).0 == board_id);
                }
                self.boards.set(i, nt);
                proof {
                    assert(self.boards@ == old(self).boards_view().update(
                        i as int,
                        (
                            old(self).boards_view()[i as int].0,
                            old(self).boards_view()[i as int].1,
                            old(self).boards_view()[i as int].2,
                            (old(self).boards_view()[i as int].3 + 1) as u64,
                        ),
                    ));
                }
                return Ok(next);
            }
            i += 1;
        }
        proof {
            assert forall|j: int|
                0 <= j < old(self).boards_view().len() implies (
            #[trigger] old(self).boards_view()[j]).0 != board_id by {
                assert((#[trigger] self.boards@[j]).0 != board_id);
            }
        }
        Err(db::static_err("No such board"))
    }
}

} // verus!
