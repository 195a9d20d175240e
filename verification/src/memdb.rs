//! The verified in-memory entity store: a relational store whose tables are
//! vectors of rows, every operation an atomic transition of the abstract
//! [`StoreView`] state, with the store invariant maintained throughout.

use vstd::prelude::*;

use crate::db::AnyPost;
use crate::db::StoreView;
use crate::db::Thread;
use crate::db::board_of;
use crate::db::has_board;
use crate::db::has_original;
use crate::db::has_post;
use crate::db::has_reply;
use crate::db::lemma_board_of_unique;
use crate::db::lemma_original_of_unique;
use crate::db::lemma_reply_of_unique;
use crate::db::original_of;
use crate::db::reply_of;
use crate::db::bans_distinct;
use crate::db::counts_consistent;
use crate::db::posts_well_keyed;
use crate::db::reply_count;
use crate::db::img_reply_count;
use crate::db::static_err;
use crate::db::store_inv;
use crate::site::Ban;
use crate::site::Board;
use crate::site::Catalog;
use crate::site::Original;
use crate::site::Reply;
use crate::site::Site;
use crate::util::PlainchantErr;

verus! {

/// An entity store held entirely in memory. Every operation is verified
/// against the transition contracts of [`crate::db::Database`], with exact
/// success conditions on top.
pub struct MemDatabase {
    site: Site,
    boards: Vec<Board>,
    originals: Vec<Original>,
    replies: Vec<Reply>,
    bans: Vec<Ban>,
}

impl View for MemDatabase {
    type V = StoreView;

    closed spec fn view(&self) -> StoreView {
        StoreView {
            site: self.site,
            boards: self.boards@,
            originals: self.originals@,
            replies: self.replies@,
            bans: self.bans@,
        }
    }
}

fn find_board(boards: &Vec<Board>, id: u64) -> (r: Option<usize>)
    ensures
        match r {
            Some(i) => i < boards@.len() && boards@[i as int].id == id,
            None => forall|j: int| 0 <= j < boards@.len() ==> (#[trigger] boards@[j]).id != id,
        },
{
    let mut i: usize = 0;
    while i < boards.len()
        invariant
            i <= boards@.len(),
            forall|j: int| 0 <= j < i ==> (#[trigger] boards@[j]).id != id,
        decreases boards@.len() - i,
    {
        if boards[i].id == id {
            return Some(i);
        }
        i += 1;
    }
    None
}

fn find_original(originals: &Vec<Original>, board_id: u64, post_num: u64) -> (r: Option<usize>)
    ensures
        match r {
            Some(i) => i < originals@.len() && originals@[i as int].board_id == board_id
                && originals@[i as int].post_num == post_num,
            None => forall|j: int|
                0 <= j < originals@.len() ==> !((#[trigger] originals@[j]).board_id == board_id
                    && originals@[j].post_num == post_num),
        },
{
    let mut i: usize = 0;
    while i < originals.len()
        invariant
            i <= originals@.len(),
            forall|j: int|
                0 <= j < i ==> !((#[trigger] originals@[j]).board_id == board_id
                    && originals@[j].post_num == post_num),
        decreases originals@.len() - i,
    {
        if originals[i].board_id == board_id && originals[i].post_num == post_num {
            return Some(i);
        }
        i += 1;
    }
    None
}

fn find_reply(replies: &Vec<Reply>, board_id: u64, post_num: u64) -> (r: Option<usize>)
    ensures
        match r {
            Some(i) => i < replies@.len() && replies@[i as int].board_id == board_id && replies@[i
                as int].post_num == post_num,
            None => forall|j: int|
                0 <= j < replies@.len() ==> !((#[trigger] replies@[j]).board_id == board_id
                    && replies@[j].post_num == post_num),
        },
{
    let mut i: usize = 0;
    while i < replies.len()
        invariant
            i <= replies@.len(),
            forall|j: int|
                0 <= j < i ==> !((#[trigger] replies@[j]).board_id == board_id
                    && replies@[j].post_num == post_num),
        decreases replies@.len() - i,
    {
        if replies[i].board_id == board_id && replies[i].post_num == post_num {
            return Some(i);
        }
        i += 1;
    }
    None
}

impl MemDatabase {
    #[verifier::type_invariant]
    spec fn wf(&self) -> bool {
        store_inv(self@)
    }

    /// A store with no boards, posts or bans; the swap target while a
    /// mutation is in flight.
    fn blank() -> (r: MemDatabase)
        ensures
            r@ == (StoreView {
                site: r@.site,
                boards: Seq::<Board>::empty(),
                originals: Seq::<Original>::empty(),
                replies: Seq::<Reply>::empty(),
                bans: Seq::<Ban>::empty(),
            }),
    {
        MemDatabase {
            site: Site { name: String::new(), description: String::new(), contact: None, url: None },
            boards: Vec::new(),
            originals: Vec::new(),
            replies: Vec::new(),
            bans: Vec::new(),
        }
    }

    /// An empty store carrying the given site record.
    pub fn new(site: Site) -> (r: MemDatabase)
        ensures
            r@ == (StoreView {
                site,
                boards: Seq::<Board>::empty(),
                originals: Seq::<Original>::empty(),
                replies: Seq::<Reply>::empty(),
                bans: Seq::<Ban>::empty(),
            }),
            store_inv(r@),
    {
        MemDatabase {
            site,
            boards: Vec::new(),
            originals: Vec::new(),
            replies: Vec::new(),
            bans: Vec::new(),
        }
    }

    pub fn get_site(&self) -> (r: Result<Site, PlainchantErr>)
        ensures
            r is Ok,
            r->Ok_0 == self@.site,
    {
        Ok(self.site.clone())
    }

    pub fn set_site(&mut self, site: Site) -> (r: Result<(), PlainchantErr>)
        ensures
            r is Ok,
            final(self)@ == (StoreView { site, ..old(self)@ }),
    {
        proof {
            use_type_invariant(&*self);
        }
        let mut this = MemDatabase::blank();
        core::mem::swap(self, &mut this);
        let MemDatabase { site: _, boards, originals, replies, bans } = this;
        proof {
            crate::db::lemma_store_inv_rows_equal(
                old(self)@,
                StoreView {
                    site,
                    boards: boards@,
                    originals: originals@,
                    replies: replies@,
                    bans: bans@,
                },
            );
        }
        *self = MemDatabase { site, boards, originals, replies, bans };
        Ok(())
    }

    pub fn get_boards(&self) -> (r: Result<Vec<Board>, PlainchantErr>)
        ensures
            r is Ok,
            r->Ok_0@ == self@.boards,
    {
        let mut out: Vec<Board> = Vec::new();
        let mut i: usize = 0;
        while i < self.boards.len()
            invariant
                i <= self.boards@.len(),
                out@ == self.boards@.take(i as int),
            decreases self.boards@.len() - i,
        {
            out.push(self.boards[i].clone());
            proof {
                assert(self.boards@.take(i + 1) =~= self.boards@.take(i as int).push(
                    self.boards@[i as int],
                ));
            }
            i += 1;
        }
        proof {
            assert(self.boards@.take(self.boards@.len() as int) =~= self.boards@);
        }
        Ok(out)
    }

    pub fn get_board(&self, board_id: u64) -> (r: Result<Board, PlainchantErr>)
        ensures
            r is Ok <==> has_board(self@, board_id),
            r is Ok ==> r->Ok_0 == board_of(self@, board_id),
    {
        proof {
            use_type_invariant(self);
        }
        match find_board(&self.boards, board_id) {
            Some(i) => {
                proof {
                    lemma_board_of_unique(self@, i as int);
                }
                Ok(self.boards[i].clone())
            },
            None => Err(static_err("No such board")),
        }
    }

    pub fn get_original(&self, board_id: u64, post_num: u64) -> (r: Result<
        Original,
        PlainchantErr,
    >)
        ensures
            r is Ok <==> has_original(self@, board_id, post_num),
            r is Ok ==> r->Ok_0 == original_of(self@, board_id, post_num),
    {
        proof {
            use_type_invariant(self);
        }
        match find_original(&self.originals, board_id, post_num) {
            Some(i) => {
                proof {
                    lemma_original_of_unique(self@, i as int);
                }
                Ok(self.originals[i].clone())
            },
            None => Err(static_err("No such original post")),
        }
    }

    pub fn get_reply(&self, board_id: u64, post_num: u64) -> (r: Result<Reply, PlainchantErr>)
        ensures
            r is Ok <==> has_reply(self@, board_id, post_num),
            r is Ok ==> r->Ok_0 == reply_of(self@, board_id, post_num),
    {
        proof {
            use_type_invariant(self);
        }
        match find_reply(&self.replies, board_id, post_num) {
            Some(i) => {
                proof {
                    lemma_reply_of_unique(self@, i as int);
                }
                Ok(self.replies[i].clone())
            },
            None => Err(static_err("No such reply post")),
        }
    }

    pub fn get_post(&self, board_id: u64, post_num: u64) -> (r: Result<AnyPost, PlainchantErr>)
        ensures
            r is Ok <==> has_post(self@, board_id, post_num),
            r is Ok ==> match r->Ok_0 {
                AnyPost::Original(o) => has_original(self@, board_id, post_num) && o == original_of(
                    self@,
                    board_id,
                    post_num,
                ),
                AnyPost::Reply(rp) => has_reply(self@, board_id, post_num) && rp == reply_of(
                    self@,
                    board_id,
                    post_num,
                ),
            },
    {
        match self.get_original(board_id, post_num) {
            Ok(o) => Ok(AnyPost::Original(o)),
            Err(_) => match self.get_reply(board_id, post_num) {
                Ok(rp) => Ok(AnyPost::Reply(rp)),
                Err(e) => Err(e),
            },
        }
    }

    pub fn get_bans(&self) -> (r: Result<Vec<Ban>, PlainchantErr>)
        ensures
            r is Ok,
            r->Ok_0@ == self@.bans,
    {
        let mut out: Vec<Ban> = Vec::new();
        let mut i: usize = 0;
        while i < self.bans.len()
            invariant
                i <= self.bans@.len(),
                out@ == self.bans@.take(i as int),
            decreases self.bans@.len() - i,
        {
            out.push(self.bans[i].clone());
            proof {
                assert(self.bans@.take(i + 1) =~= self.bans@.take(i as int).push(
                    self.bans@[i as int],
                ));
            }
            i += 1;
        }
        proof {
            assert(self.bans@.take(self.bans@.len() as int) =~= self.bans@);
        }
        Ok(out)
    }

    pub fn create_board(&mut self, board: Board) -> (r: Result<(), PlainchantErr>)
        ensures
            r is Ok <==> !has_board(old(self)@, board.id),
            r is Ok ==> crate::db::create_board_ok(old(self)@, final(self)@, board),
            r is Err ==> final(self)@ == old(self)@,
    {
        proof {
            use_type_invariant(&*self);
        }
        let mut this = MemDatabase::blank();
        core::mem::swap(self, &mut this);
        let MemDatabase { site, mut boards, originals, replies, bans } = this;
        let ghost pre = StoreView {
            site: site,
            boards: boards@,
            originals: originals@,
            replies: replies@,
            bans: bans@,
        };
        proof {
            assert(pre == old(self)@);
        }
        match find_board(&boards, board.id) {
            Some(i) => {
                proof {
                    assert(has_board(old(self)@, board.id)) by {
                        assert((#[trigger] old(self)@.boards[i as int]).id == board.id);
                    }
                    crate::db::lemma_store_inv_rows_equal(old(self)@, pre);
                }
                *self = MemDatabase { site, boards, originals, replies, bans };
                Err(static_err("Board id already in use"))
            },
            None => {
                proof {
                    assert(!has_board(old(self)@, board.id)) by {
                        if has_board(old(self)@, board.id) {
                            let j = choose|j: int|
                                0 <= j < old(self)@.boards.len() && (
                                #[trigger] old(self)@.boards[j]).id == board.id;
                            assert((#[trigger] boards@[j]).id == board.id);
                        }
                    }
                }
                let ghost nb = board;
                boards.push(board);
                let ghost post = StoreView {
                    site: pre.site,
                    boards: boards@,
                    originals: pre.originals,
                    replies: pre.replies,
                    bans: pre.bans,
                };
                proof {
                    crate::db::lemma_board_push(pre, post, nb);
                    assert(posts_well_keyed(post)) by {
                        assert forall|i: int| 0 <= i < post.originals.len() implies has_board(
                            post,
                            (#[trigger] post.originals[i]).board_id,
                        ) && post.originals[i].post_num < board_of(
                            post,
                            post.originals[i].board_id,
                        ).next_post_num by {
                            assert(has_board(pre, (#[trigger] pre.originals[i]).board_id));
                        }
                        assert forall|i: int| 0 <= i < post.replies.len() implies has_board(
                            post,
                            (#[trigger] post.replies[i]).board_id,
                        ) && post.replies[i].post_num < board_of(
                            post,
                            post.replies[i].board_id,
                        ).next_post_num && has_original(
                            post,
                            post.replies[i].board_id,
                            post.replies[i].orig_num,
                        ) by {
                            assert(has_board(pre, (#[trigger] pre.replies[i]).board_id));
                            assert(has_original(pre, pre.replies[i].board_id, pre.replies[i].orig_num));
                            let j = choose|j: int|
                                0 <= j < pre.originals.len() && (#[trigger] pre.originals[j]).board_id
                                    == pre.replies[i].board_id && pre.originals[j].post_num
                                    == pre.replies[i].orig_num;
                            assert((#[trigger] post.originals[j]).board_id == post.replies[i].board_id
                                && post.originals[j].post_num == post.replies[i].orig_num);
                        }
                    }
                    assert(counts_consistent(post)) by {
                        assert forall|i: int| 0 <= i < post.originals.len() implies (
                        #[trigger] post.originals[i]).replies == reply_count(
                            post,
                            post.originals[i].board_id,
                            post.originals[i].post_num,
                        ) && post.originals[i].img_replies == img_reply_count(
                            post,
                            post.originals[i].board_id,
                            post.originals[i].post_num,
                        ) by {
                            assert((#[trigger] pre.originals[i]).replies == reply_count(
                                pre,
                                pre.originals[i].board_id,
                                pre.originals[i].post_num,
                            ));
                        }
                    }
                    assert(bans_distinct(post));
                }
                *self = MemDatabase { site, boards, originals, replies, bans };
                Ok(())
            },
        }
    }

    fn max_ban_id(bans: &Vec<Ban>) -> (r: u64)
        ensures
            forall|j: int| 0 <= j < bans@.len() ==> (#[trigger] bans@[j]).id <= r,
            r != 0 ==> exists|j: int| 0 <= j < bans@.len() && (#[trigger] bans@[j]).id == r,
    {
        let mut r: u64 = 0;
        let mut i: usize = 0;
        while i < bans.len()
            invariant
                i <= bans@.len(),
                forall|j: int| 0 <= j < i ==> (#[trigger] bans@[j]).id <= r,
                r != 0 ==> exists|j: int| 0 <= j < i && (#[trigger] bans@[j]).id == r,
            decreases bans@.len() - i,
        {
            if bans[i].id > r {
                r = bans[i].id;
            }
            i += 1;
        }
        r
    }

    pub fn create_ban(&mut self, ban: Ban) -> (r: Result<(), PlainchantErr>)
        ensures
            r is Ok <==> (forall|i: int|
                0 <= i < old(self)@.bans.len() ==> (#[trigger] old(self)@.bans[i]).id < u64::MAX),
            r is Ok ==> crate::db::create_ban_ok(old(self)@, final(self)@, ban),
            r is Err ==> final(self)@ == old(self)@,
    {
        proof {
            use_type_invariant(&*self);
        }
        let mut this = MemDatabase::blank();
        core::mem::swap(self, &mut this);
        let MemDatabase { site, boards, originals, replies, mut bans } = this;
        let ghost pre = StoreView {
            site: site,
            boards: boards@,
            originals: originals@,
            replies: replies@,
            bans: bans@,
        };
        proof {
            assert(pre == old(self)@);
        }
        let top = MemDatabase::max_ban_id(&bans);
        proof {
            assert(bans@ == old(self)@.bans);
            if top == u64::MAX {
                let j = choose|j: int| 0 <= j < bans@.len() && (#[trigger] bans@[j]).id == top;
                assert((#[trigger] old(self)@.bans[j]).id == u64::MAX);
            } else {
                assert forall|i2: int| 0 <= i2 < old(self)@.bans.len() implies (
                #[trigger] old(self)@.bans[i2]).id < u64::MAX by {
                    assert((#[trigger] bans@[i2]).id <= top);
                }
            }
        }
        if top == u64::MAX {
            proof {
                crate::db::lemma_store_inv_rows_equal(old(self)@, pre);
            }
            *self = MemDatabase { site, boards, originals, replies, bans };
            Err(static_err("Ban id space exhausted"))
        } else {
            let row = Ban { id: top + 1, ip: ban.ip, time_expires: ban.time_expires };
            let ghost rowg = row;
            bans.push(row);
            let ghost post = StoreView {
                site: pre.site,
                boards: pre.boards,
                originals: pre.originals,
                replies: pre.replies,
                bans: bans@,
            };
            proof {
                crate::db::lemma_store_posts_transfer(pre, post);
                assert(bans_distinct(post)) by {
                    let m = pre.bans.len() as int;
                    assert(forall|j: int| 0 <= j < m ==> (#[trigger] post.bans[j]) == pre.bans[j]);
                    assert(post.bans[m] == rowg);
                }
                assert(post.bans == pre.bans.push(
                    Ban { id: (top + 1) as u64, ip: ban.ip, time_expires: ban.time_expires },
                ));
            }
            *self = MemDatabase { site, boards, originals, replies, bans };
            Ok(())
        }
    }

    pub fn delete_bans(&mut self, ip: &str) -> (r: Result<(), PlainchantErr>)
        ensures
            r is Ok,
            crate::db::delete_bans_ok(old(self)@, final(self)@, ip@),
    {
        proof {
            use_type_invariant(&*self);
        }
        let mut this = MemDatabase::blank();
        core::mem::swap(self, &mut this);
        let MemDatabase { site, boards, originals, replies, bans } = this;
        let ghost pre = StoreView {
            site: site,
            boards: boards@,
            originals: originals@,
            replies: replies@,
            bans: bans@,
        };
        proof {
            assert(pre == old(self)@);
        }
        let mut kept: Vec<Ban> = Vec::new();
        let mut i: usize = 0;
        while i < bans.len()
            invariant
                i <= bans@.len(),
                forall|j1: int, j2: int|
                    0 <= j1 < j2 < kept@.len() ==> (#[trigger] kept@[j1]).id != (
                    #[trigger] kept@[j2]).id,
                forall|j: int|
                    0 <= j < kept@.len() ==> pre.bans.take(i as int).contains(#[trigger] kept@[j])
                        && kept@[j].ip@ != ip@,
                forall|k: int|
                    0 <= k < i && (#[trigger] bans@[k]).ip@ != ip@ ==> kept@.contains(bans@[k]),
                kept@ == crate::db::bans_without(pre.bans.take(i as int), ip@),
                bans_distinct(pre),
                bans@ == pre.bans,
            decreases bans@.len() - i,
        {
            let ghost old_kept = kept@;
            let same_ip = crate::util::str_eq(bans[i].ip.as_str(), ip);
            if !same_ip {
                kept.push(bans[i].clone());
            }
            proof {
                assert(pre.bans.take(i + 1) =~= pre.bans.take(i as int).push(bans@[i as int]));
                crate::counting::lemma_filter_push(
                    pre.bans.take(i as int),
                    |b: Ban| b.ip@ != ip@,
                    bans@[i as int],
                );
                assert forall|b: Ban| #[trigger] pre.bans.take(i as int).contains(b) implies pre
                    .bans.take(i + 1).contains(b) by {
                    let k = choose|k: int|
                        0 <= k < pre.bans.take(i as int).len() && pre.bans.take(i as int)[k] == b;
                    assert(pre.bans.take(i + 1)[k] == b);
                }
                if !same_ip {
                    assert(kept@[old_kept.len() as int] == bans@[i as int]);
                    assert(pre.bans.take(i + 1)[i as int] == bans@[i as int]);
                    assert forall|j1: int, j2: int| 0 <= j1 < j2 < kept@.len() implies (
                    #[trigger] kept@[j1]).id != (#[trigger] kept@[j2]).id by {
                        if j2 == old_kept.len() {
                            assert(pre.bans.take(i as int).contains(old_kept[j1]));
                            let k1 = choose|k: int|
                                0 <= k < pre.bans.take(i as int).len() && pre.bans.take(
                                    i as int,
                                )[k] == old_kept[j1];
                            assert(kept@[j1] == pre.bans[k1]);
                            assert((#[trigger] pre.bans[k1]).id != (
                            #[trigger] pre.bans[i as int]).id);
                        }
                    }
                }
                assert forall|j: int| 0 <= j < kept@.len() implies pre.bans.take(i + 1).contains(
                    #[trigger] kept@[j],
                ) && kept@[j].ip@ != ip@ by {
                    if j < old_kept.len() {
                        assert(kept@[j] == old_kept[j]);
                        assert(pre.bans.take(i as int).contains(old_kept[j]));
                    } else {
                        assert(kept@[j] == bans@[i as int]);
                        assert(pre.bans.take(i + 1)[i as int] == kept@[j]);
                    }
                }
                assert forall|k: int|
                    0 <= k < i + 1 && (#[trigger] bans@[k]).ip@ != ip@ implies kept@.contains(
                    bans@[k],
                ) by {
                    if k < i {
                        assert(old_kept.contains(bans@[k]));
                        let j = choose|j: int| 0 <= j < old_kept.len() && old_kept[j] == bans@[k];
                        assert(kept@[j] == bans@[k]);
                    } else {
                        assert(kept@[old_kept.len() as int] == bans@[k]);
                    }
                }
            }
            i += 1;
        }
        proof {
            assert(pre.bans.take(bans@.len() as int) =~= pre.bans);
            assert(kept@ == crate::db::bans_without(pre.bans, ip@));
        }
        let ghost post = StoreView {
            site: pre.site,
            boards: pre.boards,
            originals: pre.originals,
            replies: pre.replies,
            bans: kept@,
        };
        proof {
            crate::db::lemma_store_posts_transfer(pre, post);
            assert forall|b: Ban| #[trigger] post.bans.contains(b) implies pre.bans.contains(b)
                && b.ip@ != ip@ by {
                let j = choose|j: int| 0 <= j < post.bans.len() && post.bans[j] == b;
                assert(pre.bans.take(bans@.len() as int).contains(kept@[j]));
            }
            assert forall|b: Ban| pre.bans.contains(b) && b.ip@ != ip@ implies
                #[trigger] post.bans.contains(b) by {
                let k = choose|k: int| 0 <= k < pre.bans.len() && pre.bans[k] == b;
                assert(kept@.contains(bans@[k]));
            }
        }
        *self = MemDatabase { site, boards, originals, replies, bans: kept };
        Ok(())
    }

    pub fn create_original(&mut self, orig: Original) -> (r: Result<u64, PlainchantErr>)
        ensures
            r is Ok <==> has_board(old(self)@, orig.board_id) && board_of(
                old(self)@,
                orig.board_id,
            ).next_post_num < u64::MAX,
            r is Ok ==> crate::db::create_original_ok(old(self)@, final(self)@, orig, r->Ok_0),
            r is Err ==> final(self)@ == old(self)@,
    {
        proof {
            use_type_invariant(&*self);
        }
        let mut this = MemDatabase::blank();
        core::mem::swap(self, &mut this);
        let MemDatabase { site, mut boards, mut originals, replies, bans } = this;
        let ghost pre = StoreView {
            site: site,
            boards: boards@,
            originals: originals@,
            replies: replies@,
            bans: bans@,
        };
        proof {
            assert(pre == old(self)@);
        }
        match find_board(&boards, orig.board_id) {
            None => {
                proof {
                    crate::db::lemma_store_inv_rows_equal(old(self)@, pre);
                }
                *self = MemDatabase { site, boards, originals, replies, bans };
                Err(static_err("No such board"))
            },
            Some(bi) => {
                proof {
                    lemma_board_of_unique(pre, bi as int);
                }
                if boards[bi].next_post_num == u64::MAX {
                    proof {
                        crate::db::lemma_store_inv_rows_equal(old(self)@, pre);
                    }
                    *self = MemDatabase { site, boards, originals, replies, bans };
                    Err(static_err("Post number space exhausted"))
                } else {
                    let n = boards[bi].next_post_num;
                    let mut nb = boards[bi].clone();
                    nb.next_post_num = n + 1;
                    let ghost nbg = nb;
                    boards.set(bi, nb);
                    let row = Original { post_num: n, replies: 0, img_replies: 0, ..orig };
                    let ghost rowg = row;
                    originals.push(row);
                    let ghost post = StoreView {
                        site: pre.site,
                        boards: boards@,
                        originals: originals@,
                        replies: pre.replies,
                        bans: pre.bans,
                    };
                    proof {
                        let b = rowg.board_id;
                        crate::db::lemma_board_update(pre, post, bi as int, nbg);
                        assert(!has_original(pre, b, n)) by {
                            if has_original(pre, b, n) {
                                let j = choose|j: int|
                                    0 <= j < pre.originals.len() && (
                                    #[trigger] pre.originals[j]).board_id == b
                                        && pre.originals[j].post_num == n;
                                assert(pre.originals[j].post_num < board_of(
                                    pre,
                                    b,
                                ).next_post_num);
                            }
                        }
                        assert(!has_reply(pre, b, n)) by {
                            if has_reply(pre, b, n) {
                                let j = choose|j: int|
                                    0 <= j < pre.replies.len() && (
                                    #[trigger] pre.replies[j]).board_id == b
                                        && pre.replies[j].post_num == n;
                                assert(pre.replies[j].post_num < board_of(pre, b).next_post_num);
                            }
                        }
                        crate::db::lemma_original_push(pre, post, rowg);
                        assert(bans_distinct(post)) by {
                            assert(forall|i1: int, i2: int|
                                0 <= i1 < i2 < post.bans.len() ==> (#[trigger] post.bans[i1]).id
                                    != (#[trigger] post.bans[i2]).id) by {
                                assert(forall|i1: int|
                                    0 <= i1 < post.bans.len() ==> (#[trigger] post.bans[i1])
                                        == pre.bans[i1]);
                            }
                        }
                        assert(posts_well_keyed(post)) by {
                            let m = pre.originals.len() as int;
                            assert forall|i: int| 0 <= i < post.originals.len() implies has_board(
                                post,
                                (#[trigger] post.originals[i]).board_id,
                            ) && post.originals[i].post_num < board_of(
                                post,
                                post.originals[i].board_id,
                            ).next_post_num by {
                                if i < m {
                                    assert(has_board(pre, (#[trigger] pre.originals[i]).board_id));
                                    if pre.originals[i].board_id == b {
                                        assert(board_of(post, b).next_post_num == n + 1);
                                    }
                                } else {
                                    assert(post.originals[i] == rowg);
                                }
                            }
                            assert forall|i: int| 0 <= i < post.replies.len() implies has_board(
                                post,
                                (#[trigger] post.replies[i]).board_id,
                            ) && post.replies[i].post_num < board_of(
                                post,
                                post.replies[i].board_id,
                            ).next_post_num && has_original(
                                post,
                                post.replies[i].board_id,
                                post.replies[i].orig_num,
                            ) by {
                                assert(has_board(pre, (#[trigger] pre.replies[i]).board_id));
                                assert(has_original(
                                    pre,
                                    pre.replies[i].board_id,
                                    pre.replies[i].orig_num,
                                ));
                                if pre.replies[i].board_id == b {
                                    assert(board_of(post, b).next_post_num == n + 1);
                                }
                            }
                        }
                        assert(counts_consistent(post)) by {
                            let m = pre.originals.len() as int;
                            assert forall|i: int| 0 <= i < post.originals.len() implies (
                            #[trigger] post.originals[i]).replies == reply_count(
                                post,
                                post.originals[i].board_id,
                                post.originals[i].post_num,
                            ) && post.originals[i].img_replies == img_reply_count(
                                post,
                                post.originals[i].board_id,
                                post.originals[i].post_num,
                            ) by {
                                if i < m {
                                    assert((#[trigger] pre.originals[i]).replies == reply_count(
                                        pre,
                                        pre.originals[i].board_id,
                                        pre.originals[i].post_num,
                                    ));
                                } else {
                                    assert(post.originals[i] == rowg);
                                    assert forall|k: int| 0 <= k < post.replies.len() implies !(
                                    crate::db::reply_to_pred(b, n)(#[trigger] post.replies[k])) by {
                                        if post.replies[k].board_id == b && post.replies[k].orig_num
                                            == n {
                                            assert(has_original(
                                                pre,
                                                pre.replies[k].board_id,
                                                pre.replies[k].orig_num,
                                            ));
                                            assert(has_original(pre, b, n));
                                        }
                                    }
                                    crate::counting::lemma_count_zero(
                                        post.replies,
                                        crate::db::reply_to_pred(b, n),
                                    );
                                    assert forall|k: int| 0 <= k < post.replies.len() implies !(
                                    crate::db::img_reply_to_pred(b, n)(
                                        #[trigger] post.replies[k],
                                    )) by {
                                        if post.replies[k].board_id == b && post.replies[k].orig_num
                                            == n {
                                            assert(has_original(
                                                pre,
                                                pre.replies[k].board_id,
                                                pre.replies[k].orig_num,
                                            ));
                                            assert(has_original(pre, b, n));
                                        }
                                    }
                                    crate::counting::lemma_count_zero(
                                        post.replies,
                                        crate::db::img_reply_to_pred(b, n),
                                    );
                                }
                            }
                        }
                        assert(crate::db::create_original_ok(pre, post, orig, n));
                    }
                    *self = MemDatabase { site, boards, originals, replies, bans };
                    Ok(n)
                }
            },
        }
    }

    pub fn create_reply(&mut self, reply: Reply) -> (r: Result<u64, PlainchantErr>)
        ensures
            r is Ok <==> has_board(old(self)@, reply.board_id) && board_of(
                old(self)@,
                reply.board_id,
            ).next_post_num < u64::MAX && has_original(old(self)@, reply.board_id, reply.orig_num)
                && original_of(old(self)@, reply.board_id, reply.orig_num).replies < u16::MAX && (
            reply.file_id is Some ==> original_of(
                old(self)@,
                reply.board_id,
                reply.orig_num,
            ).img_replies < u16::MAX),
            r is Ok ==> crate::db::create_reply_ok(old(self)@, final(self)@, reply, r->Ok_0),
            r is Err ==> final(self)@ == old(self)@,
    {
        proof {
            use_type_invariant(&*self);
        }
        let mut this = MemDatabase::blank();
        core::mem::swap(self, &mut this);
        let MemDatabase { site, mut boards, mut originals, mut replies, bans } = this;
        let ghost pre = StoreView {
            site: site,
            boards: boards@,
            originals: originals@,
            replies: replies@,
            bans: bans@,
        };
        proof {
            assert(pre == old(self)@);
        }
        let bi = match find_board(&boards, reply.board_id) {
            Some(bi) => bi,
            None => {
                proof {
                    crate::db::lemma_store_inv_rows_equal(old(self)@, pre);
                }
                *self = MemDatabase { site, boards, originals, replies, bans };
                return Err(static_err("No such board"));
            },
        };
        proof {
            lemma_board_of_unique(pre, bi as int);
        }
        if boards[bi].next_post_num == u64::MAX {
            proof {
                crate::db::lemma_store_inv_rows_equal(old(self)@, pre);
            }
            *self = MemDatabase { site, boards, originals, replies, bans };
            return Err(static_err("Post number space exhausted"));
        }
        let oi = match find_original(&originals, reply.board_id, reply.orig_num) {
            Some(oi) => oi,
            None => {
                proof {
                    crate::db::lemma_store_inv_rows_equal(old(self)@, pre);
                }
                *self = MemDatabase { site, boards, originals, replies, bans };
                return Err(static_err("Thread does not exist"));
            },
        };
        proof {
            lemma_original_of_unique(pre, oi as int);
        }
        let has_file = reply.file_id.is_some();
        if originals[oi].replies == u16::MAX || (has_file && originals[oi].img_replies
            == u16::MAX) {
            proof {
                crate::db::lemma_store_inv_rows_equal(old(self)@, pre);
            }
            *self = MemDatabase { site, boards, originals, replies, bans };
            return Err(static_err("Reply counter exhausted"));
        }
        let n = boards[bi].next_post_num;
        let bump_limit = boards[bi].bump_limit;
        let mut nb = boards[bi].clone();
        nb.next_post_num = n + 1;
        let ghost nbg = nb;
        boards.set(bi, nb);
        let mut parent = originals[oi].clone();
        let ghost old_parent = parent;
        parent.replies = parent.replies + 1;
        if has_file {
            parent.img_replies = parent.img_replies + 1;
        }
        if parent.replies <= bump_limit {
            parent.bump_time = reply.time;
        }
        let ghost npg = parent;
        originals.set(oi, parent);
        let row = Reply { post_num: n, ..reply };
        let ghost rowg = row;
        replies.push(row);
        let ghost post = StoreView {
            site: pre.site,
            boards: boards@,
            originals: originals@,
            replies: replies@,
            bans: pre.bans,
        };
        proof {
            let b = reply.board_id;
            let t = reply.orig_num;
            assert(npg == crate::db::parent_after_reply(old_parent, bump_limit, reply.time, has_file));
            crate::db::lemma_board_update(pre, post, bi as int, nbg);
            let mid = StoreView {
                site: pre.site,
                boards: post.boards,
                originals: post.originals,
                replies: pre.replies,
                bans: pre.bans,
            };
            crate::db::lemma_original_update(pre, mid, oi as int, npg);
            assert(!has_original(pre, b, n)) by {
                if has_original(pre, b, n) {
                    let j = choose|j: int|
                        0 <= j < pre.originals.len() && (#[trigger] pre.originals[j]).board_id == b
                            && pre.originals[j].post_num == n;
                    assert(pre.originals[j].post_num < board_of(pre, b).next_post_num);
                }
            }
            assert(!has_reply(pre, b, n)) by {
                if has_reply(pre, b, n) {
                    let j = choose|j: int|
                        0 <= j < pre.replies.len() && (#[trigger] pre.replies[j]).board_id == b
                            && pre.replies[j].post_num == n;
                    assert(pre.replies[j].post_num < board_of(pre, b).next_post_num);
                }
            }
            crate::db::lemma_reply_push(mid, post, rowg);
            assert(bans_distinct(post));
            assert(posts_well_keyed(post)) by {
                let m = pre.originals.len() as int;
                assert forall|i: int| 0 <= i < post.originals.len() implies has_board(
                    post,
                    (#[trigger] post.originals[i]).board_id,
                ) && post.originals[i].post_num < board_of(
                    post,
                    post.originals[i].board_id,
                ).next_post_num by {
                    assert(post.originals[i] == if i == oi as int {
                        npg
                    } else {
                        pre.originals[i]
                    });
                    assert(has_board(pre, (#[trigger] pre.originals[i]).board_id));
                    if pre.originals[i].board_id == b {
                        assert(board_of(post, b).next_post_num == n + 1);
                    }
                }
                assert forall|i: int| 0 <= i < post.replies.len() implies has_board(
                    post,
                    (#[trigger] post.replies[i]).board_id,
                ) && post.replies[i].post_num < board_of(
                    post,
                    post.replies[i].board_id,
                ).next_post_num && has_original(
                    post,
                    post.replies[i].board_id,
                    post.replies[i].orig_num,
                ) by {
                    let k = pre.replies.len() as int;
                    if i < k {
                        assert(post.replies[i] == pre.replies[i]);
                        assert(has_board(pre, (#[trigger] pre.replies[i]).board_id));
                        assert(has_original(pre, pre.replies[i].board_id, pre.replies[i].orig_num));
                        if pre.replies[i].board_id == b {
                            assert(board_of(post, b).next_post_num == n + 1);
                        }
                    } else {
                        assert(post.replies[i] == rowg);
                        assert(has_original(pre, b, t));
                        assert(has_original(post, b, t));
                    }
                }
            }
            assert(counts_consistent(post)) by {
                assert forall|i: int| 0 <= i < post.originals.len() implies (
                #[trigger] post.originals[i]).replies == reply_count(
                    post,
                    post.originals[i].board_id,
                    post.originals[i].post_num,
                ) && post.originals[i].img_replies == img_reply_count(
                    post,
                    post.originals[i].board_id,
                    post.originals[i].post_num,
                ) by {
                    let ob = post.originals[i].board_id;
                    let on = post.originals[i].post_num;
                    assert((#[trigger] pre.originals[i]).replies == reply_count(
                        pre,
                        pre.originals[i].board_id,
                        pre.originals[i].post_num,
                    ));
                    crate::counting::lemma_count_push(
                        pre.replies,
                        crate::db::reply_to_pred(ob, on),
                        rowg,
                    );
                    crate::counting::lemma_count_push(
                        pre.replies,
                        crate::db::img_reply_to_pred(ob, on),
                        rowg,
                    );
                    if i == oi as int {
                        assert(post.originals[i] == npg);
                        assert(ob == b && on == t);
                        assert(crate::db::reply_to_pred(b, t)(rowg));
                    } else {
                        assert(post.originals[i] == pre.originals[i]);
                        assert(!(ob == b && on == t)) by {
                            if ob == b && on == t {
                                assert(!((#[trigger] pre.originals[i]).board_id == (
                                #[trigger] pre.originals[oi as int]).board_id
                                    && pre.originals[i].post_num
                                    == pre.originals[oi as int].post_num));
                            }
                        }
                        assert(!(crate::db::reply_to_pred(ob, on)(rowg)));
                        assert(!(crate::db::img_reply_to_pred(ob, on)(rowg)));
                    }
                }
            }
            assert(crate::db::create_reply_ok(pre, post, reply, n)) by {
                assert(crate::db::counter_step(pre, post, b, n));
                assert(post.replies == pre.replies.push(crate::db::reply_with_num(reply, n)));
                assert(pre.originals[oi as int] == original_of(pre, b, t));
                assert(post.originals == pre.originals.update(oi as int, npg));
                assert(has_original(post, b, t));
                assert(original_of(post, b, t) == npg);
            }
        }
        *self = MemDatabase { site, boards, originals, replies, bans };
        Ok(n)
    }

    pub fn delete_reply(&mut self, board_id: u64, post_num: u64) -> (r: Result<(), PlainchantErr>)
        ensures
            r is Ok <==> has_reply(old(self)@, board_id, post_num),
            r is Ok ==> crate::db::delete_reply_ok(old(self)@, final(self)@, board_id, post_num),
            r is Err ==> final(self)@ == old(self)@,
    {
        proof {
            use_type_invariant(&*self);
        }
        let mut this = MemDatabase::blank();
        core::mem::swap(self, &mut this);
        let MemDatabase { site, boards, mut originals, mut replies, bans } = this;
        let ghost pre = StoreView {
            site: site,
            boards: boards@,
            originals: originals@,
            replies: replies@,
            bans: bans@,
        };
        proof {
            assert(pre == old(self)@);
        }
        let rj = match find_reply(&replies, board_id, post_num) {
            Some(rj) => rj,
            None => {
                proof {
                    crate::db::lemma_store_inv_rows_equal(old(self)@, pre);
                }
                *self = MemDatabase { site, boards, originals, replies, bans };
                return Err(static_err("No such reply post"));
            },
        };
        proof {
            lemma_reply_of_unique(pre, rj as int);
        }
        let orig_num = replies[rj].orig_num;
        let has_file = replies[rj].file_id.is_some();
        let ghost removed = pre.replies[rj as int];
        let oi = match find_original(&originals, board_id, orig_num) {
            Some(oi) => oi,
            None => {
                proof {
                    assert(has_original(pre, board_id, orig_num));
                    let j = choose|j: int|
                        0 <= j < pre.originals.len() && (#[trigger] pre.originals[j]).board_id
                            == board_id && pre.originals[j].post_num == orig_num;
                    assert((#[trigger] originals@[j]).board_id == board_id && originals@[j].post_num
                        == orig_num);
                    assert(false);
                }
                *self = MemDatabase { site, boards, originals, replies, bans };
                return Err(static_err("Thread does not exist"));
            },
        };
        proof {
            lemma_original_of_unique(pre, oi as int);
            crate::counting::lemma_count_pos(
                pre.replies,
                crate::db::reply_to_pred(board_id, orig_num),
                rj as int,
            );
            if has_file {
                crate::counting::lemma_count_pos(
                    pre.replies,
                    crate::db::img_reply_to_pred(board_id, orig_num),
                    rj as int,
                );
            }
        }
        let mut parent = originals[oi].clone();
        let ghost old_parent = parent;
        parent.replies = parent.replies - 1;
        if has_file {
            parent.img_replies = parent.img_replies - 1;
        }
        let ghost npg = parent;
        originals.set(oi, parent);
        replies.remove(rj);
        let ghost post = StoreView {
            site: pre.site,
            boards: pre.boards,
            originals: originals@,
            replies: replies@,
            bans: pre.bans,
        };
        proof {
            let t = orig_num;
            let mid = StoreView {
                site: pre.site,
                boards: pre.boards,
                originals: post.originals,
                replies: pre.replies,
                bans: pre.bans,
            };
            crate::db::lemma_original_update(pre, mid, oi as int, npg);
            crate::db::lemma_reply_remove(mid, post, rj as int);
            crate::db::lemma_boards_same(pre, post);
            assert(bans_distinct(post));
            assert(posts_well_keyed(post)) by {
                assert forall|i: int| 0 <= i < post.originals.len() implies has_board(
                    post,
                    (#[trigger] post.originals[i]).board_id,
                ) && post.originals[i].post_num < board_of(
                    post,
                    post.originals[i].board_id,
                ).next_post_num by {
                    assert(post.originals[i] == if i == oi as int {
                        npg
                    } else {
                        pre.originals[i]
                    });
                    assert(has_board(pre, (#[trigger] pre.originals[i]).board_id));
                }
                assert forall|i: int| 0 <= i < post.replies.len() implies has_board(
                    post,
                    (#[trigger] post.replies[i]).board_id,
                ) && post.replies[i].post_num < board_of(
                    post,
                    post.replies[i].board_id,
                ).next_post_num && has_original(
                    post,
                    post.replies[i].board_id,
                    post.replies[i].orig_num,
                ) by {
                    assert(post.replies[i] == if i < rj as int {
                        pre.replies[i]
                    } else {
                        pre.replies[i + 1]
                    });
                    let pi = if i < rj as int {
                        i
                    } else {
                        i + 1
                    };
                    assert(has_board(pre, (#[trigger] pre.replies[pi]).board_id));
                    assert(has_original(pre, pre.replies[pi].board_id, pre.replies[pi].orig_num));
                }
            }
            assert(counts_consistent(post)) by {
                assert forall|i: int| 0 <= i < post.originals.len() implies (
                #[trigger] post.originals[i]).replies == reply_count(
                    post,
                    post.originals[i].board_id,
                    post.originals[i].post_num,
                ) && post.originals[i].img_replies == img_reply_count(
                    post,
                    post.originals[i].board_id,
                    post.originals[i].post_num,
                ) by {
                    let ob = post.originals[i].board_id;
                    let on = post.originals[i].post_num;
                    assert((#[trigger] pre.originals[i]).replies == reply_count(
                        pre,
                        pre.originals[i].board_id,
                        pre.originals[i].post_num,
                    ));
                    crate::counting::lemma_count_remove(
                        pre.replies,
                        crate::db::reply_to_pred(ob, on),
                        rj as int,
                    );
                    crate::counting::lemma_count_remove(
                        pre.replies,
                        crate::db::img_reply_to_pred(ob, on),
                        rj as int,
                    );
                    if i == oi as int {
                        assert(post.originals[i] == npg);
                        assert(ob == board_id && on == t);
                        assert(crate::db::reply_to_pred(ob, on)(removed));
                    } else {
                        assert(post.originals[i] == pre.originals[i]);
                        assert(!(ob == board_id && on == t)) by {
                            if ob == board_id && on == t {
                                assert(!((#[trigger] pre.originals[i]).board_id == (
                                #[trigger] pre.originals[oi as int]).board_id
                                    && pre.originals[i].post_num
                                    == pre.originals[oi as int].post_num));
                            }
                        }
                        assert(!(crate::db::reply_to_pred(ob, on)(removed)));
                        assert(!(crate::db::img_reply_to_pred(ob, on)(removed)));
                    }
                }
            }
            assert(crate::db::delete_reply_ok(pre, post, board_id, post_num)) by {
                assert(reply_of(pre, board_id, post_num) == removed);
                assert(original_of(pre, board_id, removed.orig_num) == old_parent);
                assert(old_parent.replies > 0);
                assert(pre.originals[oi as int] == old_parent);
                assert(post.originals == pre.originals.update(oi as int, npg));
                assert(pre.replies[rj as int] == removed);
                assert(post.replies == pre.replies.remove(rj as int));
            }
        }
        *self = MemDatabase { site, boards, originals, replies, bans };
        Ok(())
    }

    #[verifier::rlimit(50)]
    pub fn delete_original(&mut self, board_id: u64, post_num: u64) -> (r: Result<
        (),
        PlainchantErr,
    >)
        ensures
            r is Ok <==> has_original(old(self)@, board_id, post_num),
            r is Ok ==> crate::db::delete_original_ok(
                old(self)@,
                final(self)@,
                board_id,
                post_num,
            ),
            r is Err ==> final(self)@ == old(self)@,
    {
        proof {
            use_type_invariant(&*self);
        }
        let mut this = MemDatabase::blank();
        core::mem::swap(self, &mut this);
        let MemDatabase { site, boards, mut originals, replies, bans } = this;
        let ghost pre = StoreView {
            site: site,
            boards: boards@,
            originals: originals@,
            replies: replies@,
            bans: bans@,
        };
        proof {
            assert(pre == old(self)@);
        }
        let oi = match find_original(&originals, board_id, post_num) {
            Some(oi) => oi,
            None => {
                proof {
                    crate::db::lemma_store_inv_rows_equal(old(self)@, pre);
                }
                *self = MemDatabase { site, boards, originals, replies, bans };
                return Err(static_err("No such original post"));
            },
        };
        proof {
            lemma_original_of_unique(pre, oi as int);
        }
        originals.remove(oi);
        let mut kept: Vec<Reply> = Vec::new();
        let mut i: usize = 0;
        while i < replies.len()
            invariant
                i <= replies@.len(),
                forall|j1: int, j2: int|
                    0 <= j1 < j2 < kept@.len() ==> !((#[trigger] kept@[j1]).board_id == (
                    #[trigger] kept@[j2]).board_id && kept@[j1].post_num == kept@[j2].post_num),
                forall|j: int|
                    0 <= j < kept@.len() ==> pre.replies.take(i as int).contains(
                        #[trigger] kept@[j],
                    ) && !(kept@[j].board_id == board_id && kept@[j].orig_num == post_num),
                forall|k: int|
                    0 <= k < i && !((#[trigger] pre.replies[k]).board_id == board_id
                        && pre.replies[k].orig_num == post_num) ==> kept@.contains(pre.replies[k]),
                forall|ob: u64, on: u64|
                    !(ob == board_id && on == post_num) ==> #[trigger] crate::counting::count_matching(
                        kept@,
                        crate::db::reply_to_pred(ob, on),
                    ) == crate::counting::count_matching(
                        pre.replies.take(i as int),
                        crate::db::reply_to_pred(ob, on),
                    ),
                forall|ob: u64, on: u64|
                    !(ob == board_id && on == post_num) ==> #[trigger] crate::counting::count_matching(
                        kept@,
                        crate::db::img_reply_to_pred(ob, on),
                    ) == crate::counting::count_matching(
                        pre.replies.take(i as int),
                        crate::db::img_reply_to_pred(ob, on),
                    ),
                kept@ == crate::db::replies_without_thread(
                    pre.replies.take(i as int),
                    board_id,
                    post_num,
                ),
                crate::db::posts_distinct(pre),
                replies@ == pre.replies,
            decreases replies@.len() - i,
        {
            let ghost old_kept = kept@;
            let in_thread = replies[i].board_id == board_id && replies[i].orig_num == post_num;
            if !in_thread {
                kept.push(replies[i].clone());
            }
            proof {
                let r = pre.replies[i as int];
                assert(pre.replies.take(i + 1) =~= pre.replies.take(i as int).push(r));
                crate::counting::lemma_filter_push(
                    pre.replies.take(i as int),
                    |r2: Reply| !(r2.board_id == board_id && r2.orig_num == post_num),
                    r,
                );
                assert forall|rr: Reply| #[trigger] pre.replies.take(i as int).contains(rr) implies
                    pre.replies.take(i + 1).contains(rr) by {
                    let k = choose|k: int|
                        0 <= k < pre.replies.take(i as int).len() && pre.replies.take(i as int)[k]
                            == rr;
                    assert(pre.replies.take(i + 1)[k] == rr);
                }
                if !in_thread {
                    assert(kept@[old_kept.len() as int] == r);
                    assert(pre.replies.take(i + 1)[i as int] == r);
                    assert forall|j1: int, j2: int| 0 <= j1 < j2 < kept@.len() implies !((
                    #[trigger] kept@[j1]).board_id == (#[trigger] kept@[j2]).board_id
                        && kept@[j1].post_num == kept@[j2].post_num) by {
                        if j2 == old_kept.len() {
                            assert(pre.replies.take(i as int).contains(old_kept[j1]));
                            let k1 = choose|k: int|
                                0 <= k < pre.replies.take(i as int).len() && pre.replies.take(
                                    i as int,
                                )[k] == old_kept[j1];
                            assert(kept@[j1] == pre.replies[k1]);
                            assert(!((#[trigger] pre.replies[k1]).board_id == (
                            #[trigger] pre.replies[i as int]).board_id && pre.replies[k1].post_num
                                == pre.replies[i as int].post_num));
                        }
                    }
                }
                assert forall|j: int| 0 <= j < kept@.len() implies pre.replies.take(
                    i + 1,
                ).contains(#[trigger] kept@[j]) && !(kept@[j].board_id == board_id
                    && kept@[j].orig_num == post_num) by {
                    if j < old_kept.len() {
                        assert(kept@[j] == old_kept[j]);
                        assert(pre.replies.take(i as int).contains(old_kept[j]));
                    } else {
                        assert(kept@[j] == r);
                        assert(pre.replies.take(i + 1)[i as int] == kept@[j]);
                    }
                }
                assert forall|k: int|
                    0 <= k < i + 1 && !((#[trigger] pre.replies[k]).board_id == board_id
                        && pre.replies[k].orig_num == post_num) implies kept@.contains(
                    pre.replies[k],
                ) by {
                    if k < i {
                        assert(old_kept.contains(pre.replies[k]));
                        let j = choose|j: int|
                            0 <= j < old_kept.len() && old_kept[j] == pre.replies[k];
                        assert(kept@[j] == pre.replies[k]);
                    } else {
                        assert(kept@[old_kept.len() as int] == pre.replies[k]);
                    }
                }
                assert forall|ob: u64, on: u64|
                    !(ob == board_id && on == post_num) implies #[trigger] crate::counting::count_matching(
                    kept@,
                    crate::db::reply_to_pred(ob, on),
                ) == crate::counting::count_matching(
                    pre.replies.take(i + 1),
                    crate::db::reply_to_pred(ob, on),
                ) by {
                    crate::counting::lemma_count_take_step(
                        pre.replies,
                        crate::db::reply_to_pred(ob, on),
                        i as int,
                    );
                    if !in_thread {
                        crate::counting::lemma_count_push(
                            old_kept,
                            crate::db::reply_to_pred(ob, on),
                            r,
                        );
                    } else {
                        assert(!(crate::db::reply_to_pred(ob, on)(r)));
                    }
                }
                assert forall|ob: u64, on: u64|
                    !(ob == board_id && on == post_num) implies #[trigger] crate::counting::count_matching(
                    kept@,
                    crate::db::img_reply_to_pred(ob, on),
                ) == crate::counting::count_matching(
                    pre.replies.take(i + 1),
                    crate::db::img_reply_to_pred(ob, on),
                ) by {
                    crate::counting::lemma_count_take_step(
                        pre.replies,
                        crate::db::img_reply_to_pred(ob, on),
                        i as int,
                    );
                    if !in_thread {
                        crate::counting::lemma_count_push(
                            old_kept,
                            crate::db::img_reply_to_pred(ob, on),
                            r,
                        );
                    } else {
                        assert(!(crate::db::img_reply_to_pred(ob, on)(r)));
                    }
                }
            }
            i += 1;
        }
        let ghost post = StoreView {
            site: pre.site,
            boards: pre.boards,
            originals: originals@,
            replies: kept@,
            bans: pre.bans,
        };
        proof {
            assert(pre.replies.take(replies@.len() as int) =~= pre.replies);
            assert(kept@ == crate::db::replies_without_thread(pre.replies, board_id, post_num));
            assert((#[trigger] pre.originals[oi as int]).board_id == board_id
                && pre.originals[oi as int].post_num == post_num && originals@
                == pre.originals.remove(oi as int));
            let mid = StoreView {
                site: pre.site,
                boards: pre.boards,
                originals: originals@,
                replies: pre.replies,
                bans: pre.bans,
            };
            crate::db::lemma_original_remove(pre, mid, oi as int);
            crate::db::lemma_boards_same(pre, post);
            assert(bans_distinct(post));
            assert forall|rr: Reply| #[trigger] post.replies.contains(rr) implies pre.replies.contains(
                rr,
            ) && !(rr.board_id == board_id && rr.orig_num == post_num) by {
                let j = choose|j: int| 0 <= j < post.replies.len() && post.replies[j] == rr;
                assert(pre.replies.take(replies@.len() as int).contains(kept@[j]));
            }
            assert forall|rr: Reply|
                pre.replies.contains(rr) && !(rr.board_id == board_id && rr.orig_num == post_num)
                    implies #[trigger] post.replies.contains(rr) by {
                let k = choose|k: int| 0 <= k < pre.replies.len() && pre.replies[k] == rr;
                assert(kept@.contains(pre.replies[k]));
            }
            assert(crate::db::posts_distinct(post)) by {
                assert forall|i1: int, j1: int|
                    0 <= i1 < post.originals.len() && 0 <= j1 < post.replies.len() implies !((
                #[trigger] post.originals[i1]).board_id == (#[trigger] post.replies[j1]).board_id
                    && post.originals[i1].post_num == post.replies[j1].post_num) by {
                    assert(mid.originals.contains(post.originals[i1]));
                    let a1 = choose|a1: int|
                        0 <= a1 < pre.originals.len() && pre.originals[a1] == post.originals[i1];
                    assert(pre.replies.take(replies@.len() as int).contains(kept@[j1]));
                    let k1 = choose|k1: int|
                        0 <= k1 < pre.replies.len() && pre.replies[k1] == kept@[j1];
                    assert(!((#[trigger] pre.originals[a1]).board_id == (
                    #[trigger] pre.replies[k1]).board_id && pre.originals[a1].post_num
                        == pre.replies[k1].post_num));
                }
            }
            assert(posts_well_keyed(post)) by {
                assert forall|i1: int| 0 <= i1 < post.originals.len() implies has_board(
                    post,
                    (#[trigger] post.originals[i1]).board_id,
                ) && post.originals[i1].post_num < board_of(
                    post,
                    post.originals[i1].board_id,
                ).next_post_num by {
                    assert(mid.originals.contains(post.originals[i1]));
                    let a1 = choose|a1: int|
                        0 <= a1 < pre.originals.len() && pre.originals[a1] == post.originals[i1];
                    assert(has_board(pre, (#[trigger] pre.originals[a1]).board_id));
                }
                assert forall|j1: int| 0 <= j1 < post.replies.len() implies has_board(
                    post,
                    (#[trigger] post.replies[j1]).board_id,
                ) && post.replies[j1].post_num < board_of(
                    post,
                    post.replies[j1].board_id,
                ).next_post_num && has_original(
                    post,
                    post.replies[j1].board_id,
                    post.replies[j1].orig_num,
                ) by {
                    assert(pre.replies.take(replies@.len() as int).contains(kept@[j1]));
                    let k1 = choose|k1: int|
                        0 <= k1 < pre.replies.len() && pre.replies[k1] == kept@[j1];
                    assert(has_board(pre, (#[trigger] pre.replies[k1]).board_id));
                    assert(has_original(pre, pre.replies[k1].board_id, pre.replies[k1].orig_num));
                    assert(!(pre.replies[k1].board_id == board_id && pre.replies[k1].orig_num
                        == post_num));
                    assert(has_original(mid, post.replies[j1].board_id, post.replies[j1].orig_num));
                    let a2 = choose|a2: int|
                        0 <= a2 < mid.originals.len() && (#[trigger] mid.originals[a2]).board_id
                            == post.replies[j1].board_id && mid.originals[a2].post_num
                            == post.replies[j1].orig_num;
                    assert((#[trigger] post.originals[a2]).board_id == post.replies[j1].board_id
                        && post.originals[a2].post_num == post.replies[j1].orig_num);
                }
            }
            assert(counts_consistent(post)) by {
                assert forall|i1: int| 0 <= i1 < post.originals.len() implies (
                #[trigger] post.originals[i1]).replies == reply_count(
                    post,
                    post.originals[i1].board_id,
                    post.originals[i1].post_num,
                ) && post.originals[i1].img_replies == img_reply_count(
                    post,
                    post.originals[i1].board_id,
                    post.originals[i1].post_num,
                ) by {
                    let ob = post.originals[i1].board_id;
                    let on = post.originals[i1].post_num;
                    assert(mid.originals.contains(post.originals[i1]));
                    let a1 = choose|a1: int|
                        0 <= a1 < pre.originals.len() && pre.originals[a1] == post.originals[i1];
                    assert((#[trigger] pre.originals[a1]).replies == reply_count(
                        pre,
                        pre.originals[a1].board_id,
                        pre.originals[a1].post_num,
                    ));
                    assert(!(ob == board_id && on == post_num)) by {
                        if ob == board_id && on == post_num {
                            assert(mid.originals.contains(post.originals[i1]));
                            assert(has_original(mid, board_id, post_num));
                        }
                    }
                    assert(crate::counting::count_matching(
                        kept@,
                        crate::db::reply_to_pred(ob, on),
                    ) == crate::counting::count_matching(
                        pre.replies.take(replies@.len() as int),
                        crate::db::reply_to_pred(ob, on),
                    ));
                    assert(crate::counting::count_matching(
                        kept@,
                        crate::db::img_reply_to_pred(ob, on),
                    ) == crate::counting::count_matching(
                        pre.replies.take(replies@.len() as int),
                        crate::db::img_reply_to_pred(ob, on),
                    ));
                }
            }
            assert(crate::db::delete_original_ok(pre, post, board_id, post_num));
        }
        *self = MemDatabase { site, boards, originals, replies: kept, bans };
        Ok(())
    }

    #[verifier::rlimit(50)]
    pub fn delete_board(&mut self, board_id: u64) -> (r: Result<(), PlainchantErr>)
        ensures
            r is Ok <==> has_board(old(self)@, board_id),
            r is Ok ==> crate::db::delete_board_ok(old(self)@, final(self)@, board_id),
            r is Err ==> final(self)@ == old(self)@,
    {
        proof {
            use_type_invariant(&*self);
        }
        let mut this = MemDatabase::blank();
        core::mem::swap(self, &mut this);
        let MemDatabase { site, mut boards, originals, replies, bans } = this;
        let ghost pre = StoreView {
            site: site,
            boards: boards@,
            originals: originals@,
            replies: replies@,
            bans: bans@,
        };
        proof {
            assert(pre == old(self)@);
        }
        let bi = match find_board(&boards, board_id) {
            Some(bi) => bi,
            None => {
                proof {
                    crate::db::lemma_store_inv_rows_equal(old(self)@, pre);
                }
                *self = MemDatabase { site, boards, originals, replies, bans };
                return Err(static_err("No such board"));
            },
        };
        boards.remove(bi);
        let mut kept_orig: Vec<Original> = Vec::new();
        let mut i: usize = 0;
        while i < originals.len()
            invariant
                i <= originals@.len(),
                forall|j1: int, j2: int|
                    0 <= j1 < j2 < kept_orig@.len() ==> !((#[trigger] kept_orig@[j1]).board_id == (
                    #[trigger] kept_orig@[j2]).board_id && kept_orig@[j1].post_num
                        == kept_orig@[j2].post_num),
                forall|j: int|
                    0 <= j < kept_orig@.len() ==> pre.originals.take(i as int).contains(
                        #[trigger] kept_orig@[j],
                    ) && kept_orig@[j].board_id != board_id,
                forall|k: int|
                    0 <= k < i && (#[trigger] pre.originals[k]).board_id != board_id
                        ==> kept_orig@.contains(pre.originals[k]),
                kept_orig@ == crate::db::originals_without_board(
                    pre.originals.take(i as int),
                    board_id,
                ),
                crate::db::posts_distinct(pre),
                originals@ == pre.originals,
            decreases originals@.len() - i,
        {
            let ghost old_kept = kept_orig@;
            if originals[i].board_id != board_id {
                kept_orig.push(originals[i].clone());
            }
            proof {
                let o = pre.originals[i as int];
                assert(pre.originals.take(i + 1) =~= pre.originals.take(i as int).push(o));
                crate::counting::lemma_filter_push(
                    pre.originals.take(i as int),
                    |o2: Original| o2.board_id != board_id,
                    o,
                );
                assert forall|oo: Original| #[trigger] pre.originals.take(i as int).contains(
                    oo,
                ) implies pre.originals.take(i + 1).contains(oo) by {
                    let k = choose|k: int|
                        0 <= k < pre.originals.take(i as int).len() && pre.originals.take(
                            i as int,
                        )[k] == oo;
                    assert(pre.originals.take(i + 1)[k] == oo);
                }
                if o.board_id != board_id {
                    assert(kept_orig@[old_kept.len() as int] == o);
                    assert(pre.originals.take(i + 1)[i as int] == o);
                    assert forall|j1: int, j2: int| 0 <= j1 < j2 < kept_orig@.len() implies !((
                    #[trigger] kept_orig@[j1]).board_id == (#[trigger] kept_orig@[j2]).board_id
                        && kept_orig@[j1].post_num == kept_orig@[j2].post_num) by {
                        if j2 == old_kept.len() {
                            assert(pre.originals.take(i as int).contains(old_kept[j1]));
                            let k1 = choose|k: int|
                                0 <= k < pre.originals.take(i as int).len() && pre.originals.take(
                                    i as int,
                                )[k] == old_kept[j1];
                            assert(kept_orig@[j1] == pre.originals[k1]);
                            assert(!((#[trigger] pre.originals[k1]).board_id == (
                            #[trigger] pre.originals[i as int]).board_id
                                && pre.originals[k1].post_num
                                == pre.originals[i as int].post_num));
                        }
                    }
                }
                assert forall|j: int| 0 <= j < kept_orig@.len() implies pre.originals.take(
                    i + 1,
                ).contains(#[trigger] kept_orig@[j]) && kept_orig@[j].board_id != board_id by {
                    if j < old_kept.len() {
                        assert(kept_orig@[j] == old_kept[j]);
                        assert(pre.originals.take(i as int).contains(old_kept[j]));
                    } else {
                        assert(kept_orig@[j] == o);
                        assert(pre.originals.take(i + 1)[i as int] == kept_orig@[j]);
                    }
                }
                assert forall|k: int|
                    0 <= k < i + 1 && (#[trigger] pre.originals[k]).board_id != board_id implies
                    kept_orig@.contains(pre.originals[k]) by {
                    if k < i {
                        assert(old_kept.contains(pre.originals[k]));
                        let j = choose|j: int|
                            0 <= j < old_kept.len() && old_kept[j] == pre.originals[k];
                        assert(kept_orig@[j] == pre.originals[k]);
                    } else {
                        assert(kept_orig@[old_kept.len() as int] == pre.originals[k]);
                    }
                }
            }
            i += 1;
        }
        let mut kept_rep: Vec<Reply> = Vec::new();
        let mut k2: usize = 0;
        while k2 < replies.len()
            invariant
                k2 <= replies@.len(),
                forall|j1: int, j2: int|
                    0 <= j1 < j2 < kept_rep@.len() ==> !((#[trigger] kept_rep@[j1]).board_id == (
                    #[trigger] kept_rep@[j2]).board_id && kept_rep@[j1].post_num
                        == kept_rep@[j2].post_num),
                forall|j: int|
                    0 <= j < kept_rep@.len() ==> pre.replies.take(k2 as int).contains(
                        #[trigger] kept_rep@[j],
                    ) && kept_rep@[j].board_id != board_id,
                forall|k: int|
                    0 <= k < k2 && (#[trigger] pre.replies[k]).board_id != board_id
                        ==> kept_rep@.contains(pre.replies[k]),
                forall|ob: u64, on: u64|
                    ob != board_id ==> #[trigger] crate::counting::count_matching(
                        kept_rep@,
                        crate::db::reply_to_pred(ob, on),
                    ) == crate::counting::count_matching(
                        pre.replies.take(k2 as int),
                        crate::db::reply_to_pred(ob, on),
                    ) && crate::counting::count_matching(
                        kept_rep@,
                        crate::db::img_reply_to_pred(ob, on),
                    ) == crate::counting::count_matching(
                        pre.replies.take(k2 as int),
                        crate::db::img_reply_to_pred(ob, on),
                    ),
                kept_rep@ == crate::db::replies_without_board(pre.replies.take(k2 as int), board_id),
                crate::db::posts_distinct(pre),
                replies@ == pre.replies,
            decreases replies@.len() - k2,
        {
            let ghost old_kept = kept_rep@;
            if replies[k2].board_id != board_id {
                kept_rep.push(replies[k2].clone());
            }
            proof {
                let r = pre.replies[k2 as int];
                assert(pre.replies.take(k2 + 1) =~= pre.replies.take(k2 as int).push(r));
                crate::counting::lemma_filter_push(
                    pre.replies.take(k2 as int),
                    |r2: Reply| r2.board_id != board_id,
                    r,
                );
                assert forall|rr: Reply| #[trigger] pre.replies.take(k2 as int).contains(
                    rr,
                ) implies pre.replies.take(k2 + 1).contains(rr) by {
                    let k = choose|k: int|
                        0 <= k < pre.replies.take(k2 as int).len() && pre.replies.take(k2 as int)[k]
                            == rr;
                    assert(pre.replies.take(k2 + 1)[k] == rr);
                }
                if r.board_id != board_id {
                    assert(kept_rep@[old_kept.len() as int] == r);
                    assert(pre.replies.take(k2 + 1)[k2 as int] == r);
                    assert forall|j1: int, j2: int| 0 <= j1 < j2 < kept_rep@.len() implies !((
                    #[trigger] kept_rep@[j1]).board_id == (#[trigger] kept_rep@[j2]).board_id
                        && kept_rep@[j1].post_num == kept_rep@[j2].post_num) by {
                        if j2 == old_kept.len() {
                            assert(pre.replies.take(k2 as int).contains(old_kept[j1]));
                            let k1 = choose|k: int|
                                0 <= k < pre.replies.take(k2 as int).len() && pre.replies.take(
                                    k2 as int,
                                )[k] == old_kept[j1];
                            assert(kept_rep@[j1] == pre.replies[k1]);
                            assert(!((#[trigger] pre.replies[k1]).board_id == (
                            #[trigger] pre.replies[k2 as int]).board_id
                                && pre.replies[k1].post_num
                                == pre.replies[k2 as int].post_num));
                        }
                    }
                }
                assert forall|j: int| 0 <= j < kept_rep@.len() implies pre.replies.take(
                    k2 + 1,
                ).contains(#[trigger] kept_rep@[j]) && kept_rep@[j].board_id != board_id by {
                    if j < old_kept.len() {
                        assert(kept_rep@[j] == old_kept[j]);
                        assert(pre.replies.take(k2 as int).contains(old_kept[j]));
                    } else {
                        assert(kept_rep@[j] == r);
                        assert(pre.replies.take(k2 + 1)[k2 as int] == kept_rep@[j]);
                    }
                }
                assert forall|k: int|
                    0 <= k < k2 + 1 && (#[trigger] pre.replies[k]).board_id != board_id implies
                    kept_rep@.contains(pre.replies[k]) by {
                    if k < k2 {
                        assert(old_kept.contains(pre.replies[k]));
                        let j = choose|j: int|
                            0 <= j < old_kept.len() && old_kept[j] == pre.replies[k];
                        assert(kept_rep@[j] == pre.replies[k]);
                    } else {
                        assert(kept_rep@[old_kept.len() as int] == pre.replies[k]);
                    }
                }
                assert forall|ob: u64, on: u64|
                    ob != board_id implies #[trigger] crate::counting::count_matching(
                    kept_rep@,
                    crate::db::reply_to_pred(ob, on),
                ) == crate::counting::count_matching(
                    pre.replies.take(k2 + 1),
                    crate::db::reply_to_pred(ob, on),
                ) && crate::counting::count_matching(
                    kept_rep@,
                    crate::db::img_reply_to_pred(ob, on),
                ) == crate::counting::count_matching(
                    pre.replies.take(k2 + 1),
                    crate::db::img_reply_to_pred(ob, on),
                ) by {
                    crate::counting::lemma_count_take_step(
                        pre.replies,
                        crate::db::reply_to_pred(ob, on),
                        k2 as int,
                    );
                    crate::counting::lemma_count_take_step(
                        pre.replies,
                        crate::db::img_reply_to_pred(ob, on),
                        k2 as int,
                    );
                    if r.board_id != board_id {
                        crate::counting::lemma_count_push(
                            old_kept,
                            crate::db::reply_to_pred(ob, on),
                            r,
                        );
                        crate::counting::lemma_count_push(
                            old_kept,
                            crate::db::img_reply_to_pred(ob, on),
                            r,
                        );
                    } else {
                        assert(!(crate::db::reply_to_pred(ob, on)(r)));
                        assert(!(crate::db::img_reply_to_pred(ob, on)(r)));
                    }
                }
            }
            k2 += 1;
        }
        let ghost post = StoreView {
            site: pre.site,
            boards: boards@,
            originals: kept_orig@,
            replies: kept_rep@,
            bans: pre.bans,
        };
        proof {
            assert(pre.originals.take(originals@.len() as int) =~= pre.originals);
            assert(pre.replies.take(replies@.len() as int) =~= pre.replies);
            assert(kept_orig@ == crate::db::originals_without_board(pre.originals, board_id));
            assert(kept_rep@ == crate::db::replies_without_board(pre.replies, board_id));
            assert((#[trigger] pre.boards[bi as int]).id == board_id && boards@
                == pre.boards.remove(bi as int));
            crate::db::lemma_board_remove(pre, post, bi as int);
            assert(bans_distinct(post));
            assert forall|oo: Original| #[trigger] post.originals.contains(oo) implies pre.originals.contains(
                oo,
            ) && oo.board_id != board_id by {
                let j = choose|j: int| 0 <= j < post.originals.len() && post.originals[j] == oo;
                assert(pre.originals.take(originals@.len() as int).contains(kept_orig@[j]));
            }
            assert forall|oo: Original|
                pre.originals.contains(oo) && oo.board_id != board_id implies
                #[trigger] post.originals.contains(oo) by {
                let k = choose|k: int| 0 <= k < pre.originals.len() && pre.originals[k] == oo;
                assert(kept_orig@.contains(pre.originals[k]));
            }
            assert forall|rr: Reply| #[trigger] post.replies.contains(rr) implies pre.replies.contains(
                rr,
            ) && rr.board_id != board_id by {
                let j = choose|j: int| 0 <= j < post.replies.len() && post.replies[j] == rr;
                assert(pre.replies.take(replies@.len() as int).contains(kept_rep@[j]));
            }
            assert forall|rr: Reply|
                pre.replies.contains(rr) && rr.board_id != board_id implies
                #[trigger] post.replies.contains(rr) by {
                let k = choose|k: int| 0 <= k < pre.replies.len() && pre.replies[k] == rr;
                assert(kept_rep@.contains(pre.replies[k]));
            }
            assert(crate::db::posts_distinct(post)) by {
                assert forall|i1: int, j1: int|
                    0 <= i1 < post.originals.len() && 0 <= j1 < post.replies.len() implies !((
                #[trigger] post.originals[i1]).board_id == (#[trigger] post.replies[j1]).board_id
                    && post.originals[i1].post_num == post.replies[j1].post_num) by {
                    assert(pre.originals.take(originals@.len() as int).contains(kept_orig@[i1]));
                    let a1 = choose|a1: int|
                        0 <= a1 < pre.originals.len() && pre.originals[a1] == kept_orig@[i1];
                    assert(pre.replies.take(replies@.len() as int).contains(kept_rep@[j1]));
                    let k1 = choose|k1: int|
                        0 <= k1 < pre.replies.len() && pre.replies[k1] == kept_rep@[j1];
                    assert(!((#[trigger] pre.originals[a1]).board_id == (
                    #[trigger] pre.replies[k1]).board_id && pre.originals[a1].post_num
                        == pre.replies[k1].post_num));
                }
            }
            assert(posts_well_keyed(post)) by {
                assert forall|i1: int| 0 <= i1 < post.originals.len() implies has_board(
                    post,
                    (#[trigger] post.originals[i1]).board_id,
                ) && post.originals[i1].post_num < board_of(
                    post,
                    post.originals[i1].board_id,
                ).next_post_num by {
                    assert(pre.originals.take(originals@.len() as int).contains(kept_orig@[i1]));
                    let a1 = choose|a1: int|
                        0 <= a1 < pre.originals.len() && pre.originals[a1] == kept_orig@[i1];
                    assert(has_board(pre, (#[trigger] pre.originals[a1]).board_id));
                    assert(post.originals[i1].board_id != board_id);
                }
                assert forall|j1: int| 0 <= j1 < post.replies.len() implies has_board(
                    post,
                    (#[trigger] post.replies[j1]).board_id,
                ) && post.replies[j1].post_num < board_of(
                    post,
                    post.replies[j1].board_id,
                ).next_post_num && has_original(
                    post,
                    post.replies[j1].board_id,
                    post.replies[j1].orig_num,
                ) by {
                    assert(pre.replies.take(replies@.len() as int).contains(kept_rep@[j1]));
                    let k1 = choose|k1: int|
                        0 <= k1 < pre.replies.len() && pre.replies[k1] == kept_rep@[j1];
                    assert(has_board(pre, (#[trigger] pre.replies[k1]).board_id));
                    assert(has_original(pre, pre.replies[k1].board_id, pre.replies[k1].orig_num));
                    let a2 = choose|a2: int|
                        0 <= a2 < pre.originals.len() && (#[trigger] pre.originals[a2]).board_id
                            == pre.replies[k1].board_id && pre.originals[a2].post_num
                            == pre.replies[k1].orig_num;
                    assert(pre.originals[a2].board_id != board_id);
                    assert(kept_orig@.contains(pre.originals[a2]));
                    let a3 = choose|a3: int|
                        0 <= a3 < kept_orig@.len() && kept_orig@[a3] == pre.originals[a2];
                    assert((#[trigger] post.originals[a3]).board_id == post.replies[j1].board_id
                        && post.originals[a3].post_num == post.replies[j1].orig_num);
                }
            }
            assert(counts_consistent(post)) by {
                assert forall|i1: int| 0 <= i1 < post.originals.len() implies (
                #[trigger] post.originals[i1]).replies == reply_count(
                    post,
                    post.originals[i1].board_id,
                    post.originals[i1].post_num,
                ) && post.originals[i1].img_replies == img_reply_count(
                    post,
                    post.originals[i1].board_id,
                    post.originals[i1].post_num,
                ) by {
                    let ob = post.originals[i1].board_id;
                    let on = post.originals[i1].post_num;
                    assert(pre.originals.take(originals@.len() as int).contains(kept_orig@[i1]));
                    let a1 = choose|a1: int|
                        0 <= a1 < pre.originals.len() && pre.originals[a1] == kept_orig@[i1];
                    assert((#[trigger] pre.originals[a1]).replies == reply_count(
                        pre,
                        pre.originals[a1].board_id,
                        pre.originals[a1].post_num,
                    ));
                    assert(ob != board_id);
                    assert(crate::counting::count_matching(
                        kept_rep@,
                        crate::db::reply_to_pred(ob, on),
                    ) == crate::counting::count_matching(
                        pre.replies.take(replies@.len() as int),
                        crate::db::reply_to_pred(ob, on),
                    ));
                }
            }
            assert(crate::db::delete_board_ok(pre, post, board_id));
        }
        *self = MemDatabase { site, boards, originals: kept_orig, replies: kept_rep, bans };
        Ok(())
    }

    pub fn get_thread(&self, board_id: u64, post_num: u64) -> (r: Result<Thread, PlainchantErr>)
        ensures
            r is Ok <==> has_original(self@, board_id, post_num),
            r is Ok ==> crate::db::thread_ok(self@, board_id, post_num, r->Ok_0),
    {
        proof {
            use_type_invariant(self);
        }
        let original = match self.get_original(board_id, post_num) {
            Ok(o) => o,
            Err(e) => {
                return Err(e);
            },
        };
        let mut out: Vec<Reply> = Vec::new();
        let mut i: usize = 0;
        while i < self.replies.len()
            invariant
                i <= self.replies@.len(),
                forall|j: int|
                    0 <= j < out@.len() ==> self.replies@.take(i as int).contains(
                        #[trigger] out@[j],
                    ) && out@[j].board_id == board_id && out@[j].orig_num == post_num,
                forall|k: int|
                    0 <= k < i && (#[trigger] self.replies@[k]).board_id == board_id
                        && self.replies@[k].orig_num == post_num ==> out@.contains(
                        self.replies@[k],
                    ),
                out@.len() == crate::counting::count_matching(
                    self.replies@.take(i as int),
                    crate::db::reply_to_pred(board_id, post_num),
                ),
            decreases self.replies@.len() - i,
        {
            let ghost old_out = out@;
            if self.replies[i].board_id == board_id && self.replies[i].orig_num == post_num {
                out.push(self.replies[i].clone());
            }
            proof {
                let r = self.replies@[i as int];
                assert(self.replies@.take(i + 1) =~= self.replies@.take(i as int).push(r));
                crate::counting::lemma_count_take_step(
                    self.replies@,
                    crate::db::reply_to_pred(board_id, post_num),
                    i as int,
                );
                assert forall|rr: Reply| #[trigger] self.replies@.take(i as int).contains(
                    rr,
                ) implies self.replies@.take(i + 1).contains(rr) by {
                    let k = choose|k: int|
                        0 <= k < self.replies@.take(i as int).len() && self.replies@.take(
                            i as int,
                        )[k] == rr;
                    assert(self.replies@.take(i + 1)[k] == rr);
                }
                if r.board_id == board_id && r.orig_num == post_num {
                    assert(out@[old_out.len() as int] == r);
                    assert(self.replies@.take(i + 1)[i as int] == r);
                }
                assert forall|j: int| 0 <= j < out@.len() implies self.replies@.take(
                    i + 1,
                ).contains(#[trigger] out@[j]) && out@[j].board_id == board_id && out@[j].orig_num
                    == post_num by {
                    if j < old_out.len() {
                        assert(out@[j] == old_out[j]);
                        assert(self.replies@.take(i as int).contains(old_out[j]));
                    } else {
                        assert(out@[j] == r);
                        assert(self.replies@.take(i + 1)[i as int] == out@[j]);
                    }
                }
                assert forall|k: int|
                    0 <= k < i + 1 && (#[trigger] self.replies@[k]).board_id == board_id
                        && self.replies@[k].orig_num == post_num implies out@.contains(
                    self.replies@[k],
                ) by {
                    if k < i {
                        assert(old_out.contains(self.replies@[k]));
                        let j = choose|j: int|
                            0 <= j < old_out.len() && old_out[j] == self.replies@[k];
                        assert(out@[j] == self.replies@[k]);
                    } else {
                        assert(out@[old_out.len() as int] == self.replies@[k]);
                    }
                }
            }
            i += 1;
        }
        proof {
            assert(self.replies@.take(self.replies@.len() as int) =~= self.replies@);
            assert forall|rr: Reply|
                self@.replies.contains(rr) && rr.board_id == board_id && rr.orig_num == post_num
                    implies out@.contains(rr) by {
                let k = choose|k: int| 0 <= k < self.replies@.len() && self.replies@[k] == rr;
                assert(out@.contains(self.replies@[k]));
            }
        }
        Ok(Thread { original, replies: out })
    }

    pub fn get_all_posts_by_ip(&self, ip: &str) -> (r: Result<Vec<AnyPost>, PlainchantErr>)
        ensures
            r is Ok,
            crate::db::posts_by_ip_ok(self@, ip@, r->Ok_0@),
    {
        let mut out: Vec<AnyPost> = Vec::new();
        let mut i: usize = 0;
        while i < self.originals.len()
            invariant
                i <= self.originals@.len(),
                forall|j: int|
                    0 <= j < out@.len() ==> match #[trigger] out@[j] {
                        AnyPost::Original(o) => self.originals@.take(i as int).contains(o) && o.ip@
                            == ip@,
                        AnyPost::Reply(r2) => false,
                    },
                forall|k: int|
                    0 <= k < i && (#[trigger] self.originals@[k]).ip@ == ip@ ==> out@.contains(
                        AnyPost::Original(self.originals@[k]),
                    ),
                out@.len() == crate::counting::count_matching(
                    self.originals@.take(i as int),
                    crate::db::orig_by_ip_pred(ip@),
                ),
            decreases self.originals@.len() - i,
        {
            let ghost old_out = out@;
            if crate::util::str_eq(self.originals[i].ip.as_str(), ip) {
                out.push(AnyPost::Original(self.originals[i].clone()));
            }
            proof {
                let o = self.originals@[i as int];
                assert(self.originals@.take(i + 1) =~= self.originals@.take(i as int).push(o));
                crate::counting::lemma_count_take_step(
                    self.originals@,
                    crate::db::orig_by_ip_pred(ip@),
                    i as int,
                );
                assert forall|oo: Original| #[trigger] self.originals@.take(i as int).contains(
                    oo,
                ) implies self.originals@.take(i + 1).contains(oo) by {
                    let k = choose|k: int|
                        0 <= k < self.originals@.take(i as int).len() && self.originals@.take(
                            i as int,
                        )[k] == oo;
                    assert(self.originals@.take(i + 1)[k] == oo);
                }
                if o.ip@ == ip@ {
                    assert(out@[old_out.len() as int] == AnyPost::Original(o));
                    assert(self.originals@.take(i + 1)[i as int] == o);
                }
                assert forall|j: int| 0 <= j < out@.len() implies match #[trigger] out@[j] {
                    AnyPost::Original(oo) => self.originals@.take(i + 1).contains(oo) && oo.ip@
                        == ip@,
                    AnyPost::Reply(r2) => false,
                } by {
                    if j < old_out.len() {
                        assert(out@[j] == old_out[j]);
                    } else {
                        assert(out@[j] == AnyPost::Original(o));
                        assert(self.originals@.take(i + 1)[i as int] == o);
                    }
                }
                assert forall|k: int|
                    0 <= k < i + 1 && (#[trigger] self.originals@[k]).ip@ == ip@ implies out@.contains(
                    AnyPost::Original(self.originals@[k]),
                ) by {
                    if k < i {
                        assert(old_out.contains(AnyPost::Original(self.originals@[k])));
                        let j = choose|j: int|
                            0 <= j < old_out.len() && old_out[j] == AnyPost::Original(
                                self.originals@[k],
                            );
                        assert(out@[j] == AnyPost::Original(self.originals@[k]));
                    } else {
                        assert(out@[old_out.len() as int] == AnyPost::Original(
                            self.originals@[k],
                        ));
                    }
                }
            }
            i += 1;
        }
        let ghost orig_part = out@;
        let ghost n_orig = out@.len() as int;
        let mut k2: usize = 0;
        while k2 < self.replies.len()
            invariant
                k2 <= self.replies@.len(),
                out@.len() >= n_orig,
                out@.take(n_orig) == orig_part,
                0 <= n_orig,
                forall|j: int|
                    0 <= j < n_orig ==> match #[trigger] orig_part[j] {
                        AnyPost::Original(o) => self.originals@.contains(o) && o.ip@ == ip@,
                        AnyPost::Reply(r2) => false,
                    },
                forall|j: int|
                    n_orig <= j < out@.len() ==> match #[trigger] out@[j] {
                        AnyPost::Original(o) => false,
                        AnyPost::Reply(r2) => self.replies@.take(k2 as int).contains(r2) && r2.ip@
                            == ip@,
                    },
                forall|k: int|
                    0 <= k < k2 && (#[trigger] self.replies@[k]).ip@ == ip@ ==> out@.contains(
                        AnyPost::Reply(self.replies@[k]),
                    ),
                out@.len() == n_orig + crate::counting::count_matching(
                    self.replies@.take(k2 as int),
                    crate::db::reply_by_ip_pred(ip@),
                ),
            decreases self.replies@.len() - k2,
        {
            let ghost old_out = out@;
            if crate::util::str_eq(self.replies[k2].ip.as_str(), ip) {
                out.push(AnyPost::Reply(self.replies[k2].clone()));
            }
            proof {
                let r = self.replies@[k2 as int];
                assert(self.replies@.take(k2 + 1) =~= self.replies@.take(k2 as int).push(r));
                crate::counting::lemma_count_take_step(
                    self.replies@,
                    crate::db::reply_by_ip_pred(ip@),
                    k2 as int,
                );
                assert forall|rr: Reply| #[trigger] self.replies@.take(k2 as int).contains(
                    rr,
                ) implies self.replies@.take(k2 + 1).contains(rr) by {
                    let k = choose|k: int|
                        0 <= k < self.replies@.take(k2 as int).len() && self.replies@.take(
                            k2 as int,
                        )[k] == rr;
                    assert(self.replies@.take(k2 + 1)[k] == rr);
                }
                if r.ip@ == ip@ {
                    assert(out@[old_out.len() as int] == AnyPost::Reply(r));
                    assert(self.replies@.take(k2 + 1)[k2 as int] == r);
                    assert(out@.take(n_orig) =~= old_out.take(n_orig));
                }
                assert forall|j: int| n_orig <= j < out@.len() implies match #[trigger] out@[j] {
                    AnyPost::Original(o) => false,
                    AnyPost::Reply(r2) => self.replies@.take(k2 + 1).contains(r2) && r2.ip@ == ip@,
                } by {
                    if j < old_out.len() {
                        assert(out@[j] == old_out[j]);
                    } else {
                        assert(out@[j] == AnyPost::Reply(r));
                        assert(self.replies@.take(k2 + 1)[k2 as int] == r);
                    }
                }
                assert forall|k: int|
                    0 <= k < k2 + 1 && (#[trigger] self.replies@[k]).ip@ == ip@ implies out@.contains(
                    AnyPost::Reply(self.replies@[k]),
                ) by {
                    if k < k2 {
                        assert(old_out.contains(AnyPost::Reply(self.replies@[k])));
                        let j = choose|j: int|
                            0 <= j < old_out.len() && old_out[j] == AnyPost::Reply(
                                self.replies@[k],
                            );
                        assert(out@[j] == AnyPost::Reply(self.replies@[k]));
                    } else {
                        assert(out@[old_out.len() as int] == AnyPost::Reply(self.replies@[k]));
                    }
                }
            }
            k2 += 1;
        }
        proof {
            assert(self.originals@.take(self.originals@.len() as int) =~= self.originals@);
            assert(self.replies@.take(self.replies@.len() as int) =~= self.replies@);
            assert forall|j: int| 0 <= j < out@.len() implies match #[trigger] out@[j] {
                AnyPost::Original(o) => self@.originals.contains(o) && o.ip@ == ip@,
                AnyPost::Reply(r2) => self@.replies.contains(r2) && r2.ip@ == ip@,
            } by {
                if j < n_orig {
                    assert(out@[j] == out@.take(n_orig)[j]);
                    assert(orig_part[j] == out@[j]);
                }
            }
            assert forall|o: Original|
                self@.originals.contains(o) && o.ip@ == ip@ implies out@.contains(
                AnyPost::Original(o),
            ) by {
                let k = choose|k: int| 0 <= k < self.originals@.len() && self.originals@[k] == o;
                assert(orig_part.contains(AnyPost::Original(self.originals@[k])));
                let j = choose|j: int|
                    0 <= j < orig_part.len() && orig_part[j] == AnyPost::Original(o);
                assert(out@.take(n_orig)[j] == AnyPost::Original(o));
                assert(out@[j] == AnyPost::Original(o));
            }
            assert forall|r2: Reply|
                self@.replies.contains(r2) && r2.ip@ == ip@ implies out@.contains(
                AnyPost::Reply(r2),
            ) by {
                let k = choose|k: int| 0 <= k < self.replies@.len() && self.replies@[k] == r2;
                assert(out@.contains(AnyPost::Reply(self.replies@[k])));
            }
        }
        Ok(out)
    }

    fn rank_at_least(a: &Original, b: &Original) -> (r: bool)
        ensures
            r == crate::db::rank_geq(*a, *b),
    {
        a.bump_time > b.bump_time || (a.bump_time == b.bump_time && a.post_num >= b.post_num)
    }

    pub fn get_catalog(&self, board_id: u64) -> (r: Result<Catalog, PlainchantErr>)
        ensures
            r is Ok <==> has_board(self@, board_id),
            r is Ok ==> crate::db::catalog_ok(self@, board_id, r->Ok_0),
    {
        proof {
            use_type_invariant(self);
        }
        if let None = find_board(&self.boards, board_id) {
            return Err(static_err("No such board"));
        }
        let mut coll: Vec<Original> = Vec::new();
        let mut i: usize = 0;
        while i < self.originals.len()
            invariant
                i <= self.originals@.len(),
                crate::db::posts_distinct(self@),
                forall|j1: int, j2: int|
                    0 <= j1 < j2 < coll@.len() ==> !((#[trigger] coll@[j1]).board_id == (
                    #[trigger] coll@[j2]).board_id && coll@[j1].post_num == coll@[j2].post_num),
                forall|j: int|
                    0 <= j < coll@.len() ==> self.originals@.take(i as int).contains(
                        #[trigger] coll@[j],
                    ) && coll@[j].board_id == board_id && !coll@[j].archived,
                forall|k: int|
                    0 <= k < i && (#[trigger] self.originals@[k]).board_id == board_id
                        && !self.originals@[k].archived ==> coll@.contains(self.originals@[k]),
                coll@.len() == crate::counting::count_matching(
                    self.originals@.take(i as int),
                    crate::db::live_on_board_pred(board_id),
                ),
            decreases self.originals@.len() - i,
        {
            let ghost old_coll = coll@;
            if self.originals[i].board_id == board_id && !self.originals[i].archived {
                coll.push(self.originals[i].clone());
            }
            proof {
                let o = self.originals@[i as int];
                assert(self.originals@.take(i + 1) =~= self.originals@.take(i as int).push(o));
                crate::counting::lemma_count_take_step(
                    self.originals@,
                    crate::db::live_on_board_pred(board_id),
                    i as int,
                );
                assert forall|oo: Original| #[trigger] self.originals@.take(i as int).contains(
                    oo,
                ) implies self.originals@.take(i + 1).contains(oo) by {
                    let k = choose|k: int|
                        0 <= k < self.originals@.take(i as int).len() && self.originals@.take(
                            i as int,
                        )[k] == oo;
                    assert(self.originals@.take(i + 1)[k] == oo);
                }
                if o.board_id == board_id && !o.archived {
                    assert(coll@[old_coll.len() as int] == o);
                    assert(self.originals@.take(i + 1)[i as int] == o);
                    assert forall|j1: int, j2: int| 0 <= j1 < j2 < coll@.len() implies !((
                    #[trigger] coll@[j1]).board_id == (#[trigger] coll@[j2]).board_id
                        && coll@[j1].post_num == coll@[j2].post_num) by {
                        if j2 == old_coll.len() {
                            assert(self.originals@.take(i as int).contains(old_coll[j1]));
                            let k1 = choose|k: int|
                                0 <= k < self.originals@.take(i as int).len()
                                    && self.originals@.take(i as int)[k] == old_coll[j1];
                            assert(coll@[j1] == self.originals@[k1]);
                            assert(!((#[trigger] self.originals@[k1]).board_id == (
                            #[trigger] self.originals@[i as int]).board_id
                                && self.originals@[k1].post_num
                                == self.originals@[i as int].post_num));
                        }
                    }
                }
                assert forall|j: int| 0 <= j < coll@.len() implies self.originals@.take(
                    i + 1,
                ).contains(#[trigger] coll@[j]) && coll@[j].board_id == board_id
                    && !coll@[j].archived by {
                    if j < old_coll.len() {
                        assert(coll@[j] == old_coll[j]);
                        assert(self.originals@.take(i as int).contains(old_coll[j]));
                    } else {
                        assert(coll@[j] == o);
                        assert(self.originals@.take(i + 1)[i as int] == coll@[j]);
                    }
                }
                assert forall|k: int|
                    0 <= k < i + 1 && (#[trigger] self.originals@[k]).board_id == board_id
                        && !self.originals@[k].archived implies coll@.contains(
                    self.originals@[k],
                ) by {
                    if k < i {
                        assert(old_coll.contains(self.originals@[k]));
                        let j = choose|j: int|
                            0 <= j < old_coll.len() && old_coll[j] == self.originals@[k];
                        assert(coll@[j] == self.originals@[k]);
                    } else {
                        assert(coll@[old_coll.len() as int] == self.originals@[k]);
                    }
                }
            }
            i += 1;
        }
        proof {
            assert(self.originals@.take(self.originals@.len() as int) =~= self.originals@);
        }
        let mut out: Vec<Original> = Vec::new();
        let mut idx: usize = 0;
        while idx < coll.len()
            invariant
                idx <= coll@.len(),
                out@.len() == idx,
                crate::db::sorted_by_rank(out@),
                forall|j1: int, j2: int|
                    0 <= j1 < j2 < coll@.len() ==> !((#[trigger] coll@[j1]).board_id == (
                    #[trigger] coll@[j2]).board_id && coll@[j1].post_num == coll@[j2].post_num),
                forall|j1: int, j2: int|
                    0 <= j1 < j2 < out@.len() ==> !((#[trigger] out@[j1]).board_id == (
                    #[trigger] out@[j2]).board_id && out@[j1].post_num == out@[j2].post_num),
                forall|j: int| 0 <= j < out@.len() ==> coll@.take(idx as int).contains(#[trigger] out@[j]),
                forall|k: int| 0 <= k < idx ==> out@.contains(#[trigger] coll@[k]),
            decreases coll@.len() - idx,
        {
            let x = coll[idx].clone();
            let ghost xg = coll@[idx as int];
            let mut p: usize = 0;
            while p < out.len() && MemDatabase::rank_at_least(&out[p], &x)
                invariant
                    p <= out@.len(),
                    x == xg,
                    forall|q: int| 0 <= q < p ==> crate::db::rank_geq(#[trigger] out@[q], xg),
                decreases out@.len() - p,
            {
                p += 1;
            }
            let ghost old_out = out@;
            let ghost pg = p as int;
            out.insert(p, x);
            proof {
                old_out.insert_ensures(pg, xg);
                assert(coll@.take(idx + 1) =~= coll@.take(idx as int).push(xg));
                assert(crate::db::sorted_by_rank(out@)) by {
                    assert forall|q: int|
                        pg <= q < old_out.len() implies crate::db::rank_geq(xg, old_out[q]) by {
                        if pg < old_out.len() {
                            assert(!crate::db::rank_geq(old_out[pg], xg));
                            assert(crate::db::rank_geq(xg, old_out[pg]));
                            if q > pg {
                                assert(crate::db::rank_geq(old_out[pg], old_out[q]));
                            }
                        }
                    }
                    assert forall|i1: int, j1: int|
                        0 <= i1 < j1 < out@.len() implies crate::db::rank_geq(
                        #[trigger] out@[i1],
                        #[trigger] out@[j1],
                    ) by {
                        if i1 < pg && j1 < pg {
                            assert(out@[i1] == old_out[i1] && out@[j1] == old_out[j1]);
                        } else if i1 < pg && j1 == pg {
                            assert(out@[i1] == old_out[i1] && out@[j1] == xg);
                        } else if i1 < pg {
                            assert(out@[i1] == old_out[i1] && out@[j1] == old_out[j1 - 1]);
                        } else if i1 == pg {
                            assert(out@[i1] == xg && out@[j1] == old_out[j1 - 1]);
                        } else {
                            assert(out@[i1] == old_out[i1 - 1] && out@[j1] == old_out[j1 - 1]);
                        }
                    }
                }
                assert forall|j: int| 0 <= j < out@.len() implies coll@.take(idx + 1).contains(
                    #[trigger] out@[j],
                ) by {
                    if j == pg {
                        assert(out@[j] == xg);
                        assert(coll@.take(idx + 1)[idx as int] == xg);
                    } else {
                        let jj = if j < pg {
                            j
                        } else {
                            j - 1
                        };
                        assert(out@[j] == old_out[jj]);
                        assert(coll@.take(idx as int).contains(old_out[jj]));
                        let k = choose|k: int|
                            0 <= k < coll@.take(idx as int).len() && coll@.take(idx as int)[k]
                                == old_out[jj];
                        assert(coll@.take(idx + 1)[k] == old_out[jj]);
                    }
                }
                assert forall|j1: int, j2: int| 0 <= j1 < j2 < out@.len() implies !((
                #[trigger] out@[j1]).board_id == (#[trigger] out@[j2]).board_id && out@[j1].post_num
                    == out@[j2].post_num) by {
                    let a1 = if j1 == pg {
                        idx as int
                    } else {
                        let jj = if j1 < pg {
                            j1
                        } else {
                            j1 - 1
                        };
                        assert(coll@.take(idx as int).contains(old_out[jj]));
                        choose|k: int|
                            0 <= k < coll@.take(idx as int).len() && coll@.take(idx as int)[k]
                                == old_out[jj]
                    };
                    let a2 = if j2 == pg {
                        idx as int
                    } else {
                        let jj = if j2 < pg {
                            j2
                        } else {
                            j2 - 1
                        };
                        assert(coll@.take(idx as int).contains(old_out[jj]));
                        choose|k: int|
                            0 <= k < coll@.take(idx as int).len() && coll@.take(idx as int)[k]
                                == old_out[jj]
                    };
                    assert(out@[j1] == coll@[a1]);
                    assert(out@[j2] == coll@[a2]);
                    if a1 != a2 {
                        if a1 < a2 {
                            assert(!((#[trigger] coll@[a1]).board_id == (
                            #[trigger] coll@[a2]).board_id && coll@[a1].post_num
                                == coll@[a2].post_num));
                        } else {
                            assert(!((#[trigger] coll@[a2]).board_id == (
                            #[trigger] coll@[a1]).board_id && coll@[a2].post_num
                                == coll@[a1].post_num));
                        }
                    } else {
                        assert(j1 != pg && j2 != pg ==> old_out[if j1 < pg {
                            j1
                        } else {
                            j1 - 1
                        }] == old_out[if j2 < pg {
                            j2
                        } else {
                            j2 - 1
                        }]);
                        assert(false);
                    }
                }
                assert forall|k: int| 0 <= k < idx + 1 implies out@.contains(
                    #[trigger] coll@[k],
                ) by {
                    if k < idx {
                        assert(old_out.contains(coll@[k]));
                        let j = choose|j: int| 0 <= j < old_out.len() && old_out[j] == coll@[k];
                        if j < pg {
                            assert(out@[j] == coll@[k]);
                        } else {
                            assert(out@[j + 1] == coll@[k]);
                        }
                    } else {
                        assert(out@[pg] == coll@[k]);
                    }
                }
            }
            idx += 1;
        }
        proof {
            assert(coll@.take(coll@.len() as int) =~= coll@);
            assert forall|j: int| 0 <= j < out@.len() implies self@.originals.contains(
                #[trigger] out@[j],
            ) && out@[j].board_id == board_id && !out@[j].archived by {
                assert(coll@.contains(out@[j]));
                let k = choose|k: int| 0 <= k < coll@.len() && coll@[k] == out@[j];
                assert(self.originals@.take(self.originals@.len() as int).contains(coll@[k]));
            }
            assert forall|o: Original|
                self@.originals.contains(o) && o.board_id == board_id && !o.archived implies out@.contains(
                o,
            ) by {
                let k = choose|k: int| 0 <= k < self.originals@.len() && self.originals@[k] == o;
                assert(coll@.contains(self.originals@[k]));
                let j = choose|j: int| 0 <= j < coll@.len() && coll@[j] == o;
                assert(out@.contains(coll@[j]));
            }
        }
        let time = crate::util::timestamp();
        Ok(Catalog { board_id, time, originals: out })
    }
}

impl crate::db::Database for MemDatabase {
    open spec fn store(&self) -> StoreView {
        self@
    }

    fn get_site(&self) -> Result<Site, PlainchantErr> {
        self.get_site()
    }

    fn set_site(&mut self, site: Site) -> Result<(), PlainchantErr> {
        self.set_site(site)
    }

    fn get_boards(&self) -> Result<Vec<Board>, PlainchantErr> {
        self.get_boards()
    }

    fn get_board(&self, board_id: u64) -> Result<Board, PlainchantErr> {
        self.get_board(board_id)
    }

    fn get_catalog(&self, board_id: u64) -> Result<Catalog, PlainchantErr> {
        self.get_catalog(board_id)
    }

    fn get_original(&self, board_id: u64, post_num: u64) -> Result<Original, PlainchantErr> {
        self.get_original(board_id, post_num)
    }

    fn get_reply(&self, board_id: u64, post_num: u64) -> Result<Reply, PlainchantErr> {
        self.get_reply(board_id, post_num)
    }

    fn get_post(&self, board_id: u64, post_num: u64) -> Result<AnyPost, PlainchantErr> {
        self.get_post(board_id, post_num)
    }

    fn get_thread(&self, board_id: u64, post_num: u64) -> Result<Thread, PlainchantErr> {
        self.get_thread(board_id, post_num)
    }

    fn get_bans(&self) -> Result<Vec<Ban>, PlainchantErr> {
        self.get_bans()
    }

    fn get_all_posts_by_ip(&self, ip: &str) -> Result<Vec<AnyPost>, PlainchantErr> {
        self.get_all_posts_by_ip(ip)
    }

    fn create_original(&mut self, orig: Original) -> Result<u64, PlainchantErr> {
        let r = self.create_original(orig);
        proof {
            use_type_invariant(&*self);
        }
        r
    }

    fn create_reply(&mut self, reply: Reply) -> Result<u64, PlainchantErr> {
        let r = self.create_reply(reply);
        proof {
            use_type_invariant(&*self);
        }
        r
    }

    fn delete_original(&mut self, board_id: u64, post_num: u64) -> Result<(), PlainchantErr> {
        let r = self.delete_original(board_id, post_num);
        proof {
            use_type_invariant(&*self);
        }
        r
    }

    fn delete_reply(&mut self, board_id: u64, post_num: u64) -> Result<(), PlainchantErr> {
        let r = self.delete_reply(board_id, post_num);
        proof {
            use_type_invariant(&*self);
        }
        r
    }

    fn create_board(&mut self, board: Board) -> Result<(), PlainchantErr> {
        let r = self.create_board(board);
        proof {
            use_type_invariant(&*self);
        }
        r
    }

    fn delete_board(&mut self, board_id: u64) -> Result<(), PlainchantErr> {
        let r = self.delete_board(board_id);
        proof {
            use_type_invariant(&*self);
        }
        r
    }

    fn create_ban(&mut self, ban: Ban) -> Result<(), PlainchantErr> {
        let r = self.create_ban(ban);
        proof {
            use_type_invariant(&*self);
        }
        r
    }

    fn delete_bans(&mut self, ip: &str) -> Result<(), PlainchantErr> {
        let r = self.delete_bans(ip);
        proof {
            use_type_invariant(&*self);
        }
        r
    }
}

} // verus!
