//! The entity store interface: its abstract state, the invariants that state
//! must keep, the `Database` trait every backend offers, and the laws that
//! follow from the store's transition contracts.

use vstd::prelude::*;

use crate::counting::count_matching;
use crate::site::Ban;
use crate::site::Board;
use crate::site::Catalog;
use crate::site::Original;
use crate::site::Reply;
use crate::site::Site;
use crate::util::ErrOrigin;
use crate::util::PlainchantErr;

verus! {

/// An original plus all of its replies.
#[derive(Debug)]
pub struct Thread {
    pub original: Original,
    pub replies: Vec<Reply>,
}

/// A post of either kind, for callers that do not know a post's kind in
/// advance.
#[derive(Debug)]
pub enum AnyPost {
    Original(Original),
    Reply(Reply),
}

impl AnyPost {
    pub open spec fn spec_board_id(&self) -> u64 {
        match self {
            AnyPost::Original(o) => o.board_id,
            AnyPost::Reply(r) => r.board_id,
        }
    }

    pub open spec fn spec_post_num(&self) -> u64 {
        match self {
            AnyPost::Original(o) => o.post_num,
            AnyPost::Reply(r) => r.post_num,
        }
    }

    pub fn board_id(&self) -> (r: u64)
        ensures
            r == self.spec_board_id(),
    {
        match self {
            AnyPost::Original(o) => o.board_id,
            AnyPost::Reply(rp) => rp.board_id,
        }
    }

    pub fn post_num(&self) -> (r: u64)
        ensures
            r == self.spec_post_num(),
    {
        match self {
            AnyPost::Original(o) => o.post_num,
            AnyPost::Reply(rp) => rp.post_num,
        }
    }
}

/// An error whose origin is the entity store.
pub fn static_err(msg: &'static str) -> (r: PlainchantErr)
    ensures
        r.origin is Database,
        r.msg@ == msg@,
{
    PlainchantErr { origin: ErrOrigin::Database, msg: msg.to_owned() }
}

/// The abstract state of an entity store: the rows of its four tables and
/// the site record.
pub ghost struct StoreView {
    pub site: Site,
    pub boards: Seq<Board>,
    pub originals: Seq<Original>,
    pub replies: Seq<Reply>,
    pub bans: Seq<Ban>,
}

pub open spec fn has_board(s: StoreView, board_id: u64) -> bool {
    exists|i: int| 0 <= i < s.boards.len() && (#[trigger] s.boards[i]).id == board_id
}

pub open spec fn board_of(s: StoreView, board_id: u64) -> Board {
    s.boards[choose|i: int| 0 <= i < s.boards.len() && (#[trigger] s.boards[i]).id == board_id]
}

pub open spec fn has_original(s: StoreView, board_id: u64, post_num: u64) -> bool {
    exists|i: int|
        0 <= i < s.originals.len() && (#[trigger] s.originals[i]).board_id == board_id
            && s.originals[i].post_num == post_num
}

pub open spec fn original_of(s: StoreView, board_id: u64, post_num: u64) -> Original {
    s.originals[choose|i: int|
        0 <= i < s.originals.len() && (#[trigger] s.originals[i]).board_id == board_id
            && s.originals[i].post_num == post_num]
}

pub open spec fn has_reply(s: StoreView, board_id: u64, post_num: u64) -> bool {
    exists|i: int|
        0 <= i < s.replies.len() && (#[trigger] s.replies[i]).board_id == board_id
            && s.replies[i].post_num == post_num
}

pub open spec fn reply_of(s: StoreView, board_id: u64, post_num: u64) -> Reply {
    s.replies[choose|i: int|
        0 <= i < s.replies.len() && (#[trigger] s.replies[i]).board_id == board_id
            && s.replies[i].post_num == post_num]
}

/// A post of either kind exists under this number.
pub open spec fn has_post(s: StoreView, board_id: u64, post_num: u64) -> bool {
    has_original(s, board_id, post_num) || has_reply(s, board_id, post_num)
}

/// The replies that belong to the thread rooted at `(board_id, post_num)`.
pub open spec fn reply_to_pred(board_id: u64, post_num: u64) -> spec_fn(Reply) -> bool {
    |r: Reply| r.board_id == board_id && r.orig_num == post_num
}

/// Those of them that carry a file.
pub open spec fn img_reply_to_pred(board_id: u64, post_num: u64) -> spec_fn(Reply) -> bool {
    |r: Reply| r.board_id == board_id && r.orig_num == post_num && r.file_id is Some
}

pub open spec fn reply_count(s: StoreView, board_id: u64, post_num: u64) -> nat {
    count_matching(s.replies, reply_to_pred(board_id, post_num))
}

pub open spec fn img_reply_count(s: StoreView, board_id: u64, post_num: u64) -> nat {
    count_matching(s.replies, img_reply_to_pred(board_id, post_num))
}

/// The originals that a board's catalog lists: on the board and not archived.
pub open spec fn live_on_board_pred(board_id: u64) -> spec_fn(Original) -> bool {
    |o: Original| o.board_id == board_id && !o.archived
}

/// Board ids are unique.
pub open spec fn boards_distinct(s: StoreView) -> bool {
    forall|i: int, j: int|
        0 <= i < j < s.boards.len() ==> (#[trigger] s.boards[i]).id != (#[trigger] s.boards[j]).id
}

/// Post numbers are unique per board across the shared numbering space of
/// originals and replies.
pub open spec fn posts_distinct(s: StoreView) -> bool {
    &&& forall|i: int, j: int|
        0 <= i < j < s.originals.len() ==> !((#[trigger] s.originals[i]).board_id == (
        #[trigger] s.originals[j]).board_id && s.originals[i].post_num == s.originals[j].post_num)
    &&& forall|i: int, j: int|
        0 <= i < j < s.replies.len() ==> !((#[trigger] s.replies[i]).board_id == (
        #[trigger] s.replies[j]).board_id && s.replies[i].post_num == s.replies[j].post_num)
    &&& forall|i: int, j: int|
        0 <= i < s.originals.len() && 0 <= j < s.replies.len() ==> !((
        #[trigger] s.originals[i]).board_id == (#[trigger] s.replies[j]).board_id
            && s.originals[i].post_num == s.replies[j].post_num)
}

/// Ban rows carry unique ids.
pub open spec fn bans_distinct(s: StoreView) -> bool {
    forall|i: int, j: int|
        0 <= i < j < s.bans.len() ==> (#[trigger] s.bans[i]).id != (#[trigger] s.bans[j]).id
}

/// Every post belongs to an existing board and its number is below the
/// board's counter; every reply's parent original exists.
pub open spec fn posts_well_keyed(s: StoreView) -> bool {
    &&& forall|i: int|
        0 <= i < s.originals.len() ==> has_board(s, (#[trigger] s.originals[i]).board_id)
            && s.originals[i].post_num < board_of(s, s.originals[i].board_id).next_post_num
    &&& forall|i: int|
        0 <= i < s.replies.len() ==> has_board(s, (#[trigger] s.replies[i]).board_id)
            && s.replies[i].post_num < board_of(s, s.replies[i].board_id).next_post_num
            && has_original(s, s.replies[i].board_id, s.replies[i].orig_num)
}

/// The reply counters cached on each original agree with the replies that
/// actually reference it.
pub open spec fn counts_consistent(s: StoreView) -> bool {
    forall|i: int|
        0 <= i < s.originals.len() ==> (#[trigger] s.originals[i]).replies == reply_count(
            s,
            s.originals[i].board_id,
            s.originals[i].post_num,
        ) && s.originals[i].img_replies == img_reply_count(
            s,
            s.originals[i].board_id,
            s.originals[i].post_num,
        )
}

/// What every reachable entity store state satisfies.
pub open spec fn store_inv(s: StoreView) -> bool {
    &&& boards_distinct(s)
    &&& posts_distinct(s)
    &&& bans_distinct(s)
    &&& posts_well_keyed(s)
    &&& counts_consistent(s)
}

/// One successful allocation from a board's post-number counter: the number
/// handed out is the counter's value, the counter moves up by one, and no
/// other board field and no other board changes.
pub open spec fn counter_step(pre: StoreView, post: StoreView, board_id: u64, n: u64) -> bool {
    &&& has_board(pre, board_id)
    &&& n == board_of(pre, board_id).next_post_num
    &&& n < u64::MAX
    &&& forall|id: u64| has_board(post, id) == has_board(pre, id)
    &&& forall|id: u64|
        id != board_id && has_board(pre, id) ==> board_of(post, id) == board_of(pre, id)
    &&& board_of(post, board_id) == (Board {
        next_post_num: (n + 1) as u64,
        ..board_of(pre, board_id)
    })
}

/// The row a fresh original is stored as: the assigned number, and reply
/// counters starting at zero — a new thread has no replies yet.
pub open spec fn stored_original(o: Original, n: u64) -> Original {
    Original { post_num: n, replies: 0, img_replies: 0, ..o }
}

pub open spec fn reply_with_num(r: Reply, n: u64) -> Reply {
    Reply { post_num: n, ..r }
}

/// A successful `create_original`: the row is stored under the number the
/// counter handed out; nothing else changes.
pub open spec fn create_original_ok(pre: StoreView, post: StoreView, orig: Original, n: u64) -> bool {
    &&& counter_step(pre, post, orig.board_id, n)
    &&& post.originals == pre.originals.push(stored_original(orig, n))
    &&& post.replies == pre.replies
    &&& post.bans == pre.bans
    &&& post.site == pre.site
}

/// How a parent original looks after one more reply arrives at time
/// `r_time`: counters up, and the thread bumped only while the new reply
/// count is within the board's bump limit.
pub open spec fn parent_after_reply(parent: Original, bump_limit: u16, r_time: u64, has_file: bool) -> Original {
    Original {
        replies: (parent.replies + 1) as u16,
        img_replies: if has_file {
            (parent.img_replies + 1) as u16
        } else {
            parent.img_replies
        },
        bump_time: if parent.replies + 1 <= bump_limit {
            r_time
        } else {
            parent.bump_time
        },
        ..parent
    }
}

/// A successful `create_reply`: the reply is stored under the number the
/// counter handed out, and its parent is updated in place as
/// `parent_after_reply` says; nothing else changes.
pub open spec fn create_reply_ok(pre: StoreView, post: StoreView, reply: Reply, n: u64) -> bool {
    let b = reply.board_id;
    let t = reply.orig_num;
    let parent = original_of(pre, b, t);
    let new_parent = parent_after_reply(
        parent,
        board_of(pre, b).bump_limit,
        reply.time,
        reply.file_id is Some,
    );
    &&& counter_step(pre, post, b, n)
    &&& has_original(pre, b, t)
    &&& parent.replies < u16::MAX
    &&& reply.file_id is Some ==> parent.img_replies < u16::MAX
    &&& post.replies == pre.replies.push(reply_with_num(reply, n))
    &&& exists|i: int|
        0 <= i < pre.originals.len() && pre.originals[i] == parent && post.originals
            == pre.originals.update(i, new_parent)
    &&& has_original(post, b, t)
    &&& original_of(post, b, t) == new_parent
    &&& post.bans == pre.bans
    &&& post.site == pre.site
}

/// The ban table with every row for `ip` removed, order kept.
pub open spec fn bans_without(s: Seq<Ban>, ip: Seq<char>) -> Seq<Ban> {
    s.filter(|b: Ban| b.ip@ != ip)
}

/// The reply table with the thread rooted at `(board_id, post_num)`
/// removed, order kept.
pub open spec fn replies_without_thread(s: Seq<Reply>, board_id: u64, post_num: u64) -> Seq<Reply> {
    s.filter(|r: Reply| !(r.board_id == board_id && r.orig_num == post_num))
}

/// The original table with a whole board's rows removed, order kept.
pub open spec fn originals_without_board(s: Seq<Original>, board_id: u64) -> Seq<Original> {
    s.filter(|o: Original| o.board_id != board_id)
}

/// The reply table with a whole board's rows removed, order kept.
pub open spec fn replies_without_board(s: Seq<Reply>, board_id: u64) -> Seq<Reply> {
    s.filter(|r: Reply| r.board_id != board_id)
}

/// A successful `delete_original`: the original and every reply of its
/// thread are gone; every other post, and everything else, stays.
pub open spec fn delete_original_ok(pre: StoreView, post: StoreView, board_id: u64, post_num: u64) -> bool {
    &&& has_original(pre, board_id, post_num)
    &&& exists|i: int|
        0 <= i < pre.originals.len() && (#[trigger] pre.originals[i]).board_id == board_id
            && pre.originals[i].post_num == post_num && post.originals == pre.originals.remove(i)
    &&& post.replies == replies_without_thread(pre.replies, board_id, post_num)
    &&& forall|o: Original|
        #[trigger] post.originals.contains(o) <==> pre.originals.contains(o) && !(o.board_id
            == board_id && o.post_num == post_num)
    &&& forall|r: Reply|
        #[trigger] post.replies.contains(r) <==> pre.replies.contains(r) && !(r.board_id
            == board_id && r.orig_num == post_num)
    &&& post.boards == pre.boards
    &&& post.bans == pre.bans
    &&& post.site == pre.site
}

/// A successful `delete_reply`: the one reply row is gone and its parent's
/// counters are decremented; nothing else changes.
pub open spec fn delete_reply_ok(pre: StoreView, post: StoreView, board_id: u64, post_num: u64) -> bool {
    let r = reply_of(pre, board_id, post_num);
    let parent = original_of(pre, board_id, r.orig_num);
    let new_parent = Original {
        replies: (parent.replies - 1) as u16,
        img_replies: if r.file_id is Some {
            (parent.img_replies - 1) as u16
        } else {
            parent.img_replies
        },
        ..parent
    };
    &&& has_reply(pre, board_id, post_num)
    &&& has_original(pre, board_id, r.orig_num)
    &&& parent.replies > 0
    &&& r.file_id is Some ==> parent.img_replies > 0
    &&& exists|j: int|
        0 <= j < pre.replies.len() && pre.replies[j] == r && post.replies == pre.replies.remove(j)
    &&& exists|i: int|
        0 <= i < pre.originals.len() && pre.originals[i] == parent && post.originals
            == pre.originals.update(i, new_parent)
    &&& post.boards == pre.boards
    &&& post.bans == pre.bans
    &&& post.site == pre.site
}

/// A successful `create_board`: the new row is appended; its id was free.
pub open spec fn create_board_ok(pre: StoreView, post: StoreView, board: Board) -> bool {
    &&& !has_board(pre, board.id)
    &&& post.boards == pre.boards.push(board)
    &&& post.originals == pre.originals
    &&& post.replies == pre.replies
    &&& post.bans == pre.bans
    &&& post.site == pre.site
}

/// A successful `delete_board`: the board and all of its posts are gone.
pub open spec fn delete_board_ok(pre: StoreView, post: StoreView, board_id: u64) -> bool {
    &&& exists|i: int|
        0 <= i < pre.boards.len() && (#[trigger] pre.boards[i]).id == board_id && post.boards
            == pre.boards.remove(i)
    &&& post.originals == originals_without_board(pre.originals, board_id)
    &&& post.replies == replies_without_board(pre.replies, board_id)
    &&& forall|b: Board| #[trigger] post.boards.contains(b) <==> pre.boards.contains(b) && b.id != board_id
    &&& forall|o: Original|
        #[trigger] post.originals.contains(o) <==> pre.originals.contains(o) && o.board_id != board_id
    &&& forall|r: Reply|
        #[trigger] post.replies.contains(r) <==> pre.replies.contains(r) && r.board_id != board_id
    &&& post.bans == pre.bans
    &&& post.site == pre.site
}

/// A successful `create_ban`: the row is appended under some fresh id, with
/// the ip and expiry the caller gave.
pub open spec fn create_ban_ok(pre: StoreView, post: StoreView, ban: Ban) -> bool {
    &&& exists|bid: u64|
        post.bans == pre.bans.push(Ban { id: bid, ip: ban.ip, time_expires: ban.time_expires })
    &&& post.boards == pre.boards
    &&& post.originals == pre.originals
    &&& post.replies == pre.replies
    &&& post.site == pre.site
}

/// One ban row for `ip` with expiry `expiry` was appended; nothing else
/// changed. This is what `create_ban_ok` yields once the row's fields are
/// fixed.
pub open spec fn ban_appended(pre: StoreView, post: StoreView, ip: Seq<char>, expiry: u64) -> bool {
    &&& post.bans.len() == pre.bans.len() + 1
    &&& post.bans.take(pre.bans.len() as int) == pre.bans
    &&& post.bans.last().ip@ == ip
    &&& post.bans.last().time_expires == expiry
    &&& post.boards == pre.boards
    &&& post.originals == pre.originals
    &&& post.replies == pre.replies
    &&& post.site == pre.site
}

/// A successful `delete_bans`: every row for the ip is gone, all others stay.
pub open spec fn delete_bans_ok(pre: StoreView, post: StoreView, ip: Seq<char>) -> bool {
    &&& post.bans == bans_without(pre.bans, ip)
    &&& forall|b: Ban| #[trigger] post.bans.contains(b) <==> pre.bans.contains(b) && b.ip@ != ip
    &&& post.boards == pre.boards
    &&& post.originals == pre.originals
    &&& post.replies == pre.replies
    &&& post.site == pre.site
}

/// Catalog rank: more recently bumped first, ties broken by the higher post
/// number.
pub open spec fn rank_geq(a: Original, b: Original) -> bool {
    a.bump_time > b.bump_time || (a.bump_time == b.bump_time && a.post_num >= b.post_num)
}

pub open spec fn sorted_by_rank(s: Seq<Original>) -> bool {
    forall|i: int, j: int| 0 <= i < j < s.len() ==> rank_geq(#[trigger] s[i], #[trigger] s[j])
}

/// What `get_catalog` returns: exactly the board's live originals, in bump
/// rank order.
pub open spec fn catalog_ok(s: StoreView, board_id: u64, c: Catalog) -> bool {
    &&& c.board_id == board_id
    &&& forall|i: int, j: int|
        0 <= i < j < c.originals@.len() ==> !((#[trigger] c.originals@[i]).board_id == (
        #[trigger] c.originals@[j]).board_id && c.originals@[i].post_num == c.originals@[j].post_num)
    &&& forall|i: int|
        0 <= i < c.originals@.len() ==> s.originals.contains(#[trigger] c.originals@[i])
            && c.originals@[i].board_id == board_id && !c.originals@[i].archived
    &&& forall|o: Original|
        s.originals.contains(o) && o.board_id == board_id && !o.archived ==> c.originals@.contains(
            o,
        )
    &&& c.originals@.len() == count_matching(s.originals, live_on_board_pred(board_id))
    &&& sorted_by_rank(c.originals@)
}

/// What `get_thread` returns: the original plus exactly its replies.
pub open spec fn thread_ok(s: StoreView, board_id: u64, post_num: u64, t: Thread) -> bool {
    &&& has_original(s, board_id, post_num)
    &&& t.original == original_of(s, board_id, post_num)
    &&& forall|i: int|
        0 <= i < t.replies@.len() ==> s.replies.contains(#[trigger] t.replies@[i])
            && t.replies@[i].board_id == board_id && t.replies@[i].orig_num == post_num
    &&& forall|r: Reply|
        s.replies.contains(r) && r.board_id == board_id && r.orig_num == post_num
            ==> t.replies@.contains(r)
    &&& t.replies@.len() == reply_count(s, board_id, post_num)
}

/// The originals, and the replies, that a given ip authored.
pub open spec fn orig_by_ip_pred(ip: Seq<char>) -> spec_fn(Original) -> bool {
    |o: Original| o.ip@ == ip
}

pub open spec fn reply_by_ip_pred(ip: Seq<char>) -> spec_fn(Reply) -> bool {
    |r: Reply| r.ip@ == ip
}

/// What `get_all_posts_by_ip` returns: every post whose ip matches, of
/// either kind, and nothing else.
pub open spec fn posts_by_ip_ok(s: StoreView, ip: Seq<char>, ps: Seq<AnyPost>) -> bool {
    &&& forall|i: int|
        0 <= i < ps.len() ==> match #[trigger] ps[i] {
            AnyPost::Original(o) => s.originals.contains(o) && o.ip@ == ip,
            AnyPost::Reply(r) => s.replies.contains(r) && r.ip@ == ip,
        }
    &&& forall|o: Original|
        s.originals.contains(o) && o.ip@ == ip ==> ps.contains(AnyPost::Original(o))
    &&& forall|r: Reply| s.replies.contains(r) && r.ip@ == ip ==> ps.contains(AnyPost::Reply(r))
    &&& ps.len() == count_matching(s.originals, orig_by_ip_pred(ip)) + count_matching(
        s.replies,
        reply_by_ip_pred(ip),
    )
}

/// What every entity store backend offers. A backend may fail on any call
/// (a connection error, a failed transaction); the contracts therefore
/// promise what holds *when* a call succeeds, and that a failed mutation has
/// changed nothing — spec-level atomicity. The in-memory store of [`crate::memdb`]
/// strengthens these with exact success conditions.
pub trait Database: Sized {
    /// The abstract state this backend currently holds.
    spec fn store(&self) -> StoreView;

    fn get_site(&self) -> (r: Result<Site, PlainchantErr>)
        ensures
            r is Ok ==> r->Ok_0 == self.store().site,
    ;

    fn set_site(&mut self, site: Site) -> (r: Result<(), PlainchantErr>)
        ensures
            r is Ok ==> final(self).store() == (StoreView { site, ..old(self).store() }),
            r is Err ==> final(self).store() == old(self).store(),
    ;

    fn get_boards(&self) -> (r: Result<Vec<Board>, PlainchantErr>)
        ensures
            r is Ok ==> r->Ok_0@ == self.store().boards,
    ;

    fn get_board(&self, board_id: u64) -> (r: Result<Board, PlainchantErr>)
        ensures
            r is Ok ==> has_board(self.store(), board_id) && r->Ok_0 == board_of(
                self.store(),
                board_id,
            ),
    ;

    fn get_catalog(&self, board_id: u64) -> (r: Result<Catalog, PlainchantErr>)
        ensures
            r is Ok ==> catalog_ok(self.store(), board_id, r->Ok_0),
    ;

    fn get_original(&self, board_id: u64, post_num: u64) -> (r: Result<Original, PlainchantErr>)
        ensures
            r is Ok ==> has_original(self.store(), board_id, post_num) && r->Ok_0 == original_of(
                self.store(),
                board_id,
                post_num,
            ),
    ;

    fn get_reply(&self, board_id: u64, post_num: u64) -> (r: Result<Reply, PlainchantErr>)
        ensures
            r is Ok ==> has_reply(self.store(), board_id, post_num) && r->Ok_0 == reply_of(
                self.store(),
                board_id,
                post_num,
            ),
    ;

    fn get_post(&self, board_id: u64, post_num: u64) -> (r: Result<AnyPost, PlainchantErr>)
        ensures
            r is Ok ==> match r->Ok_0 {
                AnyPost::Original(o) => has_original(self.store(), board_id, post_num) && o
                    == original_of(self.store(), board_id, post_num),
                AnyPost::Reply(rp) => has_reply(self.store(), board_id, post_num) && rp == reply_of(
                    self.store(),
                    board_id,
                    post_num,
                ),
            },
    ;

    fn get_thread(&self, board_id: u64, post_num: u64) -> (r: Result<Thread, PlainchantErr>)
        ensures
            r is Ok ==> thread_ok(self.store(), board_id, post_num, r->Ok_0),
    ;

    fn get_bans(&self) -> (r: Result<Vec<Ban>, PlainchantErr>)
        ensures
            r is Ok ==> r->Ok_0@ == self.store().bans,
    ;

    fn get_all_posts_by_ip(&self, ip: &str) -> (r: Result<Vec<AnyPost>, PlainchantErr>)
        ensures
            r is Ok ==> posts_by_ip_ok(self.store(), ip@, r->Ok_0@),
    ;

    fn create_original(&mut self, orig: Original) -> (r: Result<u64, PlainchantErr>)
        ensures
            r is Ok ==> create_original_ok(old(self).store(), final(self).store(), orig, r->Ok_0),
            r is Ok && store_inv(old(self).store()) ==> store_inv(final(self).store()),
            r is Err ==> final(self).store() == old(self).store(),
    ;

    fn create_reply(&mut self, reply: Reply) -> (r: Result<u64, PlainchantErr>)
        ensures
            r is Ok ==> create_reply_ok(old(self).store(), final(self).store(), reply, r->Ok_0),
            r is Ok && store_inv(old(self).store()) ==> store_inv(final(self).store()),
            r is Err ==> final(self).store() == old(self).store(),
    ;

    fn delete_original(&mut self, board_id: u64, post_num: u64) -> (r: Result<(), PlainchantErr>)
        ensures
            r is Ok ==> delete_original_ok(
                old(self).store(),
                final(self).store(),
                board_id,
                post_num,
            ),
            r is Ok && store_inv(old(self).store()) ==> store_inv(final(self).store()),
            r is Err ==> final(self).store() == old(self).store(),
    ;

    fn delete_reply(&mut self, board_id: u64, post_num: u64) -> (r: Result<(), PlainchantErr>)
        ensures
            r is Ok ==> delete_reply_ok(old(self).store(), final(self).store(), board_id, post_num),
            r is Ok && store_inv(old(self).store()) ==> store_inv(final(self).store()),
            r is Err ==> final(self).store() == old(self).store(),
    ;

    fn create_board(&mut self, board: Board) -> (r: Result<(), PlainchantErr>)
        ensures
            r is Ok ==> create_board_ok(old(self).store(), final(self).store(), board),
            r is Ok && store_inv(old(self).store()) ==> store_inv(final(self).store()),
            r is Err ==> final(self).store() == old(self).store(),
    ;

    fn delete_board(&mut self, board_id: u64) -> (r: Result<(), PlainchantErr>)
        ensures
            r is Ok ==> delete_board_ok(old(self).store(), final(self).store(), board_id),
            r is Ok && store_inv(old(self).store()) ==> store_inv(final(self).store()),
            r is Err ==> final(self).store() == old(self).store(),
    ;

    fn create_ban(&mut self, ban: Ban) -> (r: Result<(), PlainchantErr>)
        ensures
            r is Ok ==> create_ban_ok(old(self).store(), final(self).store(), ban),
            r is Ok && store_inv(old(self).store()) ==> store_inv(final(self).store()),
            r is Err ==> final(self).store() == old(self).store(),
    ;

    fn delete_bans(&mut self, ip: &str) -> (r: Result<(), PlainchantErr>)
        ensures
            r is Ok ==> delete_bans_ok(old(self).store(), final(self).store(), ip@),
            r is Ok && store_inv(old(self).store()) ==> store_inv(final(self).store()),
            r is Err ==> final(self).store() == old(self).store(),
    ;
}

/// The store invariant reads only the four row tables, never the site
/// record.
pub proof fn lemma_store_inv_rows_equal(a: StoreView, b: StoreView)
    requires
        store_inv(a),
        b.boards == a.boards,
        b.originals == a.originals,
        b.replies == a.replies,
        b.bans == a.bans,
    ensures
        store_inv(b),
{
    assert forall|id: u64| has_board(b, id) == has_board(a, id) by {
        if has_board(a, id) {
            let i = choose|i: int| 0 <= i < a.boards.len() && (#[trigger] a.boards[i]).id == id;
            assert((#[trigger] b.boards[i]).id == id);
        }
        if has_board(b, id) {
            let i = choose|i: int| 0 <= i < b.boards.len() && (#[trigger] b.boards[i]).id == id;
            assert((#[trigger] a.boards[i]).id == id);
        }
    }
    assert forall|id: u64| has_board(a, id) implies board_of(b, id) == board_of(a, id) by {
        let i = choose|i: int| 0 <= i < a.boards.len() && (#[trigger] a.boards[i]).id == id;
        lemma_board_of_unique(a, i);
        lemma_board_of_unique(b, i);
    }
    assert forall|bid: u64, n: u64| has_original(b, bid, n) == has_original(a, bid, n) by {
        if has_original(a, bid, n) {
            let i = choose|i: int|
                0 <= i < a.originals.len() && (#[trigger] a.originals[i]).board_id == bid
                    && a.originals[i].post_num == n;
            assert((#[trigger] b.originals[i]).board_id == bid && b.originals[i].post_num == n);
        }
        if has_original(b, bid, n) {
            let i = choose|i: int|
                0 <= i < b.originals.len() && (#[trigger] b.originals[i]).board_id == bid
                    && b.originals[i].post_num == n;
            assert((#[trigger] a.originals[i]).board_id == bid && a.originals[i].post_num == n);
        }
    }
    assert(posts_well_keyed(b)) by {
        assert forall|i: int| 0 <= i < b.originals.len() implies has_board(
            b,
            (#[trigger] b.originals[i]).board_id,
        ) && b.originals[i].post_num < board_of(b, b.originals[i].board_id).next_post_num by {
            assert(a.originals[i] == b.originals[i]);
            assert(has_board(a, (#[trigger] a.originals[i]).board_id));
        }
        assert forall|i: int| 0 <= i < b.replies.len() implies has_board(
            b,
            (#[trigger] b.replies[i]).board_id,
        ) && b.replies[i].post_num < board_of(b, b.replies[i].board_id).next_post_num
            && has_original(b, b.replies[i].board_id, b.replies[i].orig_num) by {
            assert(a.replies[i] == b.replies[i]);
            assert(has_board(a, (#[trigger] a.replies[i]).board_id));
        }
    }
    assert(counts_consistent(b)) by {
        assert forall|i: int| 0 <= i < b.originals.len() implies (#[trigger] b.originals[i]).replies
            == reply_count(b, b.originals[i].board_id, b.originals[i].post_num)
            && b.originals[i].img_replies == img_reply_count(
            b,
            b.originals[i].board_id,
            b.originals[i].post_num,
        ) by {
            assert(a.originals[i] == b.originals[i]);
            assert((#[trigger] a.originals[i]).replies == reply_count(
                a,
                a.originals[i].board_id,
                a.originals[i].post_num,
            ));
        }
    }
}

/// The non-ban clauses of the store invariant read only the board and post
/// tables.
pub proof fn lemma_store_posts_transfer(a: StoreView, b: StoreView)
    requires
        store_inv(a),
        b.boards == a.boards,
        b.originals == a.originals,
        b.replies == a.replies,
    ensures
        boards_distinct(b),
        posts_distinct(b),
        posts_well_keyed(b),
        counts_consistent(b),
        forall|id: u64| has_board(b, id) == has_board(a, id),
        forall|id: u64| has_board(a, id) ==> board_of(b, id) == board_of(a, id),
{
    assert forall|id: u64| has_board(b, id) == has_board(a, id) by {
        if has_board(a, id) {
            let i = choose|i: int| 0 <= i < a.boards.len() && (#[trigger] a.boards[i]).id == id;
            assert((#[trigger] b.boards[i]).id == id);
        }
        if has_board(b, id) {
            let i = choose|i: int| 0 <= i < b.boards.len() && (#[trigger] b.boards[i]).id == id;
            assert((#[trigger] a.boards[i]).id == id);
        }
    }
    assert forall|id: u64| has_board(a, id) implies board_of(b, id) == board_of(a, id) by {
        let i = choose|i: int| 0 <= i < a.boards.len() && (#[trigger] a.boards[i]).id == id;
        lemma_board_of_unique(a, i);
        lemma_board_of_unique(b, i);
    }
    assert forall|bid: u64, n: u64| has_original(b, bid, n) == has_original(a, bid, n) by {
        if has_original(a, bid, n) {
            let i = choose|i: int|
                0 <= i < a.originals.len() && (#[trigger] a.originals[i]).board_id == bid
                    && a.originals[i].post_num == n;
            assert((#[trigger] b.originals[i]).board_id == bid && b.originals[i].post_num == n);
        }
        if has_original(b, bid, n) {
            let i = choose|i: int|
                0 <= i < b.originals.len() && (#[trigger] b.originals[i]).board_id == bid
                    && b.originals[i].post_num == n;
            assert((#[trigger] a.originals[i]).board_id == bid && a.originals[i].post_num == n);
        }
    }
    assert(posts_well_keyed(b)) by {
        assert forall|i: int| 0 <= i < b.originals.len() implies has_board(
            b,
            (#[trigger] b.originals[i]).board_id,
        ) && b.originals[i].post_num < board_of(b, b.originals[i].board_id).next_post_num by {
            assert(a.originals[i] == b.originals[i]);
            assert(has_board(a, (#[trigger] a.originals[i]).board_id));
        }
        assert forall|i: int| 0 <= i < b.replies.len() implies has_board(
            b,
            (#[trigger] b.replies[i]).board_id,
        ) && b.replies[i].post_num < board_of(b, b.replies[i].board_id).next_post_num
            && has_original(b, b.replies[i].board_id, b.replies[i].orig_num) by {
            assert(a.replies[i] == b.replies[i]);
            assert(has_board(a, (#[trigger] a.replies[i]).board_id));
        }
    }
    assert(counts_consistent(b)) by {
        assert forall|i: int| 0 <= i < b.originals.len() implies (#[trigger] b.originals[i]).replies
            == reply_count(b, b.originals[i].board_id, b.originals[i].post_num)
            && b.originals[i].img_replies == img_reply_count(
            b,
            b.originals[i].board_id,
            b.originals[i].post_num,
        ) by {
            assert(a.originals[i] == b.originals[i]);
            assert((#[trigger] a.originals[i]).replies == reply_count(
                a,
                a.originals[i].board_id,
                a.originals[i].post_num,
            ));
        }
    }
}

/// With distinct board ids, any index holding `id` is the one `board_of`
/// denotes.
pub proof fn lemma_board_of_unique(s: StoreView, i: int)
    requires
        boards_distinct(s),
        0 <= i < s.boards.len(),
    ensures
        has_board(s, s.boards[i].id),
        board_of(s, s.boards[i].id) == s.boards[i],
{
    let id = s.boards[i].id;
    let j = choose|j: int| 0 <= j < s.boards.len() && (#[trigger] s.boards[j]).id == id;
    if i < j {
        assert((#[trigger] s.boards[i]).id != s.boards[j].id);
    } else if j < i {
        assert((#[trigger] s.boards[j]).id != s.boards[i].id);
    }
}

/// With distinct post keys, any index holding `(board_id, post_num)` is the
/// one `original_of` denotes.
pub proof fn lemma_original_of_unique(s: StoreView, i: int)
    requires
        posts_distinct(s),
        0 <= i < s.originals.len(),
    ensures
        has_original(s, s.originals[i].board_id, s.originals[i].post_num),
        original_of(s, s.originals[i].board_id, s.originals[i].post_num) == s.originals[i],
{
    let b = s.originals[i].board_id;
    let n = s.originals[i].post_num;
    let j = choose|j: int|
        0 <= j < s.originals.len() && (#[trigger] s.originals[j]).board_id == b
            && s.originals[j].post_num == n;
    if i < j {
        assert(!((#[trigger] s.originals[i]).board_id == (#[trigger] s.originals[j]).board_id
            && s.originals[i].post_num == s.originals[j].post_num));
    } else if j < i {
        assert(!((#[trigger] s.originals[j]).board_id == (#[trigger] s.originals[i]).board_id
            && s.originals[j].post_num == s.originals[i].post_num));
    }
}

/// The same for replies.
pub proof fn lemma_reply_of_unique(s: StoreView, i: int)
    requires
        posts_distinct(s),
        0 <= i < s.replies.len(),
    ensures
        has_reply(s, s.replies[i].board_id, s.replies[i].post_num),
        reply_of(s, s.replies[i].board_id, s.replies[i].post_num) == s.replies[i],
{
    let b = s.replies[i].board_id;
    let n = s.replies[i].post_num;
    let j = choose|j: int|
        0 <= j < s.replies.len() && (#[trigger] s.replies[j]).board_id == b
            && s.replies[j].post_num == n;
    if i < j {
        assert(!((#[trigger] s.replies[i]).board_id == (#[trigger] s.replies[j]).board_id
            && s.replies[i].post_num == s.replies[j].post_num));
    } else if j < i {
        assert(!((#[trigger] s.replies[j]).board_id == (#[trigger] s.replies[i]).board_id
            && s.replies[j].post_num == s.replies[i].post_num));
    }
}

/// Replacing one board row by another with the same id leaves every lookup
/// as it was, except that the id now denotes the new row.
pub proof fn lemma_board_update(a: StoreView, b: StoreView, i: int, nb: Board)
    requires
        boards_distinct(a),
        0 <= i < a.boards.len(),
        nb.id == a.boards[i].id,
        b.boards == a.boards.update(i, nb),
    ensures
        boards_distinct(b),
        forall|id: u64| has_board(b, id) == has_board(a, id),
        forall|id: u64| id != nb.id && has_board(a, id) ==> board_of(b, id) == board_of(a, id),
        board_of(b, nb.id) == nb,
{
    assert(forall|j: int| 0 <= j < b.boards.len() ==> (#[trigger] b.boards[j]).id == a.boards[j].id);
    assert forall|id: u64| has_board(b, id) == has_board(a, id) by {
        if has_board(a, id) {
            let j = choose|j: int| 0 <= j < a.boards.len() && (#[trigger] a.boards[j]).id == id;
            assert((#[trigger] b.boards[j]).id == id);
        }
        if has_board(b, id) {
            let j = choose|j: int| 0 <= j < b.boards.len() && (#[trigger] b.boards[j]).id == id;
            assert((#[trigger] a.boards[j]).id == id);
        }
    }
    assert forall|id: u64| id != nb.id && has_board(a, id) implies board_of(b, id) == board_of(
        a,
        id,
    ) by {
        let j = choose|j: int| 0 <= j < a.boards.len() && (#[trigger] a.boards[j]).id == id;
        assert(j != i);
        lemma_board_of_unique(a, j);
        lemma_board_of_unique(b, j);
    }
    lemma_board_of_unique(b, i);
}

/// Appending a board under a fresh id keeps every existing lookup and adds
/// one.
pub proof fn lemma_board_push(a: StoreView, b: StoreView, nb: Board)
    requires
        boards_distinct(a),
        !has_board(a, nb.id),
        b.boards == a.boards.push(nb),
    ensures
        boards_distinct(b),
        forall|id: u64| has_board(b, id) == (has_board(a, id) || id == nb.id),
        forall|id: u64| has_board(a, id) ==> board_of(b, id) == board_of(a, id),
        board_of(b, nb.id) == nb,
{
    let n = a.boards.len() as int;
    assert forall|j: int| 0 <= j < n implies (#[trigger] a.boards[j]).id != nb.id by {
        if a.boards[j].id == nb.id {
            assert(has_board(a, nb.id));
        }
    }
    assert(boards_distinct(b)) by {
        assert(forall|j: int| 0 <= j < n ==> (#[trigger] b.boards[j]) == a.boards[j]);
        assert(b.boards[n] == nb);
    }
    assert forall|id: u64| has_board(b, id) == (has_board(a, id) || id == nb.id) by {
        if has_board(a, id) {
            let j = choose|j: int| 0 <= j < a.boards.len() && (#[trigger] a.boards[j]).id == id;
            assert((#[trigger] b.boards[j]).id == id);
        }
        if has_board(b, id) {
            let j = choose|j: int| 0 <= j < b.boards.len() && (#[trigger] b.boards[j]).id == id;
            if j < n {
                assert((#[trigger] a.boards[j]).id == id);
            }
        }
        if id == nb.id {
            assert((#[trigger] b.boards[n]).id == id);
        }
    }
    assert forall|id: u64| has_board(a, id) implies board_of(b, id) == board_of(a, id) by {
        let j = choose|j: int| 0 <= j < a.boards.len() && (#[trigger] a.boards[j]).id == id;
        lemma_board_of_unique(a, j);
        lemma_board_of_unique(b, j);
    }
    lemma_board_of_unique(b, n);
}

/// Replacing one original row by another with the same key leaves every
/// post lookup as it was, except that the key now denotes the new row.
pub proof fn lemma_original_update(a: StoreView, b: StoreView, i: int, no: Original)
    requires
        posts_distinct(a),
        0 <= i < a.originals.len(),
        no.board_id == a.originals[i].board_id,
        no.post_num == a.originals[i].post_num,
        b.originals == a.originals.update(i, no),
        b.replies == a.replies,
    ensures
        posts_distinct(b),
        forall|bid: u64, n: u64| has_original(b, bid, n) == has_original(a, bid, n),
        forall|bid: u64, n: u64|
            !(bid == no.board_id && n == no.post_num) && has_original(a, bid, n) ==> original_of(
                b,
                bid,
                n,
            ) == original_of(a, bid, n),
        original_of(b, no.board_id, no.post_num) == no,
        forall|bid: u64, n: u64| has_reply(b, bid, n) == has_reply(a, bid, n),
        forall|bid: u64, n: u64| has_reply(a, bid, n) ==> reply_of(b, bid, n) == reply_of(a, bid, n),
{
    assert(forall|j: int|
        0 <= j < b.originals.len() ==> (#[trigger] b.originals[j]).board_id
            == a.originals[j].board_id && b.originals[j].post_num == a.originals[j].post_num);
    assert(posts_distinct(b));
    assert forall|bid: u64, n: u64| has_original(b, bid, n) == has_original(a, bid, n) by {
        if has_original(a, bid, n) {
            let j = choose|j: int|
                0 <= j < a.originals.len() && (#[trigger] a.originals[j]).board_id == bid
                    && a.originals[j].post_num == n;
            assert((#[trigger] b.originals[j]).board_id == bid && b.originals[j].post_num == n);
        }
        if has_original(b, bid, n) {
            let j = choose|j: int|
                0 <= j < b.originals.len() && (#[trigger] b.originals[j]).board_id == bid
                    && b.originals[j].post_num == n;
            assert((#[trigger] a.originals[j]).board_id == bid && a.originals[j].post_num == n);
        }
    }
    assert forall|bid: u64, n: u64|
        !(bid == no.board_id && n == no.post_num) && has_original(a, bid, n) implies original_of(
        b,
        bid,
        n,
    ) == original_of(a, bid, n) by {
        let j = choose|j: int|
            0 <= j < a.originals.len() && (#[trigger] a.originals[j]).board_id == bid
                && a.originals[j].post_num == n;
        assert(j != i);
        lemma_original_of_unique(a, j);
        lemma_original_of_unique(b, j);
    }
    lemma_original_of_unique(b, i);
    assert forall|bid: u64, n: u64| has_reply(b, bid, n) == has_reply(a, bid, n) by {
        if has_reply(a, bid, n) {
            let j = choose|j: int|
                0 <= j < a.replies.len() && (#[trigger] a.replies[j]).board_id == bid
                    && a.replies[j].post_num == n;
            assert((#[trigger] b.replies[j]).board_id == bid && b.replies[j].post_num == n);
        }
        if has_reply(b, bid, n) {
            let j = choose|j: int|
                0 <= j < b.replies.len() && (#[trigger] b.replies[j]).board_id == bid
                    && b.replies[j].post_num == n;
            assert((#[trigger] a.replies[j]).board_id == bid && a.replies[j].post_num == n);
        }
    }
    assert forall|bid: u64, n: u64| has_reply(a, bid, n) implies reply_of(b, bid, n) == reply_of(
        a,
        bid,
        n,
    ) by {
        let j = choose|j: int|
            0 <= j < a.replies.len() && (#[trigger] a.replies[j]).board_id == bid
                && a.replies[j].post_num == n;
        lemma_reply_of_unique(a, j);
        lemma_reply_of_unique(b, j);
    }
}

/// Appending an original under a fresh key keeps every existing post lookup
/// and adds one.
pub proof fn lemma_original_push(a: StoreView, b: StoreView, no: Original)
    requires
        posts_distinct(a),
        !has_original(a, no.board_id, no.post_num),
        !has_reply(a, no.board_id, no.post_num),
        b.originals == a.originals.push(no),
        b.replies == a.replies,
    ensures
        posts_distinct(b),
        forall|bid: u64, n: u64|
            has_original(b, bid, n) == (has_original(a, bid, n) || (bid == no.board_id && n
                == no.post_num)),
        forall|bid: u64, n: u64|
            has_original(a, bid, n) ==> original_of(b, bid, n) == original_of(a, bid, n),
        original_of(b, no.board_id, no.post_num) == no,
        forall|bid: u64, n: u64| has_reply(b, bid, n) == has_reply(a, bid, n),
        forall|bid: u64, n: u64| has_reply(a, bid, n) ==> reply_of(b, bid, n) == reply_of(a, bid, n),
{
    let m = a.originals.len() as int;
    assert forall|j: int|
        0 <= j < m implies !((#[trigger] a.originals[j]).board_id == no.board_id
        && a.originals[j].post_num == no.post_num) by {
        if a.originals[j].board_id == no.board_id && a.originals[j].post_num == no.post_num {
            assert(has_original(a, no.board_id, no.post_num));
        }
    }
    assert forall|j: int|
        0 <= j < a.replies.len() implies !((#[trigger] a.replies[j]).board_id == no.board_id
        && a.replies[j].post_num == no.post_num) by {
        if a.replies[j].board_id == no.board_id && a.replies[j].post_num == no.post_num {
            assert(has_reply(a, no.board_id, no.post_num));
        }
    }
    assert(posts_distinct(b)) by {
        assert(forall|j: int| 0 <= j < m ==> (#[trigger] b.originals[j]) == a.originals[j]);
        assert(b.originals[m] == no);
    }
    assert forall|bid: u64, n: u64|
        has_original(b, bid, n) == (has_original(a, bid, n) || (bid == no.board_id && n
            == no.post_num)) by {
        if has_original(a, bid, n) {
            let j = choose|j: int|
                0 <= j < a.originals.len() && (#[trigger] a.originals[j]).board_id == bid
                    && a.originals[j].post_num == n;
            assert((#[trigger] b.originals[j]).board_id == bid && b.originals[j].post_num == n);
        }
        if has_original(b, bid, n) {
            let j = choose|j: int|
                0 <= j < b.originals.len() && (#[trigger] b.originals[j]).board_id == bid
                    && b.originals[j].post_num == n;
            if j < m {
                assert((#[trigger] a.originals[j]).board_id == bid && a.originals[j].post_num == n);
            }
        }
        if bid == no.board_id && n == no.post_num {
            assert((#[trigger] b.originals[m]).board_id == bid && b.originals[m].post_num == n);
        }
    }
    assert forall|bid: u64, n: u64| has_original(a, bid, n) implies original_of(b, bid, n)
        == original_of(a, bid, n) by {
        let j = choose|j: int|
            0 <= j < a.originals.len() && (#[trigger] a.originals[j]).board_id == bid
                && a.originals[j].post_num == n;
        lemma_original_of_unique(a, j);
        lemma_original_of_unique(b, j);
    }
    lemma_original_of_unique(b, m);
    assert forall|bid: u64, n: u64| has_reply(b, bid, n) == has_reply(a, bid, n) by {
        if has_reply(a, bid, n) {
            let j = choose|j: int|
                0 <= j < a.replies.len() && (#[trigger] a.replies[j]).board_id == bid
                    && a.replies[j].post_num == n;
            assert((#[trigger] b.replies[j]).board_id == bid && b.replies[j].post_num == n);
        }
        if has_reply(b, bid, n) {
            let j = choose|j: int|
                0 <= j < b.replies.len() && (#[trigger] b.replies[j]).board_id == bid
                    && b.replies[j].post_num == n;
            assert((#[trigger] a.replies[j]).board_id == bid && a.replies[j].post_num == n);
        }
    }
    assert forall|bid: u64, n: u64| has_reply(a, bid, n) implies reply_of(b, bid, n) == reply_of(
        a,
        bid,
        n,
    ) by {
        let j = choose|j: int|
            0 <= j < a.replies.len() && (#[trigger] a.replies[j]).board_id == bid
                && a.replies[j].post_num == n;
        lemma_reply_of_unique(a, j);
        lemma_reply_of_unique(b, j);
    }
}

/// Appending a reply under a fresh key keeps every existing post lookup and
/// adds one.
pub proof fn lemma_reply_push(a: StoreView, b: StoreView, nr: Reply)
    requires
        posts_distinct(a),
        !has_original(a, nr.board_id, nr.post_num),
        !has_reply(a, nr.board_id, nr.post_num),
        b.replies == a.replies.push(nr),
        b.originals == a.originals,
    ensures
        posts_distinct(b),
        forall|bid: u64, n: u64|
            has_reply(b, bid, n) == (has_reply(a, bid, n) || (bid == nr.board_id && n
                == nr.post_num)),
        forall|bid: u64, n: u64| has_reply(a, bid, n) ==> reply_of(b, bid, n) == reply_of(a, bid, n),
        reply_of(b, nr.board_id, nr.post_num) == nr,
        forall|bid: u64, n: u64| has_original(b, bid, n) == has_original(a, bid, n),
        forall|bid: u64, n: u64|
            has_original(a, bid, n) ==> original_of(b, bid, n) == original_of(a, bid, n),
{
    let m = a.replies.len() as int;
    assert forall|j: int|
        0 <= j < m implies !((#[trigger] a.replies[j]).board_id == nr.board_id
        && a.replies[j].post_num == nr.post_num) by {
        if a.replies[j].board_id == nr.board_id && a.replies[j].post_num == nr.post_num {
            assert(has_reply(a, nr.board_id, nr.post_num));
        }
    }
    assert forall|j: int|
        0 <= j < a.originals.len() implies !((#[trigger] a.originals[j]).board_id == nr.board_id
        && a.originals[j].post_num == nr.post_num) by {
        if a.originals[j].board_id == nr.board_id && a.originals[j].post_num == nr.post_num {
            assert(has_original(a, nr.board_id, nr.post_num));
        }
    }
    assert(posts_distinct(b)) by {
        assert(forall|j: int| 0 <= j < m ==> (#[trigger] b.replies[j]) == a.replies[j]);
        assert(b.replies[m] == nr);
    }
    assert forall|bid: u64, n: u64|
        has_reply(b, bid, n) == (has_reply(a, bid, n) || (bid == nr.board_id && n
            == nr.post_num)) by {
        if has_reply(a, bid, n) {
            let j = choose|j: int|
                0 <= j < a.replies.len() && (#[trigger] a.replies[j]).board_id == bid
                    && a.replies[j].post_num == n;
            assert((#[trigger] b.replies[j]).board_id == bid && b.replies[j].post_num == n);
        }
        if has_reply(b, bid, n) {
            let j = choose|j: int|
                0 <= j < b.replies.len() && (#[trigger] b.replies[j]).board_id == bid
                    && b.replies[j].post_num == n;
            if j < m {
                assert((#[trigger] a.replies[j]).board_id == bid && a.replies[j].post_num == n);
            }
        }
        if bid == nr.board_id && n == nr.post_num {
            assert((#[trigger] b.replies[m]).board_id == bid && b.replies[m].post_num == n);
        }
    }
    assert forall|bid: u64, n: u64| has_reply(a, bid, n) implies reply_of(b, bid, n) == reply_of(
        a,
        bid,
        n,
    ) by {
        let j = choose|j: int|
            0 <= j < a.replies.len() && (#[trigger] a.replies[j]).board_id == bid
                && a.replies[j].post_num == n;
        lemma_reply_of_unique(a, j);
        lemma_reply_of_unique(b, j);
    }
    lemma_reply_of_unique(b, m);
    assert forall|bid: u64, n: u64| has_original(b, bid, n) == has_original(a, bid, n) by {
        if has_original(a, bid, n) {
            let j = choose|j: int|
                0 <= j < a.originals.len() && (#[trigger] a.originals[j]).board_id == bid
                    && a.originals[j].post_num == n;
            assert((#[trigger] b.originals[j]).board_id == bid && b.originals[j].post_num == n);
        }
        if has_original(b, bid, n) {
            let j = choose|j: int|
                0 <= j < b.originals.len() && (#[trigger] b.originals[j]).board_id == bid
                    && b.originals[j].post_num == n;
            assert((#[trigger] a.originals[j]).board_id == bid && a.originals[j].post_num == n);
        }
    }
    assert forall|bid: u64, n: u64| has_original(a, bid, n) implies original_of(b, bid, n)
        == original_of(a, bid, n) by {
        let j = choose|j: int|
            0 <= j < a.originals.len() && (#[trigger] a.originals[j]).board_id == bid
                && a.originals[j].post_num == n;
        lemma_original_of_unique(a, j);
        lemma_original_of_unique(b, j);
    }
}

/// Board lookups carry over between states with the same board table.
pub proof fn lemma_boards_same(a: StoreView, b: StoreView)
    requires
        boards_distinct(a),
        b.boards == a.boards,
    ensures
        boards_distinct(b),
        forall|id: u64| has_board(b, id) == has_board(a, id),
        forall|id: u64| has_board(a, id) ==> board_of(b, id) == board_of(a, id),
{
    assert forall|id: u64| has_board(b, id) == has_board(a, id) by {
        if has_board(a, id) {
            let i = choose|i: int| 0 <= i < a.boards.len() && (#[trigger] a.boards[i]).id == id;
            assert((#[trigger] b.boards[i]).id == id);
        }
        if has_board(b, id) {
            let i = choose|i: int| 0 <= i < b.boards.len() && (#[trigger] b.boards[i]).id == id;
            assert((#[trigger] a.boards[i]).id == id);
        }
    }
    assert forall|id: u64| has_board(a, id) implies board_of(b, id) == board_of(a, id) by {
        let i = choose|i: int| 0 <= i < a.boards.len() && (#[trigger] a.boards[i]).id == id;
        lemma_board_of_unique(a, i);
        lemma_board_of_unique(b, i);
    }
}

/// Removing one board row removes exactly its id from the board lookups.
pub proof fn lemma_board_remove(a: StoreView, b: StoreView, i: int)
    requires
        boards_distinct(a),
        0 <= i < a.boards.len(),
        b.boards == a.boards.remove(i),
    ensures
        boards_distinct(b),
        forall|id: u64| has_board(b, id) == (has_board(a, id) && id != a.boards[i].id),
        forall|id: u64|
            id != a.boards[i].id && has_board(a, id) ==> board_of(b, id) == board_of(a, id),
        forall|bd: Board|
            #[trigger] b.boards.contains(bd) <==> a.boards.contains(bd) && bd.id != a.boards[i].id,
{
    let rid = a.boards[i].id;
    assert(forall|j: int|
        0 <= j < b.boards.len() ==> #[trigger] b.boards[j] == (if j < i {
            a.boards[j]
        } else {
            a.boards[j + 1]
        }));
    assert(boards_distinct(b));
    assert forall|id: u64| has_board(b, id) == (has_board(a, id) && id != rid) by {
        if has_board(b, id) {
            let j = choose|j: int| 0 <= j < b.boards.len() && (#[trigger] b.boards[j]).id == id;
            if j < i {
                assert((#[trigger] a.boards[j]).id == id);
                assert(id != rid);
            } else {
                assert((#[trigger] a.boards[j + 1]).id == id);
                assert(id != rid);
            }
        }
        if has_board(a, id) && id != rid {
            let j = choose|j: int| 0 <= j < a.boards.len() && (#[trigger] a.boards[j]).id == id;
            assert(j != i);
            if j < i {
                assert((#[trigger] b.boards[j]).id == id);
            } else {
                assert((#[trigger] b.boards[j - 1]).id == id);
            }
        }
    }
    assert forall|id: u64| id != rid && has_board(a, id) implies board_of(b, id) == board_of(
        a,
        id,
    ) by {
        let j = choose|j: int| 0 <= j < a.boards.len() && (#[trigger] a.boards[j]).id == id;
        lemma_board_of_unique(a, j);
        if j < i {
            assert(b.boards[j] == a.boards[j]);
            lemma_board_of_unique(b, j);
        } else {
            assert(j != i);
            assert(b.boards[j - 1] == a.boards[j]);
            lemma_board_of_unique(b, j - 1);
        }
    }
    assert forall|bd: Board| #[trigger] b.boards.contains(bd) <==> a.boards.contains(bd) && bd.id
        != rid by {
        if b.boards.contains(bd) {
            let j = choose|j: int| 0 <= j < b.boards.len() && b.boards[j] == bd;
            if j < i {
                assert(a.boards[j] == bd);
                if bd.id == rid {
                    assert(false);
                }
            } else {
                assert(a.boards[j + 1] == bd);
                if bd.id == rid {
                    assert(false);
                }
            }
        }
        if a.boards.contains(bd) && bd.id != rid {
            let j = choose|j: int| 0 <= j < a.boards.len() && a.boards[j] == bd;
            assert(j != i);
            if j < i {
                assert(b.boards[j] == bd);
            } else {
                assert(b.boards[j - 1] == bd);
            }
        }
    }
}

/// Removing one original row removes exactly its key from the original
/// lookups and leaves reply lookups alone.
pub proof fn lemma_original_remove(a: StoreView, b: StoreView, i: int)
    requires
        posts_distinct(a),
        0 <= i < a.originals.len(),
        b.originals == a.originals.remove(i),
        b.replies == a.replies,
    ensures
        posts_distinct(b),
        forall|bid: u64, n: u64|
            has_original(b, bid, n) == (has_original(a, bid, n) && !(bid == a.originals[i].board_id
                && n == a.originals[i].post_num)),
        forall|bid: u64, n: u64|
            !(bid == a.originals[i].board_id && n == a.originals[i].post_num) && has_original(
                a,
                bid,
                n,
            ) ==> original_of(b, bid, n) == original_of(a, bid, n),
        forall|bid: u64, n: u64| has_reply(b, bid, n) == has_reply(a, bid, n),
        forall|bid: u64, n: u64| has_reply(a, bid, n) ==> reply_of(b, bid, n) == reply_of(a, bid, n),
        forall|o: Original|
            #[trigger] b.originals.contains(o) <==> a.originals.contains(o) && !(o.board_id
                == a.originals[i].board_id && o.post_num == a.originals[i].post_num),
{
    let rb = a.originals[i].board_id;
    let rn = a.originals[i].post_num;
    assert(forall|j: int|
        0 <= j < b.originals.len() ==> #[trigger] b.originals[j] == (if j < i {
            a.originals[j]
        } else {
            a.originals[j + 1]
        }));
    assert(posts_distinct(b));
    assert forall|bid: u64, n: u64|
        has_original(b, bid, n) == (has_original(a, bid, n) && !(bid == rb && n == rn)) by {
        if has_original(b, bid, n) {
            let j = choose|j: int|
                0 <= j < b.originals.len() && (#[trigger] b.originals[j]).board_id == bid
                    && b.originals[j].post_num == n;
            if j < i {
                assert((#[trigger] a.originals[j]).board_id == bid && a.originals[j].post_num == n);
                assert(!(bid == rb && n == rn));
            } else {
                assert((#[trigger] a.originals[j + 1]).board_id == bid && a.originals[j
                    + 1].post_num == n);
                assert(!(bid == rb && n == rn));
            }
        }
        if has_original(a, bid, n) && !(bid == rb && n == rn) {
            let j = choose|j: int|
                0 <= j < a.originals.len() && (#[trigger] a.originals[j]).board_id == bid
                    && a.originals[j].post_num == n;
            assert(j != i);
            if j < i {
                assert((#[trigger] b.originals[j]).board_id == bid && b.originals[j].post_num == n);
            } else {
                assert((#[trigger] b.originals[j - 1]).board_id == bid && b.originals[j
                    - 1].post_num == n);
            }
        }
    }
    assert forall|bid: u64, n: u64|
        !(bid == rb && n == rn) && has_original(a, bid, n) implies original_of(b, bid, n)
        == original_of(a, bid, n) by {
        let j = choose|j: int|
            0 <= j < a.originals.len() && (#[trigger] a.originals[j]).board_id == bid
                && a.originals[j].post_num == n;
        lemma_original_of_unique(a, j);
        if j < i {
            assert(b.originals[j] == a.originals[j]);
            lemma_original_of_unique(b, j);
        } else {
            assert(j != i);
            assert(b.originals[j - 1] == a.originals[j]);
            lemma_original_of_unique(b, j - 1);
        }
    }
    assert forall|bid: u64, n: u64| has_reply(b, bid, n) == has_reply(a, bid, n) by {
        if has_reply(a, bid, n) {
            let j = choose|j: int|
                0 <= j < a.replies.len() && (#[trigger] a.replies[j]).board_id == bid
                    && a.replies[j].post_num == n;
            assert((#[trigger] b.replies[j]).board_id == bid && b.replies[j].post_num == n);
        }
        if has_reply(b, bid, n) {
            let j = choose|j: int|
                0 <= j < b.replies.len() && (#[trigger] b.replies[j]).board_id == bid
                    && b.replies[j].post_num == n;
            assert((#[trigger] a.replies[j]).board_id == bid && a.replies[j].post_num == n);
        }
    }
    assert forall|bid: u64, n: u64| has_reply(a, bid, n) implies reply_of(b, bid, n) == reply_of(
        a,
        bid,
        n,
    ) by {
        let j = choose|j: int|
            0 <= j < a.replies.len() && (#[trigger] a.replies[j]).board_id == bid
                && a.replies[j].post_num == n;
        lemma_reply_of_unique(a, j);
        lemma_reply_of_unique(b, j);
    }
    assert forall|o: Original| #[trigger] b.originals.contains(o) <==> a.originals.contains(o) && !(
    o.board_id == rb && o.post_num == rn) by {
        if b.originals.contains(o) {
            let j = choose|j: int| 0 <= j < b.originals.len() && b.originals[j] == o;
            if j < i {
                assert(a.originals[j] == o);
                if o.board_id == rb && o.post_num == rn {
                    assert(false);
                }
            } else {
                assert(a.originals[j + 1] == o);
                if o.board_id == rb && o.post_num == rn {
                    assert(false);
                }
            }
        }
        if a.originals.contains(o) && !(o.board_id == rb && o.post_num == rn) {
            let j = choose|j: int| 0 <= j < a.originals.len() && a.originals[j] == o;
            assert(j != i);
            if j < i {
                assert(b.originals[j] == o);
            } else {
                assert(b.originals[j - 1] == o);
            }
        }
    }
}

/// Removing one reply row removes exactly its key from the reply lookups
/// and leaves original lookups alone.
pub proof fn lemma_reply_remove(a: StoreView, b: StoreView, i: int)
    requires
        posts_distinct(a),
        0 <= i < a.replies.len(),
        b.replies == a.replies.remove(i),
        b.originals == a.originals,
    ensures
        posts_distinct(b),
        forall|bid: u64, n: u64|
            has_reply(b, bid, n) == (has_reply(a, bid, n) && !(bid == a.replies[i].board_id && n
                == a.replies[i].post_num)),
        forall|bid: u64, n: u64|
            !(bid == a.replies[i].board_id && n == a.replies[i].post_num) && has_reply(a, bid, n)
                ==> reply_of(b, bid, n) == reply_of(a, bid, n),
        forall|bid: u64, n: u64| has_original(b, bid, n) == has_original(a, bid, n),
        forall|bid: u64, n: u64|
            has_original(a, bid, n) ==> original_of(b, bid, n) == original_of(a, bid, n),
{
    let rb = a.replies[i].board_id;
    let rn = a.replies[i].post_num;
    assert(forall|j: int|
        0 <= j < b.replies.len() ==> #[trigger] b.replies[j] == (if j < i {
            a.replies[j]
        } else {
            a.replies[j + 1]
        }));
    assert(posts_distinct(b));
    assert forall|bid: u64, n: u64|
        has_reply(b, bid, n) == (has_reply(a, bid, n) && !(bid == rb && n == rn)) by {
        if has_reply(b, bid, n) {
            let j = choose|j: int|
                0 <= j < b.replies.len() && (#[trigger] b.replies[j]).board_id == bid
                    && b.replies[j].post_num == n;
            if j < i {
                assert((#[trigger] a.replies[j]).board_id == bid && a.replies[j].post_num == n);
                assert(!(bid == rb && n == rn));
            } else {
                assert((#[trigger] a.replies[j + 1]).board_id == bid && a.replies[j + 1].post_num
                    == n);
                assert(!(bid == rb && n == rn));
            }
        }
        if has_reply(a, bid, n) && !(bid == rb && n == rn) {
            let j = choose|j: int|
                0 <= j < a.replies.len() && (#[trigger] a.replies[j]).board_id == bid
                    && a.replies[j].post_num == n;
            assert(j != i);
            if j < i {
                assert((#[trigger] b.replies[j]).board_id == bid && b.replies[j].post_num == n);
            } else {
                assert((#[trigger] b.replies[j - 1]).board_id == bid && b.replies[j - 1].post_num
                    == n);
            }
        }
    }
    assert forall|bid: u64, n: u64|
        !(bid == rb && n == rn) && has_reply(a, bid, n) implies reply_of(b, bid, n) == reply_of(
        a,
        bid,
        n,
    ) by {
        let j = choose|j: int|
            0 <= j < a.replies.len() && (#[trigger] a.replies[j]).board_id == bid
                && a.replies[j].post_num == n;
        lemma_reply_of_unique(a, j);
        if j < i {
            assert(b.replies[j] == a.replies[j]);
            lemma_reply_of_unique(b, j);
        } else {
            assert(j != i);
            assert(b.replies[j - 1] == a.replies[j]);
            lemma_reply_of_unique(b, j - 1);
        }
    }
    assert forall|bid: u64, n: u64| has_original(b, bid, n) == has_original(a, bid, n) by {
        if has_original(a, bid, n) {
            let j = choose|j: int|
                0 <= j < a.originals.len() && (#[trigger] a.originals[j]).board_id == bid
                    && a.originals[j].post_num == n;
            assert((#[trigger] b.originals[j]).board_id == bid && b.originals[j].post_num == n);
        }
        if has_original(b, bid, n) {
            let j = choose|j: int|
                0 <= j < b.originals.len() && (#[trigger] b.originals[j]).board_id == bid
                    && b.originals[j].post_num == n;
            assert((#[trigger] a.originals[j]).board_id == bid && a.originals[j].post_num == n);
        }
    }
    assert forall|bid: u64, n: u64| has_original(a, bid, n) implies original_of(b, bid, n)
        == original_of(a, bid, n) by {
        let j = choose|j: int|
            0 <= j < a.originals.len() && (#[trigger] a.originals[j]).board_id == bid
                && a.originals[j].post_num == n;
        lemma_original_of_unique(a, j);
        lemma_original_of_unique(b, j);
    }
}

/// Monotonic uniqueness of post numbers: across any run of successful
/// creations on one board — originals or replies, serialized by the store —
/// the numbers handed out are consecutive from the first, and therefore all
/// distinct.
pub proof fn lemma_post_numbers_consecutive(states: Seq<StoreView>, nums: Seq<u64>, board_id: u64)
    requires
        states.len() == nums.len() + 1,
        forall|i: int|
            0 <= i < nums.len() ==> counter_step(
                #[trigger] states[i],
                states[i + 1],
                board_id,
                nums[i],
            ),
    ensures
        forall|i: int| 0 <= i < nums.len() ==> #[trigger] nums[i] as int == nums[0] as int + i,
        forall|i: int, j: int| 0 <= i < j < nums.len() ==> nums[i] != nums[j],
    decreases nums.len(),
{
    if nums.len() > 1 {
        let n = nums.len() as int;
        lemma_post_numbers_consecutive(states.take(n), nums.take(n - 1), board_id);
        assert(forall|i: int|
            0 <= i < n - 1 ==> #[trigger] nums.take(n - 1)[i] as int == nums.take(n - 1)[0] as int
                + i);
        assert(counter_step(states[n - 2], states[n - 1], board_id, nums[n - 2]));
        assert(counter_step(states[n - 1], states[n], board_id, nums[n - 1]));
        assert(board_of(states[n - 1], board_id).next_post_num == nums[n - 2] + 1);
        assert(nums[n - 1] as int == nums[n - 2] as int + 1);
        assert(forall|i: int| 0 <= i < n - 1 ==> nums[i] == nums.take(n - 1)[i]);
    }
}

/// A single post deletion of either kind — the cascading thread delete or
/// the one-row reply delete — leaves the boards, bans and site record
/// alone, stores no post under a number that had none, and adds no reply
/// row.
pub proof fn lemma_delete_keeps_frame(pre: StoreView, post: StoreView, board_id: u64, post_num: u64)
    requires
        delete_original_ok(pre, post, board_id, post_num) || delete_reply_ok(
            pre,
            post,
            board_id,
            post_num,
        ),
    ensures
        post.boards == pre.boards,
        post.bans == pre.bans,
        post.site == pre.site,
        forall|b: u64, n: u64| has_original(post, b, n) ==> has_original(pre, b, n),
        forall|b: u64, n: u64| has_reply(post, b, n) ==> has_reply(pre, b, n),
        forall|rp: Reply| #[trigger] post.replies.contains(rp) ==> pre.replies.contains(rp),
{
    if delete_original_ok(pre, post, board_id, post_num) {
        assert forall|b: u64, n: u64| has_original(post, b, n) implies has_original(pre, b, n) by {
            let j = choose|j: int|
                0 <= j < post.originals.len() && (#[trigger] post.originals[j]).board_id == b
                    && post.originals[j].post_num == n;
            assert(post.originals.contains(post.originals[j]));
            assert(pre.originals.contains(post.originals[j]));
            let k = choose|k: int|
                0 <= k < pre.originals.len() && pre.originals[k] == post.originals[j];
            assert((#[trigger] pre.originals[k]).board_id == b && pre.originals[k].post_num == n);
        }
        assert forall|b: u64, n: u64| has_reply(post, b, n) implies has_reply(pre, b, n) by {
            let j = choose|j: int|
                0 <= j < post.replies.len() && (#[trigger] post.replies[j]).board_id == b
                    && post.replies[j].post_num == n;
            assert(post.replies.contains(post.replies[j]));
            assert(pre.replies.contains(post.replies[j]));
            let k = choose|k: int| 0 <= k < pre.replies.len() && pre.replies[k] == post.replies[j];
            assert((#[trigger] pre.replies[k]).board_id == b && pre.replies[k].post_num == n);
        }
    } else {
        let r = reply_of(pre, board_id, post_num);
        let parent = original_of(pre, board_id, r.orig_num);
        let oi = choose|oi: int|
            0 <= oi < pre.originals.len() && pre.originals[oi] == parent && post.originals
                == pre.originals.update(
                oi,
                Original {
                    replies: (parent.replies - 1) as u16,
                    img_replies: if r.file_id is Some {
                        (parent.img_replies - 1) as u16
                    } else {
                        parent.img_replies
                    },
                    ..parent
                },
            );
        let rj = choose|rj: int|
            0 <= rj < pre.replies.len() && pre.replies[rj] == r && post.replies
                == pre.replies.remove(rj);
        assert forall|b: u64, n: u64| has_original(post, b, n) implies has_original(pre, b, n) by {
            let j = choose|j: int|
                0 <= j < post.originals.len() && (#[trigger] post.originals[j]).board_id == b
                    && post.originals[j].post_num == n;
            assert((#[trigger] pre.originals[j]).board_id == b && pre.originals[j].post_num == n);
        }
        assert forall|b: u64, n: u64| has_reply(post, b, n) implies has_reply(pre, b, n) by {
            let j = choose|j: int|
                0 <= j < post.replies.len() && (#[trigger] post.replies[j]).board_id == b
                    && post.replies[j].post_num == n;
            let pj = if j < rj {
                j
            } else {
                j + 1
            };
            assert((#[trigger] pre.replies[pj]).board_id == b && pre.replies[pj].post_num == n);
        }
        assert forall|rp: Reply| #[trigger] post.replies.contains(rp) implies pre.replies.contains(
            rp,
        ) by {
            let j = choose|j: int| 0 <= j < post.replies.len() && post.replies[j] == rp;
            let pj = if j < rj {
                j
            } else {
                j + 1
            };
            assert(pre.replies[pj] == rp);
        }
    }
}

/// Catalog ordering is deterministic: the catalog contract pins the whole
/// sequence, so any two catalogs of one board drawn from one store state
/// are equal, element for element.
pub proof fn lemma_catalog_determined(
    s: StoreView,
    board_id: u64,
    c1: Catalog,
    c2: Catalog,
    j: int,
)
    requires
        posts_distinct(s),
        catalog_ok(s, board_id, c1),
        catalog_ok(s, board_id, c2),
        0 <= j <= c1.originals@.len(),
    ensures
        c1.originals@.len() == c2.originals@.len(),
        c1.originals@.take(j) == c2.originals@.take(j),
    decreases j,
{
    let s1 = c1.originals@;
    let s2 = c2.originals@;
    if j > 0 {
        lemma_catalog_determined(s, board_id, c1, c2, j - 1);
        let x = s1[j - 1];
        let y = s2[j - 1];
        assert(s.originals.contains(x) && x.board_id == board_id && !x.archived);
        assert(s.originals.contains(y) && y.board_id == board_id && !y.archived);
        assert(s2.contains(x));
        let k = choose|k: int| 0 <= k < s2.len() && s2[k] == x;
        assert(k >= j - 1) by {
            if k < j - 1 {
                assert(s1.take(j - 1)[k] == s2.take(j - 1)[k]);
                assert(s1[k] == x);
                assert(!((#[trigger] s1[k]).board_id == (#[trigger] s1[j - 1]).board_id && s1[
                    k].post_num == s1[j - 1].post_num));
            }
        }
        assert(rank_geq(y, x)) by {
            if k > j - 1 {
                assert(rank_geq(#[trigger] s2[j - 1], #[trigger] s2[k]));
            }
        }
        assert(s1.contains(y));
        let m = choose|m: int| 0 <= m < s1.len() && s1[m] == y;
        assert(m >= j - 1) by {
            if m < j - 1 {
                assert(s1.take(j - 1)[m] == s2.take(j - 1)[m]);
                assert(s2[m] == y);
                assert(!((#[trigger] s2[m]).board_id == (#[trigger] s2[j - 1]).board_id && s2[
                    m].post_num == s2[j - 1].post_num));
            }
        }
        assert(rank_geq(x, y)) by {
            if m > j - 1 {
                assert(rank_geq(#[trigger] s1[j - 1], #[trigger] s1[m]));
            }
        }
        assert(x.bump_time == y.bump_time && x.post_num == y.post_num);
        assert(x == y) by {
            let a = choose|a: int| 0 <= a < s.originals.len() && s.originals[a] == x;
            let b = choose|b: int| 0 <= b < s.originals.len() && s.originals[b] == y;
            if a < b {
                assert(!((#[trigger] s.originals[a]).board_id == (
                #[trigger] s.originals[b]).board_id && s.originals[a].post_num
                    == s.originals[b].post_num));
            } else if b < a {
                assert(!((#[trigger] s.originals[b]).board_id == (
                #[trigger] s.originals[a]).board_id && s.originals[b].post_num
                    == s.originals[a].post_num));
            }
        }
        assert(s1.take(j) =~= s2.take(j)) by {
            assert(forall|q: int|
                0 <= q < j - 1 ==> #[trigger] s1.take(j)[q] == s1.take(j - 1)[q] && s2.take(j)[q]
                    == s2.take(j - 1)[q]);
        }
    } else {
        assert(s1.take(0) =~= s2.take(0));
    }
}

/// Bump semantics along a thread's life: starting from a fresh original,
/// each accepted reply whose sequence number is within the board's bump
/// limit moves the thread's bump time to that reply's time; every later
/// reply leaves the bump time where reply number `bump_limit` put it (or at
/// the original's own bump time when the limit is zero).
/// Where the bump time stands after the first `i` replies of `rs` have
/// arrived on a thread that started with no replies.
pub open spec fn bump_after(s0: StoreView, rs: Seq<Reply>, board_id: u64, orig_num: u64, i: int) -> u64 {
    let limit = board_of(s0, board_id).bump_limit;
    if i <= limit {
        rs[i - 1].time
    } else if limit == 0 {
        original_of(s0, board_id, orig_num).bump_time
    } else {
        rs[limit - 1].time
    }
}

#[verifier::rlimit(100)]
#[verifier::spinoff_prover]
pub proof fn lemma_bump_gate(
    states: Seq<StoreView>,
    rs: Seq<Reply>,
    nums: Seq<u64>,
    board_id: u64,
    orig_num: u64,
)
    requires
        states.len() == rs.len() + 1,
        nums.len() == rs.len(),
        forall|i: int|
            0 <= i < rs.len() ==> create_reply_ok(#[trigger] states[i], states[i + 1], rs[i], nums[i]),
        forall|i: int|
            0 <= i < rs.len() ==> (#[trigger] rs[i]).board_id == board_id && rs[i].orig_num
                == orig_num,
        has_board(states[0], board_id),
        has_original(states[0], board_id, orig_num),
        original_of(states[0], board_id, orig_num).replies == 0,
    ensures
        forall|i: int|
            0 <= i <= rs.len() ==> has_board(#[trigger] states[i], board_id) && board_of(
                states[i],
                board_id,
            ).bump_limit == board_of(states[0], board_id).bump_limit,
        forall|i: int|
            0 <= i <= rs.len() ==> has_original(#[trigger] states[i], board_id, orig_num)
                && original_of(states[i], board_id, orig_num).replies == i,
        forall|i: int|
            #![trigger states[i]]
            1 <= i <= rs.len() ==> original_of(states[i], board_id, orig_num).bump_time == bump_after(
                states[0],
                rs,
                board_id,
                orig_num,
                i,
            ),
    decreases rs.len(),
{
    let n = rs.len() as int;
    let limit = board_of(states[0], board_id).bump_limit;
    if n > 0 {
        let prefix = states.take(n);
        let rsp = rs.take(n - 1);
        assert(prefix.len() == rsp.len() + 1);
        assert forall|i: int|
            0 <= i < rsp.len() implies create_reply_ok(
            #[trigger] prefix[i],
            prefix[i + 1],
            rsp[i],
            nums.take(n - 1)[i],
        ) by {
            assert(prefix[i] == states[i] && prefix[i + 1] == states[i + 1]);
            assert(rsp[i] == rs[i] && nums.take(n - 1)[i] == nums[i]);
            assert(create_reply_ok(states[i], states[i + 1], rs[i], nums[i]));
        }
        assert forall|i: int|
            0 <= i < rsp.len() implies (#[trigger] rsp[i]).board_id == board_id && rsp[i].orig_num
                == orig_num by {
            assert((#[trigger] rs[i]).board_id == board_id && rs[i].orig_num == orig_num);
        }
        assert(prefix[0] == states[0]);
        lemma_bump_gate(prefix, rsp, nums.take(n - 1), board_id, orig_num);
        assert(create_reply_ok(states[n - 1], states[n], rs[n - 1], nums[n - 1]));
        let pre = states[n - 1];
        let post = states[n];
        assert(prefix[n - 1] == pre);
        assert(has_board(pre, board_id) && board_of(pre, board_id).bump_limit == limit);
        assert(has_original(pre, board_id, orig_num));
        let parent = original_of(pre, board_id, orig_num);
        assert(parent.replies == n - 1);
        let new_parent = parent_after_reply(
            parent,
            board_of(pre, board_id).bump_limit,
            rs[n - 1].time,
            rs[n - 1].file_id is Some,
        );
        assert(original_of(post, board_id, orig_num) == new_parent);
        assert(board_of(post, board_id) == (Board {
            next_post_num: (nums[n - 1] + 1) as u64,
            ..board_of(pre, board_id)
        }));
        assert forall|i: int| 0 <= i <= n implies has_board(#[trigger] states[i], board_id)
            && board_of(states[i], board_id).bump_limit == limit by {
            if i < n {
                assert(prefix[i] == states[i]);
                assert(has_board(prefix[i], board_id) && board_of(prefix[i], board_id).bump_limit
                    == limit);
            }
        }
        assert forall|i: int| 0 <= i <= n implies has_original(
            #[trigger] states[i],
            board_id,
            orig_num,
        ) && original_of(states[i], board_id, orig_num).replies == i by {
            if i < n {
                assert(prefix[i] == states[i]);
                assert(has_original(prefix[i], board_id, orig_num) && original_of(
                    prefix[i],
                    board_id,
                    orig_num,
                ).replies == i);
            }
        }
        assert forall|i: int| #![trigger states[i]] 1 <= i <= n implies original_of(
            states[i],
            board_id,
            orig_num,
        ).bump_time == bump_after(states[0], rs, board_id, orig_num, i) by {
            if i < n {
                assert(prefix[i] == states[i]);
                assert(original_of(prefix[i], board_id, orig_num).bump_time == bump_after(
                    prefix[0],
                    rsp,
                    board_id,
                    orig_num,
                    i,
                ));
                assert(bump_after(prefix[0], rsp, board_id, orig_num, i) == bump_after(
                    states[0],
                    rs,
                    board_id,
                    orig_num,
                    i,
                )) by {
                    if 1 <= i <= limit {
                        assert(rsp[i - 1] == rs[i - 1]);
                    } else if limit > 0 && i > limit {
                        assert(rsp[limit - 1] == rs[limit - 1]);
                    }
                }
            } else {
                if n <= limit {
                    assert(new_parent.bump_time == rs[n - 1].time);
                } else {
                    assert(new_parent.bump_time == parent.bump_time);
                    if n == 1 {
                        assert(limit == 0);
                    } else {
                        assert(parent.bump_time == bump_after(
                            prefix[0],
                            rsp,
                            board_id,
                            orig_num,
                            n - 1,
                        ));
                        assert(bump_after(prefix[0], rsp, board_id, orig_num, n - 1) == bump_after(
                            states[0],
                            rs,
                            board_id,
                            orig_num,
                            n,
                        )) by {
                            if limit > 0 && n - 1 > limit {
                                assert(rsp[limit - 1] == rs[limit - 1]);
                            } else if limit > 0 && n - 1 == limit {
                                assert(rsp[limit - 1] == rs[limit - 1]);
                            }
                        }
                    }
                }
            }
        }
    }
}

/// Cascading delete: after a thread is deleted, neither its original nor any
/// of its replies can be found under any kind of lookup.
pub proof fn lemma_cascading_delete(pre: StoreView, post: StoreView, board_id: u64, post_num: u64)
    requires
        store_inv(pre),
        delete_original_ok(pre, post, board_id, post_num),
    ensures
        !has_post(post, board_id, post_num),
        forall|i: int|
            0 <= i < pre.replies.len() && (#[trigger] pre.replies[i]).board_id == board_id
                && pre.replies[i].orig_num == post_num ==> !has_post(
                post,
                board_id,
                pre.replies[i].post_num,
            ),
{
    assert forall|i: int|
        0 <= i < pre.replies.len() && (#[trigger] pre.replies[i]).board_id == board_id
            && pre.replies[i].orig_num == post_num implies !has_post(
        post,
        board_id,
        pre.replies[i].post_num,
    ) by {
        let r = pre.replies[i];
        if has_original(post, board_id, r.post_num) {
            let k = choose|k: int|
                0 <= k < post.originals.len() && (#[trigger] post.originals[k]).board_id == board_id
                    && post.originals[k].post_num == r.post_num;
            assert(post.originals.contains(post.originals[k]));
            let o = post.originals[k];
            assert(pre.originals.contains(o));
            let m = choose|m: int| 0 <= m < pre.originals.len() && pre.originals[m] == o;
            assert(pre.replies.contains(r));
            assert(false);
        }
        if has_reply(post, board_id, r.post_num) {
            let k = choose|k: int|
                0 <= k < post.replies.len() && (#[trigger] post.replies[k]).board_id == board_id
                    && post.replies[k].post_num == r.post_num;
            assert(post.replies.contains(post.replies[k]));
            let r2 = post.replies[k];
            assert(pre.replies.contains(r2));
            let m = choose|m: int| 0 <= m < pre.replies.len() && pre.replies[m] == r2;
            assert(r2.board_id == r.board_id && r2.post_num == r.post_num);
            assert(r2 == r);
            assert(false);
        }
    }
    if has_original(post, board_id, post_num) {
        let k = choose|k: int|
            0 <= k < post.originals.len() && (#[trigger] post.originals[k]).board_id == board_id
                && post.originals[k].post_num == post_num;
        assert(post.originals.contains(post.originals[k]));
        assert(false);
    }
    if has_reply(post, board_id, post_num) {
        let k = choose|k: int|
            0 <= k < post.replies.len() && (#[trigger] post.replies[k]).board_id == board_id
                && post.replies[k].post_num == post_num;
        assert(post.replies.contains(post.replies[k]));
        let r2 = post.replies[k];
        assert(pre.replies.contains(r2));
        let orig_i = choose|i: int|
            0 <= i < pre.originals.len() && (#[trigger] pre.originals[i]).board_id == board_id
                && pre.originals[i].post_num == post_num;
        let m = choose|m: int| 0 <= m < pre.replies.len() && pre.replies[m] == r2;
        assert(false);
    }
}

} // verus!
