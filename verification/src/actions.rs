//! The submission pipeline and the moderation cache: the single entry point
//! that turns a validated field set into a stored post or a typed refusal,
//! the in-memory ban and cooldown state that gates every write, and the
//! deletion and board-capacity policies.

use vstd::prelude::*;
use vstd::hash_map::StringHashMap;
use vstd::string::StrSliceExecFns;
use vstd::string::StringExecFns;

use crate::db;
use crate::db::Database;
use crate::site;
use crate::site::Ban;
use crate::site::Post;
use crate::site::Reply;
use crate::site::Board;
use crate::util;
use crate::util::ErrOrigin;
use crate::util::PlainchantErr;

verus! {

/// Characters a tripcode keeps from the front of the digest.
pub const TRIPCODE_LEN: usize = 10;

/// Seconds an IP must wait between thread submissions.
pub const ORIG_COOLDOWN: u64 = 600;

/// Seconds an IP must wait between reply submissions.
pub const REPLY_COOLDOWN: u64 = 15;

/// Relies on sha256::digest: the SHA-256 digest of the string's bytes. The
/// result depends on the input alone; `sha256_hex` names it.
pub uninterp spec fn sha256_hex(s: Seq<char>) -> Seq<char>;

/// Relies on sha256::digest: it hex-encodes the 32-byte digest, so the
/// result is 64 ASCII characters.
#[verifier::external_body]
fn sha256_digest(s: &str) -> (r: String)
    ensures
        r@ == sha256_hex(s@),
        r@.len() == 64,
        vstd::string::string_is_ascii(&r),
{
    sha256::digest(s)
}

/// The pseudo-identity derived from a tripcode secret: the first
/// `TRIPCODE_LEN` characters of the secret's hex digest.
fn compute_tripcode(trip: String) -> (r: String)
    ensures
        r@ == sha256_hex(trip@).subrange(0, TRIPCODE_LEN as int),
{
    let digest = sha256_digest(trip.as_str());
    let prefix = digest.as_str().substring_ascii(0, TRIPCODE_LEN);
    prefix.to_owned()
}

/// The Unicode White_Space characters.
pub open spec fn is_space(c: char) -> bool {
    c == ' ' || c == '\t' || c == '\n' || c == '\u{0B}' || c == '\u{0C}' || c == '\r' || c
        == '\u{85}' || c == '\u{A0}' || c == '\u{1680}' || c == '\u{2000}' || c == '\u{2001}' || c
        == '\u{2002}' || c == '\u{2003}' || c == '\u{2004}' || c == '\u{2005}' || c == '\u{2006}'
        || c == '\u{2007}' || c == '\u{2008}' || c == '\u{2009}' || c == '\u{200A}' || c
        == '\u{2028}' || c == '\u{2029}' || c == '\u{202F}' || c == '\u{205F}' || c == '\u{3000}'
}

fn char_is_space(c: char) -> (r: bool)
    ensures
        r == is_space(c),
{
    match c {
        ' ' | '\t' | '\n' | '\u{0B}' | '\u{0C}' | '\r' | '\u{85}' | '\u{A0}' | '\u{1680}'
            | '\u{2000}' | '\u{2001}' | '\u{2002}' | '\u{2003}' | '\u{2004}' | '\u{2005}'
            | '\u{2006}' | '\u{2007}' | '\u{2008}' | '\u{2009}' | '\u{200A}' | '\u{2028}'
            | '\u{2029}' | '\u{202F}' | '\u{205F}' | '\u{3000}' => true,
        _ => false,
    }
}

/// A text is blank when every character is whitespace; the empty text is
/// blank.
pub open spec fn blank(s: Seq<char>) -> bool {
    forall|i: int| 0 <= i < s.len() ==> is_space(#[trigger] s[i])
}

/// An absent text counts as blank.
pub open spec fn opt_blank(s: Option<Seq<char>>) -> bool {
    match s {
        Some(t) => blank(t),
        None => true,
    }
}

fn is_blank(s: &str) -> (r: bool)
    ensures
        r == blank(s@),
{
    let len = s.unicode_len();
    let mut i: usize = 0;
    while i < len
        invariant
            len == s@.len(),
            i <= len,
            forall|j: int| 0 <= j < i ==> is_space(#[trigger] s@[j]),
        decreases len - i,
    {
        if !char_is_space(s.get_char(i)) {
            return false;
        }
        i += 1;
    }
    true
}

fn none_or_empty(s: &Option<String>) -> (r: bool)
    ensures
        r == opt_blank(site::view_opt_string(*s)),
{
    match s {
        Some(text) => is_blank(text.as_str()),
        None => true,
    }
}

/// An entry of a ban or cooldown map is in force at `now` when it exists
/// and lies in the future.
pub open spec fn blocked_at(m: Map<Seq<char>, u64>, ip: Seq<char>, now: u64) -> bool {
    m.contains_key(ip) && m[ip] > now
}

/// Addition on u64 that stops at the top of the range.
pub open spec fn sat_add(a: u64, b: u64) -> u64 {
    if a + b > u64::MAX {
        u64::MAX
    } else {
        (a + b) as u64
    }
}

fn sat_add_u64(a: u64, b: u64) -> (r: u64)
    ensures
        r == sat_add(a, b),
{
    if b > u64::MAX - a {
        u64::MAX
    } else {
        a + b
    }
}

pub open spec fn max64(a: u64, b: u64) -> u64 {
    if a >= b {
        a
    } else {
        b
    }
}

/// The ban cache holds, for each IP that has a ban row, exactly the largest
/// expiry among its rows.
pub open spec fn max_expiry_cache(bans: Seq<Ban>, m: Map<Seq<char>, u64>) -> bool {
    &&& forall|i: int|
        0 <= i < bans.len() ==> m.contains_key((#[trigger] bans[i]).ip@) && m[bans[i].ip@]
            >= bans[i].time_expires
    &&& forall|ip: Seq<char>|
        #[trigger] m.contains_key(ip) ==> exists|i: int|
            0 <= i < bans.len() && (#[trigger] bans[i]).ip@ == ip && bans[i].time_expires == m[ip]
}

/// The url cache maps every board's slug to a board id carrying that slug.
pub open spec fn url_cache(boards: Seq<Board>, m: Map<Seq<char>, u64>) -> bool {
    &&& forall|i: int| 0 <= i < boards.len() ==> m.contains_key((#[trigger] boards[i]).url@)
    &&& forall|u: Seq<char>|
        #[trigger] m.contains_key(u) ==> exists|i: int|
            0 <= i < boards.len() && (#[trigger] boards[i]).url@ == u && boards[i].id == m[u]
}

/// The moderation cache and board-slug table, plus the pipeline operating
/// over them. Mutating operations take `&mut self`, serializing access; a
/// caller that shares one instance wraps it in its own lock.
pub struct Actions {
    ban_cache: StringHashMap<Ban>,
    orig_cooldown: StringHashMap<u64>,
    reply_cooldown: StringHashMap<u64>,
    board_urls: StringHashMap<u64>,
}

/// The outcome of a submission: the assigned post number, or the typed
/// refusal.
#[derive(Debug, PartialEq, Eq, Structural)]
pub enum SubmissionResult {
    Success(u64),
    Banned,
    Cooldown,
    MayNotBeEmpty,
}

impl Actions {
    /// The cached ban state: IP to expiry time.
    pub closed spec fn ban_view(&self) -> Map<Seq<char>, u64> {
        Map::new(
            |ip: Seq<char>| self.ban_cache@.contains_key(ip),
            |ip: Seq<char>| self.ban_cache@[ip].time_expires,
        )
    }

    /// The cached thread-submission cooldowns: IP to next allowed time.
    pub closed spec fn orig_cooldown_view(&self) -> Map<Seq<char>, u64> {
        self.orig_cooldown@
    }

    /// The cached reply-submission cooldowns: IP to next allowed time.
    pub closed spec fn reply_cooldown_view(&self) -> Map<Seq<char>, u64> {
        self.reply_cooldown@
    }

    /// The board slug table: url to board id.
    pub closed spec fn board_urls_view(&self) -> Map<Seq<char>, u64> {
        self.board_urls@
    }

    /// Build the moderation cache from the store: bans folded to their
    /// maximum expiry per IP, cooldowns starting empty.
    pub fn new<DB: Database>(database: &DB) -> (r: Result<Actions, PlainchantErr>)
        ensures
            r is Ok ==> max_expiry_cache(database.store().bans, r->Ok_0.ban_view()),
            r is Ok ==> r->Ok_0.orig_cooldown_view() == Map::<Seq<char>, u64>::empty(),
            r is Ok ==> r->Ok_0.reply_cooldown_view() == Map::<Seq<char>, u64>::empty(),
            r is Ok ==> url_cache(database.store().boards, r->Ok_0.board_urls_view()),
    {
        let bans = match database.get_bans() {
            Ok(bans) => bans,
            Err(e) => {
                return Err(e);
            },
        };
        let mut ban_cache: StringHashMap<Ban> = StringHashMap::new();
        let mut i: usize = 0;
        while i < bans.len()
            invariant
                i <= bans@.len(),
                forall|k: int|
                    0 <= k < i ==> ban_cache@.contains_key((#[trigger] bans@[k]).ip@)
                        && ban_cache@[bans@[k].ip@].time_expires >= bans@[k].time_expires,
                forall|ip: Seq<char>|
                    #[trigger] ban_cache@.contains_key(ip) ==> exists|k: int|
                        0 <= k < i && (#[trigger] bans@[k]).ip@ == ip && bans@[k] == ban_cache@[ip],
            decreases bans@.len() - i,
        {
            let ghost old_cache = ban_cache@;
            let replace = match ban_cache.get(bans[i].ip.as_str()) {
                Some(existing) => existing.time_expires < bans[i].time_expires,
                None => true,
            };
            if replace {
                ban_cache.insert(bans[i].ip.clone(), bans[i].clone());
            }
            proof {
                let bi = bans@[i as int];
                assert forall|k: int|
                    0 <= k < i + 1 implies ban_cache@.contains_key((#[trigger] bans@[k]).ip@)
                    && ban_cache@[bans@[k].ip@].time_expires >= bans@[k].time_expires by {
                    if replace {
                        if bans@[k].ip@ == bi.ip@ {
                            if k < i {
                                assert(old_cache.contains_key(bans@[k].ip@));
                            }
                        } else {
                            assert(k < i);
                            assert(old_cache.contains_key(bans@[k].ip@));
                        }
                    } else {
                        if k == i {
                            assert(old_cache.contains_key(bi.ip@));
                        }
                    }
                }
                assert forall|ip: Seq<char>| #[trigger] ban_cache@.contains_key(ip) implies exists|
                    k: int,
                |
                    0 <= k < i + 1 && (#[trigger] bans@[k]).ip@ == ip && bans@[k]
                        == ban_cache@[ip] by {
                    if replace && ip == bi.ip@ {
                        assert((#[trigger] bans@[i as int]).ip@ == ip && bans@[i as int]
                            == ban_cache@[ip]);
                    } else {
                        assert(old_cache.contains_key(ip));
                        let k = choose|k: int|
                            0 <= k < i && (#[trigger] bans@[k]).ip@ == ip && bans@[k]
                                == old_cache[ip];
                        assert((#[trigger] bans@[k]).ip@ == ip && bans@[k] == ban_cache@[ip]);
                    }
                }
            }
            i += 1;
        }
        let boards = match database.get_boards() {
            Ok(boards) => boards,
            Err(e) => {
                return Err(e);
            },
        };
        let mut board_urls: StringHashMap<u64> = StringHashMap::new();
        let mut j: usize = 0;
        while j < boards.len()
            invariant
                j <= boards@.len(),
                forall|k: int| 0 <= k < j ==> board_urls@.contains_key((#[trigger] boards@[k]).url@),
                forall|u: Seq<char>|
                    #[trigger] board_urls@.contains_key(u) ==> exists|k: int|
                        0 <= k < j && (#[trigger] boards@[k]).url@ == u && boards@[k].id
                            == board_urls@[u],
            decreases boards@.len() - j,
        {
            let ghost old_urls = board_urls@;
            board_urls.insert(boards[j].url.clone(), boards[j].id);
            proof {
                let bj = boards@[j as int];
                assert forall|u: Seq<char>| #[trigger] board_urls@.contains_key(u) implies exists|
                    k: int,
                |
                    0 <= k < j + 1 && (#[trigger] boards@[k]).url@ == u && boards@[k].id
                        == board_urls@[u] by {
                    if u == bj.url@ {
                        assert((#[trigger] boards@[j as int]).url@ == u && boards@[j as int].id
                            == board_urls@[u]);
                    } else {
                        assert(old_urls.contains_key(u));
                        let k = choose|k: int|
                            0 <= k < j && (#[trigger] boards@[k]).url@ == u && boards@[k].id
                                == old_urls[u];
                        assert((#[trigger] boards@[k]).url@ == u && boards@[k].id
                            == board_urls@[u]);
                    }
                }
            }
            j += 1;
        }
        let r = Actions {
            ban_cache,
            board_urls,
            orig_cooldown: StringHashMap::new(),
            reply_cooldown: StringHashMap::new(),
        };
        proof {
            assert(r.orig_cooldown_view() =~= Map::<Seq<char>, u64>::empty());
            assert(r.reply_cooldown_view() =~= Map::<Seq<char>, u64>::empty());
            assert(max_expiry_cache(database.store().bans, r.ban_view())) by {
                assert forall|k: int| 0 <= k < bans@.len() implies r.ban_view().contains_key((
                #[trigger] bans@[k]).ip@) && r.ban_view()[bans@[k].ip@]
                    >= bans@[k].time_expires by {
                    assert(ban_cache@.contains_key(bans@[k].ip@));
                }
                assert forall|ip: Seq<char>| #[trigger] r.ban_view().contains_key(ip) implies
                    exists|k: int|
                        0 <= k < bans@.len() && (#[trigger] bans@[k]).ip@ == ip
                            && bans@[k].time_expires == r.ban_view()[ip] by {
                    assert(ban_cache@.contains_key(ip));
                    let k = choose|k: int|
                        0 <= k < bans@.len() && (#[trigger] bans@[k]).ip@ == ip && bans@[k]
                            == ban_cache@[ip];
                    assert((#[trigger] bans@[k]).ip@ == ip);
                    assert(bans@[k].time_expires == r.ban_view().index(ip));
                }
            }
        }
        Ok(r)
    }

    /// True exactly when the cache holds a ban for this IP that has not
    /// expired.
    pub fn is_banned(&self, ip: &str, cur_time: u64) -> (r: Result<bool, PlainchantErr>)
        ensures
            r is Ok,
            r->Ok_0 == blocked_at(self.ban_view(), ip@, cur_time),
    {
        match self.ban_cache.get(ip) {
            Some(ban) => Ok(ban.time_expires > cur_time),
            None => Ok(false),
        }
    }

    /// Translate a board slug to its id via the slug table.
    pub fn board_url_to_id(&self, url: &str) -> (r: Result<u64, PlainchantErr>)
        ensures
            r is Ok <==> self.board_urls_view().contains_key(url@),
            r is Ok ==> r->Ok_0 == self.board_urls_view()[url@],
            r is Err ==> r->Err_0.origin is Actions,
    {
        match self.board_urls.get(url) {
            Some(id) => Ok(*id),
            None => Err(
                PlainchantErr {
                    origin: ErrOrigin::Actions,
                    msg: String::from_str("No board with url: ").concat(url),
                },
            ),
        }
    }

    /// Persist a ban row, then raise the cached expiry for the IP to the
    /// larger of the existing entry and `now + ban_length`. If the store
    /// write fails, the cache is left untouched: no ghost bans.
    pub fn ban_ip_at<DB: Database>(
        &mut self,
        database: &mut DB,
        ip: &str,
        ban_length: u64,
        now: u64,
    ) -> (r: Result<(), PlainchantErr>)
        ensures
            r is Ok ==> ban_applied(
                *old(self),
                *final(self),
                old(database).store(),
                final(database).store(),
                ip@,
                ban_length,
                now,
            ),
            r is Err ==> final(database).store() == old(database).store() && *final(self) == *old(self),
    {
        let time_expires = sat_add_u64(now, ban_length);
        let ban = Ban { id: 0, ip: ip.to_owned(), time_expires };
        match database.create_ban(ban) {
            Err(e) => Err(e),
            Ok(()) => {
                proof {
                    let pre_s = old(database).store();
                    let post_s = final(database).store();
                    assert(post_s.bans.take(pre_s.bans.len() as int) =~= pre_s.bans);
                }
                let ghost old_view = self.ban_view();
                let keep_old = match self.ban_cache.get(ip) {
                    Some(existing) => existing.time_expires >= time_expires,
                    None => false,
                };
                if !keep_old {
                    self.ban_cache.insert(
                        ip.to_owned(),
                        Ban { id: 0, ip: ip.to_owned(), time_expires },
                    );
                }
                proof {
                    let target = old_view.insert(
                        ip@,
                        max64(prev_expiry(old_view, ip@), sat_add(now, ban_length)),
                    );
                    assert(self.ban_view() =~= target);
                }
                Ok(())
            },
        }
    }

    /// `ban_ip_at` at the current wall-clock time.
    pub fn ban_ip<DB: Database>(&mut self, database: &mut DB, ip: &str, ban_length: u64) -> (r:
        Result<(), PlainchantErr>)
        ensures
            r is Ok ==> exists|now: u64|
                ban_applied(
                    *old(self),
                    *final(self),
                    old(database).store(),
                    final(database).store(),
                    ip@,
                    ban_length,
                    now,
                ),
            r is Err ==> final(database).store() == old(database).store() && *final(self) == *old(self),
    {
        let now = util::timestamp();
        self.ban_ip_at(database, ip, ban_length, now)
    }

    /// Submit a thread at an explicit time: the verified pipeline behind
    /// `submit_original`. After a successful write and cooldown start, the
    /// board's capacity is enforced; an enforcement failure is returned
    /// after the post is already committed.
    #[verifier::rlimit(100)]
    #[verifier::spinoff_prover]
    pub fn submit_original_at<DB: Database, FR: crate::fr::FileRack>(
        &mut self,
        database: &mut DB,
        file_rack: &mut FR,
        board_id: u64,
        ip: String,
        body: String,
        poster: Option<String>,
        trip: Option<String>,
        file_id: String,
        file_name: String,
        title: Option<String>,
        now: u64,
    ) -> (r: Result<SubmissionResult, PlainchantErr>)
        ensures
            final(self).ban_view() == old(self).ban_view(),
            final(self).reply_cooldown_view() == old(self).reply_cooldown_view(),
            final(self).board_urls_view() == old(self).board_urls_view(),
            blocked_at(old(self).ban_view(), ip@, now) ==> r is Ok && r->Ok_0 is Banned && final(database).store() == old(database).store() && final(self).orig_cooldown_view() == old(self).orig_cooldown_view(),
            !blocked_at(old(self).ban_view(), ip@, now) && blocked_at(
                old(self).orig_cooldown_view(),
                ip@,
                now,
            ) ==> r is Ok && r->Ok_0 is Cooldown && final(database).store() == old(database).store()
                && final(self).orig_cooldown_view() == old(self).orig_cooldown_view(),
            !blocked_at(old(self).ban_view(), ip@, now) && !blocked_at(
                old(self).orig_cooldown_view(),
                ip@,
                now,
            ) && (opt_blank(site::view_opt_string(title)) && blank(body@)) ==> r is Ok && r->Ok_0
                is MayNotBeEmpty && final(database).store() == old(database).store() && final(self).orig_cooldown_view() == old(self).orig_cooldown_view(),
            !blocked_at(old(self).ban_view(), ip@, now) && !blocked_at(
                old(self).orig_cooldown_view(),
                ip@,
                now,
            ) && !(opt_blank(site::view_opt_string(title)) && blank(body@)) && r is Ok ==> (r->Ok_0
                matches SubmissionResult::Success(n) && (exists|o: site::Original|
                #[trigger] original_built(
                    o,
                    board_id,
                    ip,
                    body,
                    poster,
                    trip,
                    file_id,
                    file_name,
                    title,
                    now,
                ) && original_persisted(
                    old(database).store(),
                    final(database).store(),
                    o,
                    n,
                    board_id,
                )) && final(self).orig_cooldown_view() == old(self).orig_cooldown_view().insert(
                ip@,
                sat_add(now, ORIG_COOLDOWN),
            )),
            !blocked_at(old(self).ban_view(), ip@, now) && !blocked_at(
                old(self).orig_cooldown_view(),
                ip@,
                now,
            ) && !(opt_blank(site::view_opt_string(title)) && blank(body@)) && r is Err ==> (final(database).store() == old(database).store() && final(self).orig_cooldown_view() == old(self).orig_cooldown_view()) || (exists|o: site::Original, n: u64|
                original_built(
                    o,
                    board_id,
                    ip,
                    body,
                    poster,
                    trip,
                    file_id,
                    file_name,
                    title,
                    now,
                ) && #[trigger] original_persisted_partial(
                    old(database).store(),
                    final(database).store(),
                    o,
                    n,
                    board_id,
                ) && final(self).orig_cooldown_view() == old(self).orig_cooldown_view().insert(
                    ip@,
                    sat_add(now, ORIG_COOLDOWN),
                )),
    {
        let banned = match self.is_banned(ip.as_str(), now) {
            Ok(b) => b,
            Err(e) => {
                return Err(e);
            },
        };
        if banned {
            return Ok(SubmissionResult::Banned);
        }
        if is_within_cooldown(&self.orig_cooldown, ip.as_str(), now) {
            return Ok(SubmissionResult::Cooldown);
        }
        if none_or_empty(&title) && is_blank(body.as_str()) {
            return Ok(SubmissionResult::MayNotBeEmpty);
        }
        let feather = match trip {
            None => site::Feather::Anonymous,
            Some(t) => site::Feather::Trip(compute_tripcode(t)),
        };
        let original = site::Original {
            board_id,
            post_num: 0,
            time: now,
            ip: ip.clone(),
            body,
            poster,
            feather,
            file_id: Some(file_id),
            file_name: Some(file_name),
            title,
            bump_time: now,
            replies: 0,
            img_replies: 0,
            pinned: false,
            archived: false,
        };
        let ghost og = original;
        proof {
            assert(original_built(
                og,
                board_id,
                ip,
                body,
                poster,
                trip,
                file_id,
                file_name,
                title,
                now,
            ));
        }
        self.persist_original(database, file_rack, board_id, original, ip, now)
    }

    /// Write the already-validated original, start the submitter's
    /// cooldown, and enforce the board's capacity; the tail of the
    /// submission pipeline, after every gate has passed.
    fn persist_original<DB: Database, FR: crate::fr::FileRack>(
        &mut self,
        database: &mut DB,
        file_rack: &mut FR,
        board_id: u64,
        original: site::Original,
        ip: String,
        now: u64,
    ) -> (r: Result<SubmissionResult, PlainchantErr>)
        ensures
            final(self).ban_view() == old(self).ban_view(),
            final(self).reply_cooldown_view() == old(self).reply_cooldown_view(),
            final(self).board_urls_view() == old(self).board_urls_view(),
            r is Ok ==> (r->Ok_0 matches SubmissionResult::Success(n) && original_persisted(
                old(database).store(),
                final(database).store(),
                original,
                n,
                board_id,
            ) && final(self).orig_cooldown_view() == old(self).orig_cooldown_view().insert(
                ip@,
                sat_add(now, ORIG_COOLDOWN),
            )),
            r is Err ==> (final(database).store() == old(database).store() && final(self).orig_cooldown_view() == old(self).orig_cooldown_view()) || (exists|n: u64|
                #[trigger] original_persisted_partial(
                    old(database).store(),
                    final(database).store(),
                    original,
                    n,
                    board_id,
                ) && final(self).orig_cooldown_view() == old(self).orig_cooldown_view().insert(
                    ip@,
                    sat_add(now, ORIG_COOLDOWN),
                )),
    {
        let n = match database.create_original(original) {
            Err(e) => {
                return Err(e);
            },
            Ok(n) => n,
        };
        let ghost mid = database.store();
        set_cooldown_time(&mut self.orig_cooldown, ip, sat_add_u64(now, ORIG_COOLDOWN));
        proof {
            assert(self.ban_view() =~= old(self).ban_view());
            assert(crate::db::create_original_ok(old(database).store(), mid, original, n));
            assert(self.orig_cooldown_view() == old(self).orig_cooldown_view().insert(
                ip@,
                sat_add(now, ORIG_COOLDOWN),
            ));
        }
        match self.enforce_post_cap(database, file_rack, board_id) {
            Ok(()) => {
                proof {
                    let c = choose|c: site::Catalog|
                        #[trigger] crate::db::catalog_ok(mid, board_id, c) && post_cap_enforced(
                            mid,
                            database.store(),
                            board_id,
                            c,
                        );
                    assert(crate::db::catalog_ok(mid, board_id, c) && post_cap_enforced(
                        mid,
                        database.store(),
                        board_id,
                        c,
                    ));
                    assert(original_persisted(
                        old(database).store(),
                        database.store(),
                        original,
                        n,
                        board_id,
                    ));
                }
                Ok(SubmissionResult::Success(n))
            },
            Err(e) => {
                proof {
                    if !(database.store() == mid) {
                        let c = choose|c: site::Catalog|
                            #[trigger] crate::db::catalog_ok(mid, board_id, c)
                                && cap_survivors_kept(mid, database.store(), board_id, c);
                        assert(crate::db::catalog_ok(mid, board_id, c) && cap_survivors_kept(
                            mid,
                            database.store(),
                            board_id,
                            c,
                        ));
                    }
                    assert(original_persisted_partial(
                        old(database).store(),
                        database.store(),
                        original,
                        n,
                        board_id,
                    ));
                }
                Err(e)
            },
        }
    }

    /// Submit a thread at the current wall-clock time.
    pub fn submit_original<DB: Database, FR: crate::fr::FileRack>(
        &mut self,
        database: &mut DB,
        file_rack: &mut FR,
        board_id: u64,
        ip: String,
        body: String,
        poster: Option<String>,
        trip: Option<String>,
        file_id: String,
        file_name: String,
        title: Option<String>,
    ) -> (r: Result<SubmissionResult, PlainchantErr>)
        ensures
            exists|now: u64|
                submit_original_post(
                    *old(self),
                    *final(self),
                    old(database).store(),
                    final(database).store(),
                    board_id,
                    ip,
                    body,
                    poster,
                    trip,
                    file_id,
                    file_name,
                    title,
                    now,
                    r,
                ),
    {
        let now = util::timestamp();
        let r = self.submit_original_at(
            database,
            file_rack,
            board_id,
            ip.clone(),
            body,
            poster,
            trip,
            file_id,
            file_name,
            title,
            now,
        );
        proof {
            assert(submit_original_post(
                *old(self),
                *self,
                old(database).store(),
                database.store(),
                board_id,
                ip,
                body,
                poster,
                trip,
                file_id,
                file_name,
                title,
                now,
                r,
            ));
        }
        r
    }

    /// Submit a reply at an explicit time: the verified pipeline behind
    /// `submit_reply`.
    #[verifier::rlimit(60)]
    pub fn submit_reply_at<DB: Database>(
        &mut self,
        database: &mut DB,
        board_id: u64,
        ip: String,
        body: String,
        poster: Option<String>,
        trip: Option<String>,
        file_id: Option<String>,
        file_name: Option<String>,
        orig_num: u64,
        now: u64,
    ) -> (r: Result<SubmissionResult, PlainchantErr>)
        ensures
            final(self).ban_view() == old(self).ban_view(),
            final(self).orig_cooldown_view() == old(self).orig_cooldown_view(),
            final(self).board_urls_view() == old(self).board_urls_view(),
            blocked_at(old(self).ban_view(), ip@, now) ==> r is Ok && r->Ok_0 is Banned && final(database).store() == old(database).store() && final(self).reply_cooldown_view() == old(self).reply_cooldown_view(),
            !blocked_at(old(self).ban_view(), ip@, now) && blocked_at(
                old(self).reply_cooldown_view(),
                ip@,
                now,
            ) ==> r is Ok && r->Ok_0 is Cooldown && final(database).store() == old(database).store()
                && final(self).reply_cooldown_view() == old(self).reply_cooldown_view(),
            !blocked_at(old(self).ban_view(), ip@, now) && !blocked_at(
                old(self).reply_cooldown_view(),
                ip@,
                now,
            ) && (file_id is None && blank(body@)) ==> r is Ok && r->Ok_0 is MayNotBeEmpty && final(database).store() == old(database).store() && final(self).reply_cooldown_view() == old(self).reply_cooldown_view(),
            !blocked_at(old(self).ban_view(), ip@, now) && !blocked_at(
                old(self).reply_cooldown_view(),
                ip@,
                now,
            ) && !(file_id is None && blank(body@)) && r is Ok ==> (r->Ok_0
                matches SubmissionResult::Success(n) && (exists|rp: site::Reply|
                #[trigger] reply_built(
                    rp,
                    board_id,
                    ip,
                    body,
                    poster,
                    trip,
                    file_id,
                    file_name,
                    orig_num,
                    now,
                ) && crate::db::create_reply_ok(
                    old(database).store(),
                    final(database).store(),
                    rp,
                    n,
                )) && final(self).reply_cooldown_view() == old(self).reply_cooldown_view().insert(
                ip@,
                sat_add(now, REPLY_COOLDOWN),
            )),
            !blocked_at(old(self).ban_view(), ip@, now) && !blocked_at(
                old(self).reply_cooldown_view(),
                ip@,
                now,
            ) && !(file_id is None && blank(body@)) && r is Err ==> final(database).store() == old(database).store() && final(self).reply_cooldown_view() == old(self).reply_cooldown_view(),
    {
        let banned = match self.is_banned(ip.as_str(), now) {
            Ok(b) => b,
            Err(e) => {
                return Err(e);
            },
        };
        if banned {
            return Ok(SubmissionResult::Banned);
        }
        if is_within_cooldown(&self.reply_cooldown, ip.as_str(), now) {
            return Ok(SubmissionResult::Cooldown);
        }
        if file_id.is_none() && is_blank(body.as_str()) {
            return Ok(SubmissionResult::MayNotBeEmpty);
        }
        let feather = match trip {
            None => site::Feather::Anonymous,
            Some(t) => site::Feather::Trip(compute_tripcode(t)),
        };
        let reply = site::Reply {
            board_id,
            post_num: 0,
            time: now,
            ip: ip.clone(),
            body,
            poster,
            feather,
            file_id,
            file_name,
            orig_num,
        };
        let ghost rg = reply;
        match database.create_reply(reply) {
            Err(e) => Err(e),
            Ok(n) => {
                set_cooldown_time(&mut self.reply_cooldown, ip, sat_add_u64(now, REPLY_COOLDOWN));
                proof {
                    assert(self.ban_view() =~= old(self).ban_view());
                    assert(reply_built(
                        rg,
                        board_id,
                        ip,
                        body,
                        poster,
                        trip,
                        file_id,
                        file_name,
                        orig_num,
                        now,
                    ));
                    assert(crate::db::create_reply_ok(
                        old(database).store(),
                        database.store(),
                        rg,
                        n,
                    ));
                    assert(self.reply_cooldown_view() == old(self).reply_cooldown_view().insert(
                        ip@,
                        sat_add(now, REPLY_COOLDOWN),
                    ));
                    assert(exists|rp: site::Reply|
                        reply_built(
                            rp,
                            board_id,
                            ip,
                            body,
                            poster,
                            trip,
                            file_id,
                            file_name,
                            orig_num,
                            now,
                        ) && #[trigger] crate::db::create_reply_ok(
                            old(database).store(),
                            database.store(),
                            rp,
                            n,
                        ));
                }
                Ok(SubmissionResult::Success(n))
            },
        }
    }

    /// Submit a reply at the current wall-clock time.
    pub fn submit_reply<DB: Database>(
        &mut self,
        database: &mut DB,
        board_id: u64,
        ip: String,
        body: String,
        poster: Option<String>,
        trip: Option<String>,
        file_id: Option<String>,
        file_name: Option<String>,
        orig_num: u64,
    ) -> (r: Result<SubmissionResult, PlainchantErr>)
        ensures
            exists|now: u64|
                submit_reply_post(
                    *old(self),
                    *final(self),
                    old(database).store(),
                    final(database).store(),
                    board_id,
                    ip,
                    body,
                    poster,
                    trip,
                    file_id,
                    file_name,
                    orig_num,
                    now,
                    r,
                ),
    {
        let now = util::timestamp();
        let r = self.submit_reply_at(
            database,
            board_id,
            ip.clone(),
            body,
            poster,
            trip,
            file_id,
            file_name,
            orig_num,
            now,
        );
        proof {
            assert(submit_reply_post(
                *old(self),
                *self,
                old(database).store(),
                database.store(),
                board_id,
                ip,
                body,
                poster,
                trip,
                file_id,
                file_name,
                orig_num,
                now,
                r,
            ));
        }
        r
    }

    /// Fetch the full thread, delete its rows (the store cascades to the
    /// replies), then delete the attached files best-effort: a file failure
    /// is reported after the rows are already gone and does not undo them.
    pub fn delete_thread<DB: Database, FR: crate::fr::FileRack>(
        &self,
        database: &mut DB,
        file_rack: &mut FR,
        board_id: u64,
        post_num: u64,
    ) -> (r: Result<(), PlainchantErr>)
        ensures
            r is Ok ==> crate::db::delete_original_ok(
                old(database).store(),
                final(database).store(),
                board_id,
                post_num,
            ),
            r is Err ==> final(database).store() == old(database).store()
                || crate::db::delete_original_ok(
                old(database).store(),
                final(database).store(),
                board_id,
                post_num,
            ),
    {
        let thread = match database.get_thread(board_id, post_num) {
            Ok(t) => t,
            Err(e) => {
                return Err(e);
            },
        };
        match database.delete_original(board_id, thread.original.post_num()) {
            Ok(()) => (),
            Err(e) => {
                return Err(e);
            },
        }
        if let Some(id) = thread.original.file_id() {
            if file_rack.delete_file(id).is_err() {
                return Err(crate::fr::static_err("Failed to delete thread file"));
            }
        }
        let mut i: usize = 0;
        while i < thread.replies.len()
            invariant
                i <= thread.replies@.len(),
                crate::db::delete_original_ok(
                    old(database).store(),
                    database.store(),
                    board_id,
                    post_num,
                ),
            decreases thread.replies@.len() - i,
        {
            if let Some(id) = thread.replies[i].file_id() {
                if file_rack.delete_file(id).is_err() {
                    return Err(crate::fr::static_err("Failed to delete reply file"));
                }
            }
            i += 1;
        }
        Ok(())
    }

    /// Delete one reply row and its file; the parent's counters move down
    /// inside the store's transaction.
    pub fn delete_reply<DB: Database, FR: crate::fr::FileRack>(
        &self,
        database: &mut DB,
        file_rack: &mut FR,
        board_id: u64,
        post_num: u64,
    ) -> (r: Result<(), PlainchantErr>)
        ensures
            r is Ok ==> crate::db::delete_reply_ok(
                old(database).store(),
                final(database).store(),
                board_id,
                post_num,
            ),
            r is Err ==> final(database).store() == old(database).store()
                || crate::db::delete_reply_ok(
                old(database).store(),
                final(database).store(),
                board_id,
                post_num,
            ),
    {
        let reply = match database.get_reply(board_id, post_num) {
            Ok(rp) => rp,
            Err(e) => {
                return Err(e);
            },
        };
        match database.delete_reply(board_id, post_num) {
            Ok(()) => (),
            Err(e) => {
                return Err(e);
            },
        }
        if let Some(id) = reply.file_id() {
            if file_rack.delete_file(id).is_err() {
                return Err(crate::fr::static_err("Failed to delete reply file"));
            }
        }
        Ok(())
    }

    /// Delete a post of unknown kind: try a cascading thread delete first,
    /// and fall back to a reply delete when the number is no thread root.
    pub fn delete_post<DB: Database, FR: crate::fr::FileRack>(
        &self,
        database: &mut DB,
        file_rack: &mut FR,
        board_id: u64,
        post_num: u64,
    ) -> (r: Result<(), PlainchantErr>)
        ensures
            r is Ok ==> crate::db::delete_original_ok(
                old(database).store(),
                final(database).store(),
                board_id,
                post_num,
            ) || crate::db::delete_reply_ok(
                old(database).store(),
                final(database).store(),
                board_id,
                post_num,
            ),
            r is Err ==> final(database).store() == old(database).store()
                || crate::db::delete_original_ok(
                old(database).store(),
                final(database).store(),
                board_id,
                post_num,
            ) || crate::db::delete_reply_ok(
                old(database).store(),
                final(database).store(),
                board_id,
                post_num,
            ),
    {
        let is_thread = match database.get_thread(board_id, post_num) {
            Ok(_) => true,
            Err(_) => false,
        };
        if is_thread {
            self.delete_thread(database, file_rack, board_id, post_num)
        } else {
            self.delete_reply(database, file_rack, board_id, post_num)
        }
    }

    /// Delete every post an IP authored, swallowing individual failures — a
    /// post may already be gone because its parent thread was deleted first.
    /// Reports how many posts it set out to process.
    pub fn delete_all_posts_by_ip<DB: Database, FR: crate::fr::FileRack>(
        &self,
        database: &mut DB,
        file_rack: &mut FR,
        ip: String,
    ) -> (r: Result<usize, PlainchantErr>)
        ensures
            r is Ok ==> r->Ok_0 == crate::counting::count_matching(
                old(database).store().originals,
                crate::db::orig_by_ip_pred(ip@),
            ) + crate::counting::count_matching(
                old(database).store().replies,
                crate::db::reply_by_ip_pred(ip@),
            ),
            r is Ok ==> final(database).store().boards == old(database).store().boards && final(database).store().bans == old(database).store().bans && final(database).store().site == old(database).store().site,
            r is Ok ==> forall|b: u64, n: u64|
                #[trigger] crate::db::has_original(final(database).store(), b, n)
                    ==> crate::db::has_original(old(database).store(), b, n),
            r is Ok ==> forall|b: u64, n: u64|
                #[trigger] crate::db::has_reply(final(database).store(), b, n)
                    ==> crate::db::has_reply(old(database).store(), b, n),
            r is Ok ==> forall|rp: Reply|
                #[trigger] final(database).store().replies.contains(rp) ==> old(database).store().replies.contains(rp),
            r is Err ==> final(database).store() == old(database).store(),
    {
        let posts = match database.get_all_posts_by_ip(ip.as_str()) {
            Ok(p) => p,
            Err(e) => {
                return Err(e);
            },
        };
        let mut i: usize = 0;
        while i < posts.len()
            invariant
                i <= posts@.len(),
                database.store().boards == old(database).store().boards,
                database.store().bans == old(database).store().bans,
                database.store().site == old(database).store().site,
                forall|b: u64, n: u64|
                    #[trigger] crate::db::has_original(database.store(), b, n)
                        ==> crate::db::has_original(old(database).store(), b, n),
                forall|b: u64, n: u64|
                    #[trigger] crate::db::has_reply(database.store(), b, n)
                        ==> crate::db::has_reply(old(database).store(), b, n),
                forall|rp: Reply|
                    #[trigger] database.store().replies.contains(rp) ==> old(database).store().replies.contains(rp),
            decreases posts@.len() - i,
        {
            let ghost mid = database.store();
            let pb = posts[i].board_id();
            let pn = posts[i].post_num();
            // a failure here is tolerated: the post may already be gone
            let _outcome = self.delete_post(database, file_rack, pb, pn);
            proof {
                if !(database.store() == mid) {
                    assert(crate::db::delete_original_ok(mid, database.store(), pb, pn)
                        || crate::db::delete_reply_ok(mid, database.store(), pb, pn));
                    crate::db::lemma_delete_keeps_frame(mid, database.store(), pb, pn);
                    assert forall|b: u64, n: u64|
                        #[trigger] crate::db::has_original(database.store(), b, n) implies
                        crate::db::has_original(old(database).store(), b, n) by {
                        assert(crate::db::has_original(mid, b, n));
                    }
                    assert forall|b: u64, n: u64|
                        #[trigger] crate::db::has_reply(database.store(), b, n) implies
                        crate::db::has_reply(old(database).store(), b, n) by {
                        assert(crate::db::has_reply(mid, b, n));
                    }
                    assert forall|rp: Reply|
                        #[trigger] database.store().replies.contains(rp) implies old(database).store().replies.contains(rp) by {
                        assert(mid.replies.contains(rp));
                    }
                }
            }
            i += 1;
        }
        Ok(posts.len())
    }

    /// Keep the board within its thread capacity: fetch the catalog, and
    /// delete every thread ranked beyond `post_cap` — the bump order is the
    /// eviction order.
    pub fn enforce_post_cap<DB: Database, FR: crate::fr::FileRack>(
        &self,
        database: &mut DB,
        file_rack: &mut FR,
        board_id: u64,
    ) -> (r: Result<(), PlainchantErr>)
        ensures
            r is Ok ==> exists|c: site::Catalog|
                #[trigger] crate::db::catalog_ok(old(database).store(), board_id, c)
                    && post_cap_enforced(
                    old(database).store(),
                    final(database).store(),
                    board_id,
                    c,
                ),
            r is Err ==> final(database).store() == old(database).store() || (exists|
                c: site::Catalog,
            |
                #[trigger] crate::db::catalog_ok(old(database).store(), board_id, c)
                    && cap_survivors_kept(
                    old(database).store(),
                    final(database).store(),
                    board_id,
                    c,
                )),
    {
        let ghost pre = old(database).store();
        let board = match database.get_board(board_id) {
            Ok(b) => b,
            Err(e) => {
                return Err(e);
            },
        };
        let catalog = match database.get_catalog(board_id) {
            Ok(c) => c,
            Err(e) => {
                return Err(e);
            },
        };
        let post_cap = board.post_cap as usize;
        if catalog.originals.len() <= post_cap {
            proof {
                assert(post_cap_enforced(pre, database.store(), board_id, catalog));
                assert(crate::db::catalog_ok(old(database).store(), board_id, catalog));
            }
            return Ok(());
        }
        let ghost cap = crate::db::board_of(pre, board_id).post_cap as int;
        proof {
            assert(cap == post_cap as int);
        }
        let mut j: usize = post_cap;
        while j < catalog.originals.len()
            invariant
                post_cap <= j <= catalog.originals@.len(),
                cap == post_cap as int,
                cap == crate::db::board_of(pre, board_id).post_cap as int,
                pre == old(database).store(),
                crate::db::catalog_ok(pre, board_id, catalog),
                forall|q: int|
                    0 <= q < catalog.originals@.len() && q < cap ==> database.store().originals.contains(
                        #[trigger] catalog.originals@[q],
                    ),
                forall|q: int|
                    j <= q < catalog.originals@.len() ==> database.store().originals.contains(
                        #[trigger] catalog.originals@[q],
                    ),
                forall|q: int|
                    cap <= q < j ==> !database.store().originals.contains(
                        #[trigger] catalog.originals@[q],
                    ),
                forall|q: int, rp: site::Reply|
                    cap <= q < j && pre.replies.contains(rp) && rp.board_id == board_id
                        && rp.orig_num == (#[trigger] catalog.originals@[q]).post_num ==> !(
                    #[trigger] database.store().replies.contains(rp)),
                forall|rp: site::Reply|
                    #[trigger] database.store().replies.contains(rp) ==> pre.replies.contains(rp),
            decreases catalog.originals@.len() - j,
        {
            let ghost mid = database.store();
            let num = catalog.originals[j].post_num;
            match self.delete_thread(database, file_rack, board_id, num) {
                Ok(()) => (),
                Err(e) => {
                    proof {
                        if database.store() == mid {
                            assert(cap_survivors_kept(pre, database.store(), board_id, catalog));
                        } else {
                            assert(crate::db::delete_original_ok(
                                mid,
                                database.store(),
                                board_id,
                                num,
                            ));
                            assert forall|q: int|
                                0 <= q < catalog.originals@.len() && q < cap implies database.store().originals.contains(
                                #[trigger] catalog.originals@[q],
                            ) by {
                                assert(mid.originals.contains(catalog.originals@[q]));
                                assert(q < j);
                                assert(!((#[trigger] catalog.originals@[q]).board_id == (
                                #[trigger] catalog.originals@[j as int]).board_id
                                    && catalog.originals@[q].post_num
                                    == catalog.originals@[j as int].post_num));
                            }
                            assert(cap_survivors_kept(pre, database.store(), board_id, catalog));
                        }
                    }
                    return Err(e);
                },
            }
            proof {
                assert(crate::db::delete_original_ok(mid, database.store(), board_id, num));
                assert forall|q: int|
                    0 <= q < catalog.originals@.len() && q != j implies (
                mid.originals.contains(#[trigger] catalog.originals@[q])
                    ==> database.store().originals.contains(catalog.originals@[q])) by {
                    if q < j as int {
                        assert(!((#[trigger] catalog.originals@[q]).board_id == (
                        #[trigger] catalog.originals@[j as int]).board_id
                            && catalog.originals@[q].post_num
                            == catalog.originals@[j as int].post_num));
                    } else {
                        assert(!((#[trigger] catalog.originals@[j as int]).board_id == (
                        #[trigger] catalog.originals@[q]).board_id
                            && catalog.originals@[j as int].post_num
                            == catalog.originals@[q].post_num));
                    }
                }
                assert(!database.store().originals.contains(catalog.originals@[j as int])) by {
                    assert(catalog.originals@[j as int].board_id == board_id
                        && catalog.originals@[j as int].post_num == num);
                }
            }
            j += 1;
        }
        proof {
            assert(post_cap_enforced(pre, database.store(), board_id, catalog));
        }
        Ok(())
    }

    /// Remove every persisted ban row for the IP, then drop the cache entry
    /// entirely, so a later ban is not computed against a stale maximum.
    pub fn unban_ip<DB: Database>(&mut self, database: &mut DB, ip: &str) -> (r: Result<
        (),
        PlainchantErr,
    >)
        ensures
            r is Ok ==> unban_applied(
                *old(self),
                *final(self),
                old(database).store(),
                final(database).store(),
                ip@,
            ),
            r is Err ==> final(database).store() == old(database).store() && *final(self) == *old(self),
    {
        match database.delete_bans(ip) {
            Err(e) => Err(e),
            Ok(()) => {
                self.ban_cache.remove(ip);
                proof {
                    assert(self.ban_view() =~= old(self).ban_view().remove(ip@));
                }
                Ok(())
            },
        }
    }
}

/// The expiry the cache held for an IP before a new ban, or zero.
pub open spec fn prev_expiry(m: Map<Seq<char>, u64>, ip: Seq<char>) -> u64 {
    if m.contains_key(ip) {
        m[ip]
    } else {
        0
    }
}

/// One applied ban: the row persisted first, then the cache entry raised to
/// the larger expiry; cooldowns and the slug table untouched.
pub open spec fn ban_applied(
    pre_a: Actions,
    post_a: Actions,
    pre_s: crate::db::StoreView,
    post_s: crate::db::StoreView,
    ip: Seq<char>,
    ban_length: u64,
    now: u64,
) -> bool {
    let expiry = sat_add(now, ban_length);
    &&& crate::db::ban_appended(pre_s, post_s, ip, expiry)
    &&& post_a.ban_view() == pre_a.ban_view().insert(
        ip,
        max64(prev_expiry(pre_a.ban_view(), ip), expiry),
    )
    &&& post_a.orig_cooldown_view() == pre_a.orig_cooldown_view()
    &&& post_a.reply_cooldown_view() == pre_a.reply_cooldown_view()
    &&& post_a.board_urls_view() == pre_a.board_urls_view()
}

/// The identity marker a submission carries: anonymous without a tripcode
/// secret, else the truncated digest of the secret.
pub open spec fn submitted_feather(f: site::Feather, trip: Option<String>) -> bool {
    match trip {
        Some(t) => f matches site::Feather::Trip(code) && code@ == sha256_hex(t@).subrange(
            0,
            TRIPCODE_LEN as int,
        ),
        None => f is Anonymous,
    }
}

/// The row a fresh thread submission hands to the store: the caller's
/// fields, a placeholder number, creation and bump time `now`, and zeroed
/// counters.
pub open spec fn original_built(
    o: site::Original,
    board_id: u64,
    ip: String,
    body: String,
    poster: Option<String>,
    trip: Option<String>,
    file_id: String,
    file_name: String,
    title: Option<String>,
    now: u64,
) -> bool {
    &&& o.board_id == board_id
    &&& o.post_num == 0
    &&& o.time == now
    &&& o.ip == ip
    &&& o.body == body
    &&& o.poster == poster
    &&& submitted_feather(o.feather, trip)
    &&& o.file_id == Some(file_id)
    &&& o.file_name == Some(file_name)
    &&& o.title == title
    &&& o.bump_time == now
    &&& o.replies == 0
    &&& o.img_replies == 0
    &&& !o.pinned
    &&& !o.archived
}

/// The row a fresh reply submission hands to the store.
pub open spec fn reply_built(
    rp: site::Reply,
    board_id: u64,
    ip: String,
    body: String,
    poster: Option<String>,
    trip: Option<String>,
    file_id: Option<String>,
    file_name: Option<String>,
    orig_num: u64,
    now: u64,
) -> bool {
    &&& rp.board_id == board_id
    &&& rp.post_num == 0
    &&& rp.time == now
    &&& rp.ip == ip
    &&& rp.body == body
    &&& rp.poster == poster
    &&& submitted_feather(rp.feather, trip)
    &&& rp.file_id == file_id
    &&& rp.file_name == file_name
    &&& rp.orig_num == orig_num
}

/// The fixed contract of a thread submission at time `now`: ban check, then
/// cooldown check, then content validation, then the store write; the
/// cooldown starts only after a successful write, and no other cache state
/// moves.
pub open spec fn submit_original_post(
    pre_a: Actions,
    post_a: Actions,
    pre_s: crate::db::StoreView,
    post_s: crate::db::StoreView,
    board_id: u64,
    ip: String,
    body: String,
    poster: Option<String>,
    trip: Option<String>,
    file_id: String,
    file_name: String,
    title: Option<String>,
    now: u64,
    r: Result<SubmissionResult, PlainchantErr>,
) -> bool {
    let banned = blocked_at(pre_a.ban_view(), ip@, now);
    let cooling = blocked_at(pre_a.orig_cooldown_view(), ip@, now);
    let empty = opt_blank(site::view_opt_string(title)) && blank(body@);
    &&& post_a.ban_view() == pre_a.ban_view()
    &&& post_a.reply_cooldown_view() == pre_a.reply_cooldown_view()
    &&& post_a.board_urls_view() == pre_a.board_urls_view()
    &&& banned ==> r is Ok && r->Ok_0 is Banned && post_s == pre_s && post_a.orig_cooldown_view()
        == pre_a.orig_cooldown_view()
    &&& !banned && cooling ==> r is Ok && r->Ok_0 is Cooldown && post_s == pre_s
        && post_a.orig_cooldown_view() == pre_a.orig_cooldown_view()
    &&& !banned && !cooling && empty ==> r is Ok && r->Ok_0 is MayNotBeEmpty && post_s == pre_s
        && post_a.orig_cooldown_view() == pre_a.orig_cooldown_view()
    &&& !banned && !cooling && !empty && r is Ok ==> (r->Ok_0 matches SubmissionResult::Success(n)
        && (exists|o: site::Original|
        #[trigger] original_built(o, board_id, ip, body, poster, trip, file_id, file_name, title, now)
            && original_persisted(pre_s, post_s, o, n, board_id))
        && post_a.orig_cooldown_view() == pre_a.orig_cooldown_view().insert(
        ip@,
        sat_add(now, ORIG_COOLDOWN),
    ))
    &&& !banned && !cooling && !empty && r is Err ==> (post_s == pre_s
        && post_a.orig_cooldown_view() == pre_a.orig_cooldown_view()) || (exists|
        o: site::Original,
        n: u64,
    |
        original_built(o, board_id, ip, body, poster, trip, file_id, file_name, title, now)
            && #[trigger] original_persisted_partial(pre_s, post_s, o, n, board_id)
            && post_a.orig_cooldown_view() == pre_a.orig_cooldown_view().insert(
            ip@,
            sat_add(now, ORIG_COOLDOWN),
        ))
}

/// The fixed contract of a reply submission at time `now`; a file-only
/// reply is valid.
pub open spec fn submit_reply_post(
    pre_a: Actions,
    post_a: Actions,
    pre_s: crate::db::StoreView,
    post_s: crate::db::StoreView,
    board_id: u64,
    ip: String,
    body: String,
    poster: Option<String>,
    trip: Option<String>,
    file_id: Option<String>,
    file_name: Option<String>,
    orig_num: u64,
    now: u64,
    r: Result<SubmissionResult, PlainchantErr>,
) -> bool {
    let banned = blocked_at(pre_a.ban_view(), ip@, now);
    let cooling = blocked_at(pre_a.reply_cooldown_view(), ip@, now);
    let empty = file_id is None && blank(body@);
    &&& post_a.ban_view() == pre_a.ban_view()
    &&& post_a.orig_cooldown_view() == pre_a.orig_cooldown_view()
    &&& post_a.board_urls_view() == pre_a.board_urls_view()
    &&& banned ==> r is Ok && r->Ok_0 is Banned && post_s == pre_s && post_a.reply_cooldown_view()
        == pre_a.reply_cooldown_view()
    &&& !banned && cooling ==> r is Ok && r->Ok_0 is Cooldown && post_s == pre_s
        && post_a.reply_cooldown_view() == pre_a.reply_cooldown_view()
    &&& !banned && !cooling && empty ==> r is Ok && r->Ok_0 is MayNotBeEmpty && post_s == pre_s
        && post_a.reply_cooldown_view() == pre_a.reply_cooldown_view()
    &&& !banned && !cooling && !empty && r is Ok ==> (r->Ok_0 matches SubmissionResult::Success(n)
        && (exists|rp: site::Reply|
        #[trigger] reply_built(rp, board_id, ip, body, poster, trip, file_id, file_name, orig_num, now)
            && crate::db::create_reply_ok(pre_s, post_s, rp, n))
        && post_a.reply_cooldown_view() == pre_a.reply_cooldown_view().insert(
        ip@,
        sat_add(now, REPLY_COOLDOWN),
    ))
    &&& !banned && !cooling && !empty && r is Err ==> post_s == pre_s
        && post_a.reply_cooldown_view() == pre_a.reply_cooldown_view()
}

/// One applied unban: every persisted row for the IP dropped, and the
/// cache entry removed outright.
pub open spec fn unban_applied(
    pre_a: Actions,
    post_a: Actions,
    pre_s: crate::db::StoreView,
    post_s: crate::db::StoreView,
    ip: Seq<char>,
) -> bool {
    &&& crate::db::delete_bans_ok(pre_s, post_s, ip)
    &&& post_a.ban_view() == pre_a.ban_view().remove(ip)
    &&& post_a.orig_cooldown_view() == pre_a.orig_cooldown_view()
    &&& post_a.reply_cooldown_view() == pre_a.reply_cooldown_view()
    &&& post_a.board_urls_view() == pre_a.board_urls_view()
}

/// What a completed capacity enforcement achieved, relative to the catalog
/// `c` the call observed: every thread within the cap survives untouched,
/// and every thread beyond it is gone together with its replies.
pub open spec fn post_cap_enforced(
    pre: crate::db::StoreView,
    post: crate::db::StoreView,
    board_id: u64,
    c: site::Catalog,
) -> bool {
    let cap = crate::db::board_of(pre, board_id).post_cap as int;
    &&& forall|j: int|
        0 <= j < c.originals@.len() && j < cap ==> post.originals.contains(
            #[trigger] c.originals@[j],
        )
    &&& forall|j: int|
        cap <= j < c.originals@.len() ==> !post.originals.contains(#[trigger] c.originals@[j])
    &&& forall|j: int, rp: Reply|
        cap <= j < c.originals@.len() && pre.replies.contains(rp) && rp.board_id == board_id
            && rp.orig_num == (#[trigger] c.originals@[j]).post_num ==> !(
        #[trigger] post.replies.contains(rp))
}

/// The store transition of a successful thread submission: the row stored
/// under its assigned number, then the board's capacity enforced against
/// the catalog observed in between.
pub open spec fn original_persisted(
    pre_s: crate::db::StoreView,
    post_s: crate::db::StoreView,
    original: site::Original,
    n: u64,
    board_id: u64,
) -> bool {
    exists|mid: crate::db::StoreView|
        #[trigger] crate::db::create_original_ok(pre_s, mid, original, n) && (exists|
            c: site::Catalog,
        |
            #[trigger] crate::db::catalog_ok(mid, board_id, c) && post_cap_enforced(
                mid,
                post_s,
                board_id,
                c,
            ))
}

/// The store transition when the row was stored but capacity enforcement
/// stopped early: at worst the threads within the cap all survive.
pub open spec fn original_persisted_partial(
    pre_s: crate::db::StoreView,
    post_s: crate::db::StoreView,
    original: site::Original,
    n: u64,
    board_id: u64,
) -> bool {
    exists|mid: crate::db::StoreView|
        #[trigger] crate::db::create_original_ok(pre_s, mid, original, n) && (post_s == mid || (
        exists|c: site::Catalog|
            #[trigger] crate::db::catalog_ok(mid, board_id, c) && cap_survivors_kept(
                mid,
                post_s,
                board_id,
                c,
            )))
}

/// The threads within the cap survive; holds at every exit of capacity
/// enforcement, even one cut short by an error.
pub open spec fn cap_survivors_kept(
    pre: crate::db::StoreView,
    post: crate::db::StoreView,
    board_id: u64,
    c: site::Catalog,
) -> bool {
    let cap = crate::db::board_of(pre, board_id).post_cap as int;
    forall|j: int|
        0 <= j < c.originals@.len() && j < cap ==> post.originals.contains(
            #[trigger] c.originals@[j],
        )
}

fn is_within_cooldown(cooldown: &StringHashMap<u64>, ip: &str, cur_time: u64) -> (r: bool)
    ensures
        r == blocked_at(cooldown@, ip@, cur_time),
{
    match cooldown.get(ip) {
        Some(time) => *time > cur_time,
        None => false,
    }
}

fn set_cooldown_time(cooldown: &mut StringHashMap<u64>, ip: String, cooldown_time: u64)
    ensures
        final(cooldown)@ == old(cooldown)@.insert(ip@, cooldown_time),
{
    cooldown.insert(ip, cooldown_time);
}

/// Ban coherence. Immediately after `ban_ip` the IP is banned at every
/// instant before the new expiry; after `unban_ip` it is banned at no
/// instant; and a ban placed after an unban is governed solely by the new
/// ban, never by any expiry that preceded the unban.
pub proof fn lemma_ban_coherence(
    a0: Actions,
    a1: Actions,
    a2: Actions,
    a3: Actions,
    s0: crate::db::StoreView,
    s1: crate::db::StoreView,
    s2: crate::db::StoreView,
    s3: crate::db::StoreView,
    ip: Seq<char>,
    len1: u64,
    now1: u64,
    len2: u64,
    now2: u64,
)
    requires
        ban_applied(a0, a1, s0, s1, ip, len1, now1),
        unban_applied(a1, a2, s1, s2, ip),
        ban_applied(a2, a3, s2, s3, ip, len2, now2),
    ensures
        forall|t: u64| t < sat_add(now1, len1) ==> blocked_at(a1.ban_view(), ip, t),
        len1 > 0 && now1 < u64::MAX ==> blocked_at(a1.ban_view(), ip, now1),
        forall|t: u64| !blocked_at(a2.ban_view(), ip, t),
        a3.ban_view().contains_key(ip) && a3.ban_view()[ip] == sat_add(now2, len2),
        forall|t: u64| blocked_at(a3.ban_view(), ip, t) == (t < sat_add(now2, len2)),
{
    let e1 = sat_add(now1, len1);
    assert(a1.ban_view().contains_key(ip));
    assert(a1.ban_view()[ip] >= e1);
    assert(!a2.ban_view().contains_key(ip));
    assert(prev_expiry(a2.ban_view(), ip) == 0);
    assert(a3.ban_view()[ip] == max64(0, sat_add(now2, len2)));
}

/// Cooldown gating. A successful thread submission from an IP starts its
/// cooldown; a second submission from the same IP before the window has
/// elapsed is refused with `Cooldown` and changes nothing; and once the
/// window has elapsed, the cooldown gate refuses no longer.
#[verifier::rlimit(30)]
pub proof fn lemma_cooldown_gating(
    a0: Actions,
    a1: Actions,
    a2: Actions,
    s0: crate::db::StoreView,
    s1: crate::db::StoreView,
    s2: crate::db::StoreView,
    board_id1: u64,
    ip1: String,
    body1: String,
    poster1: Option<String>,
    trip1: Option<String>,
    file_id1: String,
    file_name1: String,
    title1: Option<String>,
    now1: u64,
    r1: Result<SubmissionResult, PlainchantErr>,
    board_id2: u64,
    ip2: String,
    body2: String,
    poster2: Option<String>,
    trip2: Option<String>,
    file_id2: String,
    file_name2: String,
    title2: Option<String>,
    now2: u64,
    r2: Result<SubmissionResult, PlainchantErr>,
)
    requires
        submit_original_post(
            a0,
            a1,
            s0,
            s1,
            board_id1,
            ip1,
            body1,
            poster1,
            trip1,
            file_id1,
            file_name1,
            title1,
            now1,
            r1,
        ),
        r1 is Ok && r1->Ok_0 is Success,
        submit_original_post(
            a1,
            a2,
            s1,
            s2,
            board_id2,
            ip2,
            body2,
            poster2,
            trip2,
            file_id2,
            file_name2,
            title2,
            now2,
            r2,
        ),
        ip2@ == ip1@,
        now2 < sat_add(now1, ORIG_COOLDOWN),
        !blocked_at(a1.ban_view(), ip2@, now2),
    ensures
        r2 is Ok && r2->Ok_0 is Cooldown,
        s2 == s1,
        a2.orig_cooldown_view() == a1.orig_cooldown_view(),
{
    assert(!blocked_at(a0.ban_view(), ip1@, now1));
    assert(a1.orig_cooldown_view() == a0.orig_cooldown_view().insert(
        ip1@,
        sat_add(now1, ORIG_COOLDOWN),
    ));
    assert(blocked_at(a1.orig_cooldown_view(), ip2@, now2));
}

/// The elapsed half of cooldown gating: at or past the deadline a
/// submission is never refused with `Cooldown`.
#[verifier::rlimit(30)]
pub proof fn lemma_cooldown_elapsed(
    a0: Actions,
    a1: Actions,
    a2: Actions,
    s0: crate::db::StoreView,
    s1: crate::db::StoreView,
    s2: crate::db::StoreView,
    board_id1: u64,
    ip1: String,
    body1: String,
    poster1: Option<String>,
    trip1: Option<String>,
    file_id1: String,
    file_name1: String,
    title1: Option<String>,
    now1: u64,
    r1: Result<SubmissionResult, PlainchantErr>,
    board_id3: u64,
    ip3: String,
    body3: String,
    poster3: Option<String>,
    trip3: Option<String>,
    file_id3: String,
    file_name3: String,
    title3: Option<String>,
    now3: u64,
    r3: Result<SubmissionResult, PlainchantErr>,
)
    requires
        submit_original_post(
            a0,
            a1,
            s0,
            s1,
            board_id1,
            ip1,
            body1,
            poster1,
            trip1,
            file_id1,
            file_name1,
            title1,
            now1,
            r1,
        ),
        r1 is Ok && r1->Ok_0 is Success,
        submit_original_post(
            a1,
            a2,
            s1,
            s2,
            board_id3,
            ip3,
            body3,
            poster3,
            trip3,
            file_id3,
            file_name3,
            title3,
            now3,
            r3,
        ),
        ip3@ == ip1@,
        now3 >= sat_add(now1, ORIG_COOLDOWN),
    ensures
        !(r3 is Ok && r3->Ok_0 is Cooldown),
{
    assert(a1.orig_cooldown_view() == a0.orig_cooldown_view().insert(
        ip1@,
        sat_add(now1, ORIG_COOLDOWN),
    ));
    assert(!blocked_at(a1.orig_cooldown_view(), ip3@, now3));
    if blocked_at(a1.ban_view(), ip3@, now3) {
        assert(r3 is Ok && r3->Ok_0 is Banned);
    }
}

} // verus!
