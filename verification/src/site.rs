//! The entities a board is made of: boards, posts (originals and replies),
//! bans, and the site description.

use vstd::prelude::*;

verus! {

/// A post's identity marker: anonymous, tripcode hash, moderator or admin.
#[derive(Debug)]
pub enum Feather {
    Anonymous,
    Trip(String),
    Moderator,
    Admin,
}

impl Clone for Feather {
    fn clone(&self) -> (r: Self)
        ensures
            r == *self,
    {
        match self {
            Feather::Anonymous => Feather::Anonymous,
            Feather::Trip(s) => Feather::Trip(s.clone()),
            Feather::Moderator => Feather::Moderator,
            Feather::Admin => Feather::Admin,
        }
    }
}

fn clone_opt_string(o: &Option<String>) -> (r: Option<String>)
    ensures
        r == *o,
{
    match o {
        Some(s) => Some(s.clone()),
        None => None,
    }
}

/// The fields common to every post, with text fields abstracted to
/// character sequences.
pub ghost struct PostFields {
    pub board_id: u64,
    pub post_num: u64,
    pub time: u64,
    pub ip: Seq<char>,
    pub poster: Option<Seq<char>>,
    pub body: Seq<char>,
    pub feather: Feather,
    pub file_id: Option<Seq<char>>,
    pub file_name: Option<Seq<char>>,
}

pub open spec fn view_opt_string(o: Option<String>) -> Option<Seq<char>> {
    match o {
        Some(s) => Some(s@),
        None => None,
    }
}

/// Read and write access to the fields shared by `Original` and `Reply`.
pub trait Post: Sized {
    spec fn pv(&self) -> PostFields;

    fn board_id(&self) -> (r: u64)
        ensures
            r == self.pv().board_id,
    ;

    fn set_post_num(&mut self, post_num: u64)
        ensures
            final(self).pv() == (PostFields { post_num, ..old(self).pv() }),
    ;

    fn post_num(&self) -> (r: u64)
        ensures
            r == self.pv().post_num,
    ;

    fn time(&self) -> (r: u64)
        ensures
            r == self.pv().time,
    ;

    fn ip<'a>(&'a self) -> (r: &'a str)
        ensures
            r@ == self.pv().ip,
    ;

    fn poster<'a>(&'a self) -> (r: Option<&'a str>)
        ensures
            match r {
                Some(p) => self.pv().poster == Some(p@),
                None => self.pv().poster is None,
            },
    ;

    fn body<'a>(&'a self) -> (r: &'a str)
        ensures
            r@ == self.pv().body,
    ;

    fn set_feather(&mut self, feather: Feather)
        ensures
            final(self).pv() == (PostFields { feather, ..old(self).pv() }),
    ;

    fn feather<'a>(&'a self) -> (r: &'a Feather)
        ensures
            *r == self.pv().feather,
    ;

    fn file_id<'a>(&'a self) -> (r: Option<&'a str>)
        ensures
            match r {
                Some(f) => self.pv().file_id == Some(f@),
                None => self.pv().file_id is None,
            },
    ;

    fn file_name<'a>(&'a self) -> (r: Option<&'a str>)
        ensures
            match r {
                Some(f) => self.pv().file_name == Some(f@),
                None => self.pv().file_name is None,
            },
    ;
}

/// The root post of a thread.
#[derive(Debug)]
pub struct Original {
    pub board_id: u64,
    pub post_num: u64,
    pub time: u64,
    pub ip: String,
    pub poster: Option<String>,
    pub body: String,
    pub feather: Feather,
    pub file_id: Option<String>,
    pub file_name: Option<String>,
    pub title: Option<String>,
    pub bump_time: u64,
    pub replies: u16,
    pub img_replies: u16,
    pub pinned: bool,
    pub archived: bool,
}

/// A post belonging to an existing thread; `orig_num` names its parent.
#[derive(Debug)]
pub struct Reply {
    pub board_id: u64,
    pub post_num: u64,
    pub time: u64,
    pub ip: String,
    pub poster: Option<String>,
    pub body: String,
    pub feather: Feather,
    pub file_id: Option<String>,
    pub file_name: Option<String>,
    pub orig_num: u64,
}

impl Clone for Original {
    fn clone(&self) -> (r: Self)
        ensures
            r == *self,
    {
        Original {
            board_id: self.board_id,
            post_num: self.post_num,
            time: self.time,
            ip: self.ip.clone(),
            poster: clone_opt_string(&self.poster),
            body: self.body.clone(),
            feather: self.feather.clone(),
            file_id: clone_opt_string(&self.file_id),
            file_name: clone_opt_string(&self.file_name),
            title: clone_opt_string(&self.title),
            bump_time: self.bump_time,
            replies: self.replies,
            img_replies: self.img_replies,
            pinned: self.pinned,
            archived: self.archived,
        }
    }
}

impl Clone for Reply {
    fn clone(&self) -> (r: Self)
        ensures
            r == *self,
    {
        Reply {
            board_id: self.board_id,
            post_num: self.post_num,
            time: self.time,
            ip: self.ip.clone(),
            poster: clone_opt_string(&self.poster),
            body: self.body.clone(),
            feather: self.feather.clone(),
            file_id: clone_opt_string(&self.file_id),
            file_name: clone_opt_string(&self.file_name),
            orig_num: self.orig_num,
        }
    }
}

impl Original {
    pub fn title<'a>(&'a self) -> (r: Option<&'a str>)
        ensures
            match r {
                Some(t) => self.title is Some && self.title->0@ == t@,
                None => self.title is None,
            },
    {
        if let Some(ref t) = self.title {
            Some(t.as_str())
        } else {
            None
        }
    }

    pub fn bump_time(&self) -> (r: u64)
        ensures
            r == self.bump_time,
    {
        self.bump_time
    }

    pub fn set_bump_time(&mut self, bump_time: u64)
        ensures
            *final(self) == (Original { bump_time, ..*old(self) }),
    {
        self.bump_time = bump_time;
    }

    pub fn replies(&self) -> (r: u16)
        ensures
            r == self.replies,
    {
        self.replies
    }

    pub fn set_replies(&mut self, replies: u16)
        ensures
            *final(self) == (Original { replies, ..*old(self) }),
    {
        self.replies = replies;
    }

    pub fn img_replies(&self) -> (r: u16)
        ensures
            r == self.img_replies,
    {
        self.img_replies
    }

    pub fn set_img_replies(&mut self, img_replies: u16)
        ensures
            *final(self) == (Original { img_replies, ..*old(self) }),
    {
        self.img_replies = img_replies;
    }

    pub fn pinned(&self) -> (r: bool)
        ensures
            r == self.pinned,
    {
        self.pinned
    }

    pub fn set_pinned(&mut self, pinned: bool)
        ensures
            *final(self) == (Original { pinned, ..*old(self) }),
    {
        self.pinned = pinned;
    }
}

impl Post for Original {
    open spec fn pv(&self) -> PostFields {
        PostFields {
            board_id: self.board_id,
            post_num: self.post_num,
            time: self.time,
            ip: self.ip@,
            poster: view_opt_string(self.poster),
            body: self.body@,
            feather: self.feather,
            file_id: view_opt_string(self.file_id),
            file_name: view_opt_string(self.file_name),
        }
    }

    fn board_id(&self) -> u64 {
        self.board_id
    }

    fn set_post_num(&mut self, post_num: u64) {
        self.post_num = post_num;
    }

    fn post_num(&self) -> u64 {
        self.post_num
    }

    fn time(&self) -> u64 {
        self.time
    }

    fn ip<'a>(&'a self) -> &'a str {
        self.ip.as_str()
    }

    fn poster<'a>(&'a self) -> Option<&'a str> {
        match &self.poster {
            Some(p) => Some(p.as_str()),
            None => None,
        }
    }

    fn body<'a>(&'a self) -> &'a str {
        self.body.as_str()
    }

    fn set_feather(&mut self, feather: Feather) {
        self.feather = feather;
    }

    fn feather<'a>(&'a self) -> &'a Feather {
        &self.feather
    }

    fn file_id<'a>(&'a self) -> Option<&'a str> {
        match &self.file_id {
            Some(f) => Some(f.as_str()),
            None => None,
        }
    }

    fn file_name<'a>(&'a self) -> Option<&'a str> {
        match &self.file_name {
            Some(f) => Some(f.as_str()),
            None => None,
        }
    }
}

impl Post for Reply {
    open spec fn pv(&self) -> PostFields {
        PostFields {
            board_id: self.board_id,
            post_num: self.post_num,
            time: self.time,
            ip: self.ip@,
            poster: view_opt_string(self.poster),
            body: self.body@,
            feather: self.feather,
            file_id: view_opt_string(self.file_id),
            file_name: view_opt_string(self.file_name),
        }
    }

    fn board_id(&self) -> u64 {
        self.board_id
    }

    fn set_post_num(&mut self, post_num: u64) {
        self.post_num = post_num;
    }

    fn post_num(&self) -> u64 {
        self.post_num
    }

    fn time(&self) -> u64 {
        self.time
    }

    fn ip<'a>(&'a self) -> &'a str {
        self.ip.as_str()
    }

    fn poster<'a>(&'a self) -> Option<&'a str> {
        match &self.poster {
            Some(p) => Some(p.as_str()),
            None => None,
        }
    }

    fn body<'a>(&'a self) -> &'a str {
        self.body.as_str()
    }

    fn set_feather(&mut self, feather: Feather) {
        self.feather = feather;
    }

    fn feather<'a>(&'a self) -> &'a Feather {
        &self.feather
    }

    fn file_id<'a>(&'a self) -> Option<&'a str> {
        match &self.file_id {
            Some(f) => Some(f.as_str()),
            None => None,
        }
    }

    fn file_name<'a>(&'a self) -> Option<&'a str> {
        match &self.file_name {
            Some(f) => Some(f.as_str()),
            None => None,
        }
    }
}

/// A board's configuration row, including its post-number counter.
#[derive(Debug)]
pub struct Board {
    pub id: u64,
    pub url: String,
    pub title: String,
    pub post_cap: u16,
    pub bump_limit: u16,
    pub next_post_num: u64,
}

impl Clone for Board {
    fn clone(&self) -> (r: Self)
        ensures
            r == *self,
    {
        Board {
            id: self.id,
            url: self.url.clone(),
            title: self.title.clone(),
            post_cap: self.post_cap,
            bump_limit: self.bump_limit,
            next_post_num: self.next_post_num,
        }
    }
}

/// A board's live threads, ordered by bump rank (most recently bumped first,
/// ties broken by higher post number).
#[derive(Debug)]
pub struct Catalog {
    pub board_id: u64,
    pub time: u64,
    pub originals: Vec<Original>,
}

/// The site-wide description record.
#[derive(Debug)]
pub struct Site {
    pub name: String,
    pub description: String,
    pub contact: Option<String>,
    pub url: Option<String>,
}

impl Clone for Site {
    fn clone(&self) -> (r: Self)
        ensures
            r == *self,
    {
        Site {
            name: self.name.clone(),
            description: self.description.clone(),
            contact: clone_opt_string(&self.contact),
            url: clone_opt_string(&self.url),
        }
    }
}

/// One ban row; an IP may have several, and the latest expiry wins.
#[derive(Debug)]
pub struct Ban {
    pub id: u64,
    pub ip: String,
    pub time_expires: u64,
}

impl Clone for Ban {
    fn clone(&self) -> (r: Self)
        ensures
            r == *self,
    {
        Ban {
            id: self.id,
            ip: self.ip.clone(),
            time_expires: self.time_expires,
        }
    }
}

} // verus!
