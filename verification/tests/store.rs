use plainchant::db::{AnyPost, Database};
use plainchant::fr::{FileRack, MemFileRack};
use plainchant::memdb::MemDatabase;
use plainchant::site::{Ban, Board, Feather, Original, Reply, Site};

fn test_site() -> Site {
    Site {
        name: String::from("testchan"),
        description: String::from("a board for tests"),
        contact: None,
        url: None,
    }
}

fn board(id: u64, url: &str, post_cap: u16, bump_limit: u16, next_post_num: u64) -> Board {
    Board {
        id,
        url: String::from(url),
        title: String::from("Test Board"),
        post_cap,
        bump_limit,
        next_post_num,
    }
}

fn orig(board_id: u64, ip: &str, body: &str, bump_time: u64) -> Original {
    Original {
        board_id,
        post_num: 0,
        time: bump_time,
        ip: String::from(ip),
        poster: None,
        body: String::from(body),
        feather: Feather::Anonymous,
        file_id: Some(String::from("file")),
        file_name: Some(String::from("file.png")),
        title: None,
        bump_time,
        replies: 0,
        img_replies: 0,
        pinned: false,
        archived: false,
    }
}

fn reply(board_id: u64, orig_num: u64, ip: &str, time: u64, file: Option<&str>) -> Reply {
    Reply {
        board_id,
        post_num: 0,
        time,
        ip: String::from(ip),
        poster: None,
        body: String::from("a reply"),
        feather: Feather::Anonymous,
        file_id: file.map(String::from),
        file_name: file.map(|f| format!("{}.png", f)),
        orig_num,
    }
}

#[test]
fn post_numbers_are_consecutive_and_unique() {
    let mut db = MemDatabase::new(test_site());
    db.create_board(board(7, "b", 100, 100, 5)).unwrap();
    let n1 = db.create_original(orig(7, "10.0.0.1", "first", 10)).unwrap();
    let n2 = db.create_original(orig(7, "10.0.0.1", "second", 11)).unwrap();
    let n3 = db.create_reply(reply(7, n1, "10.0.0.2", 12, None)).unwrap();
    let n4 = db.create_reply(reply(7, n2, "10.0.0.2", 13, None)).unwrap();
    assert_eq!(vec![n1, n2, n3, n4], vec![5, 6, 7, 8]);
}

#[test]
fn bump_time_follows_replies_up_to_the_limit() {
    let mut db = MemDatabase::new(test_site());
    db.create_board(board(1, "b", 100, 3, 1)).unwrap();
    let t = db.create_original(orig(1, "10.0.0.1", "thread", 10)).unwrap();
    db.create_reply(reply(1, t, "10.0.0.2", 11, None)).unwrap();
    assert_eq!(db.get_original(1, t).unwrap().bump_time, 11);
    db.create_reply(reply(1, t, "10.0.0.2", 12, None)).unwrap();
    assert_eq!(db.get_original(1, t).unwrap().bump_time, 12);
    db.create_reply(reply(1, t, "10.0.0.2", 13, None)).unwrap();
    assert_eq!(db.get_original(1, t).unwrap().bump_time, 13);
    // reply number four exceeds the bump limit of three: no bump
    db.create_reply(reply(1, t, "10.0.0.2", 14, None)).unwrap();
    let o = db.get_original(1, t).unwrap();
    assert_eq!(o.bump_time, 13);
    assert_eq!(o.replies, 4);
}

#[test]
fn reply_counters_track_replies_and_files() {
    let mut db = MemDatabase::new(test_site());
    db.create_board(board(1, "b", 100, 10, 1)).unwrap();
    let t = db.create_original(orig(1, "10.0.0.1", "thread", 10)).unwrap();
    let r1 = db.create_reply(reply(1, t, "10.0.0.2", 11, Some("pic"))).unwrap();
    db.create_reply(reply(1, t, "10.0.0.2", 12, None)).unwrap();
    let o = db.get_original(1, t).unwrap();
    assert_eq!((o.replies, o.img_replies), (2, 1));
    db.delete_reply(1, r1).unwrap();
    let o = db.get_original(1, t).unwrap();
    assert_eq!((o.replies, o.img_replies), (1, 0));
}

#[test]
fn catalog_is_ordered_by_bump_time_descending() {
    let mut db = MemDatabase::new(test_site());
    db.create_board(board(1, "b", 100, 10, 1)).unwrap();
    let a = db.create_original(orig(1, "10.0.0.1", "a", 100)).unwrap();
    let b = db.create_original(orig(1, "10.0.0.1", "b", 300)).unwrap();
    let c = db.create_original(orig(1, "10.0.0.1", "c", 200)).unwrap();
    let catalog = db.get_catalog(1).unwrap();
    let nums: Vec<u64> = catalog.originals.iter().map(|o| o.post_num).collect();
    assert_eq!(nums, vec![b, c, a]);
}

#[test]
fn catalog_breaks_bump_ties_by_higher_post_number() {
    let mut db = MemDatabase::new(test_site());
    db.create_board(board(1, "b", 100, 10, 1)).unwrap();
    let a = db.create_original(orig(1, "10.0.0.1", "a", 100)).unwrap();
    let b = db.create_original(orig(1, "10.0.0.1", "b", 300)).unwrap();
    let c = db.create_original(orig(1, "10.0.0.1", "c", 200)).unwrap();
    let d = db.create_original(orig(1, "10.0.0.1", "d", 300)).unwrap();
    let catalog = db.get_catalog(1).unwrap();
    let nums: Vec<u64> = catalog.originals.iter().map(|o| o.post_num).collect();
    assert_eq!(nums, vec![d, b, c, a]);
}

#[test]
fn catalog_excludes_archived_threads() {
    let mut db = MemDatabase::new(test_site());
    db.create_board(board(1, "b", 100, 10, 1)).unwrap();
    let mut archived = orig(1, "10.0.0.1", "old", 50);
    archived.archived = true;
    db.create_original(archived).unwrap();
    let live = db.create_original(orig(1, "10.0.0.1", "live", 60)).unwrap();
    let catalog = db.get_catalog(1).unwrap();
    assert_eq!(catalog.originals.len(), 1);
    assert_eq!(catalog.originals[0].post_num, live);
}

#[test]
fn cascading_delete_removes_thread_and_replies() {
    let mut db = MemDatabase::new(test_site());
    let mut rack = MemFileRack::new();
    let actions = make_actions(&db);
    db.create_board(board(1, "b", 100, 10, 1)).unwrap();
    let t = db.create_original(orig(1, "10.0.0.1", "thread", 10)).unwrap();
    let r1 = db.create_reply(reply(1, t, "10.0.0.2", 11, None)).unwrap();
    let r2 = db.create_reply(reply(1, t, "10.0.0.2", 12, None)).unwrap();
    let r3 = db.create_reply(reply(1, t, "10.0.0.3", 13, None)).unwrap();
    rack.store_file("file", vec![0]).unwrap();
    actions.delete_thread(&mut db, &mut rack, 1, t).unwrap();
    assert!(db.get_thread(1, t).is_err());
    assert!(db.get_post(1, r1).is_err());
    assert!(db.get_post(1, r2).is_err());
    assert!(db.get_post(1, r3).is_err());
}

fn make_actions(db: &MemDatabase) -> plainchant::actions::Actions {
    plainchant::actions::Actions::new(db).unwrap()
}

#[test]
fn get_post_tells_originals_from_replies() {
    let mut db = MemDatabase::new(test_site());
    db.create_board(board(1, "b", 100, 10, 1)).unwrap();
    let t = db.create_original(orig(1, "10.0.0.1", "thread", 10)).unwrap();
    let r = db.create_reply(reply(1, t, "10.0.0.2", 11, None)).unwrap();
    assert!(matches!(db.get_post(1, t).unwrap(), AnyPost::Original(_)));
    assert!(matches!(db.get_post(1, r).unwrap(), AnyPost::Reply(_)));
    assert!(db.get_post(1, 999).is_err());
}

#[test]
fn lookups_of_missing_rows_fail() {
    let mut db = MemDatabase::new(test_site());
    assert!(db.get_board(1).is_err());
    assert!(db.create_original(orig(1, "10.0.0.1", "no board", 10)).is_err());
    db.create_board(board(1, "b", 100, 10, 1)).unwrap();
    assert!(db.get_original(1, 1).is_err());
    assert!(db.get_thread(1, 1).is_err());
    assert!(db.get_reply(1, 1).is_err());
    // a reply into a thread that does not exist is refused
    assert!(db.create_reply(reply(1, 42, "10.0.0.2", 11, None)).is_err());
    // a second board under an already used id is refused
    assert!(db.create_board(board(1, "c", 100, 10, 1)).is_err());
}

#[test]
fn site_record_can_be_read_and_replaced() {
    let mut db = MemDatabase::new(test_site());
    assert_eq!(db.get_site().unwrap().name, "testchan");
    let mut new_site = test_site();
    new_site.name = String::from("otherchan");
    db.set_site(new_site).unwrap();
    assert_eq!(db.get_site().unwrap().name, "otherchan");
}

#[test]
fn deleting_a_board_removes_its_posts() {
    let mut db = MemDatabase::new(test_site());
    db.create_board(board(1, "b", 100, 10, 1)).unwrap();
    db.create_board(board(2, "c", 100, 10, 1)).unwrap();
    let t1 = db.create_original(orig(1, "10.0.0.1", "on b", 10)).unwrap();
    let t2 = db.create_original(orig(2, "10.0.0.1", "on c", 10)).unwrap();
    db.create_reply(reply(1, t1, "10.0.0.2", 11, None)).unwrap();
    db.delete_board(1).unwrap();
    assert!(db.get_board(1).is_err());
    assert!(db.get_post(1, t1).is_err());
    assert!(db.get_original(2, t2).is_ok());
}

#[test]
fn bans_accumulate_and_delete_by_ip() {
    let mut db = MemDatabase::new(test_site());
    db.create_ban(Ban { id: 0, ip: String::from("10.0.0.1"), time_expires: 100 }).unwrap();
    db.create_ban(Ban { id: 0, ip: String::from("10.0.0.1"), time_expires: 50 }).unwrap();
    db.create_ban(Ban { id: 0, ip: String::from("10.0.0.2"), time_expires: 200 }).unwrap();
    assert_eq!(db.get_bans().unwrap().len(), 3);
    db.delete_bans("10.0.0.1").unwrap();
    let left = db.get_bans().unwrap();
    assert_eq!(left.len(), 1);
    assert_eq!(left[0].ip, "10.0.0.2");
}

#[test]
fn boards_listing_returns_all_rows() {
    let mut db = MemDatabase::new(test_site());
    db.create_board(board(1, "b", 100, 10, 1)).unwrap();
    db.create_board(board(2, "c", 100, 10, 1)).unwrap();
    let boards = db.get_boards().unwrap();
    assert_eq!(boards.len(), 2);
    assert_eq!(boards[0].url, "b");
    assert_eq!(boards[1].url, "c");
}

#[test]
fn posts_by_ip_finds_both_kinds() {
    let mut db = MemDatabase::new(test_site());
    db.create_board(board(1, "b", 100, 10, 1)).unwrap();
    let t = db.create_original(orig(1, "10.0.0.1", "thread", 10)).unwrap();
    db.create_reply(reply(1, t, "10.0.0.1", 11, None)).unwrap();
    db.create_reply(reply(1, t, "10.0.0.2", 12, None)).unwrap();
    assert_eq!(db.get_all_posts_by_ip("10.0.0.1").unwrap().len(), 2);
    assert_eq!(db.get_all_posts_by_ip("10.0.0.2").unwrap().len(), 1);
    assert_eq!(db.get_all_posts_by_ip("10.0.0.9").unwrap().len(), 0);
}

#[test]
fn next_post_num_counter_is_per_board() {
    let mut db = MemDatabase::new(test_site());
    db.create_board(board(1, "b", 100, 10, 1)).unwrap();
    db.create_board(board(2, "c", 100, 10, 50)).unwrap();
    let a = db.create_original(orig(1, "10.0.0.1", "a", 10)).unwrap();
    let b = db.create_original(orig(2, "10.0.0.1", "b", 10)).unwrap();
    let c = db.create_original(orig(1, "10.0.0.1", "c", 11)).unwrap();
    assert_eq!((a, b, c), (1, 50, 2));
}
