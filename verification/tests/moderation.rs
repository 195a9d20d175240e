use plainchant::actions::Actions;
use plainchant::format::display_feather;
use plainchant::db::Database;
use plainchant::fr::MemFileRack;
use plainchant::memdb::MemDatabase;
use plainchant::site::{Ban, Board, Feather, Original, Reply, Site};

fn empty_db() -> MemDatabase {
    MemDatabase::new(Site {
        name: String::from("testchan"),
        description: String::from("a board for tests"),
        contact: None,
        url: None,
    })
}

fn board(id: u64, url: &str) -> Board {
    Board {
        id,
        url: String::from(url),
        title: String::from("Test Board"),
        post_cap: 100,
        bump_limit: 10,
        next_post_num: 1,
    }
}

fn orig(board_id: u64, ip: &str, body: &str, bump_time: u64) -> Original {
    Original {
        board_id,
        post_num: 0,
        time: bump_time,
        ip: String::from(ip),
        poster: None,
        body: String::from(body),
        feather: Feather::Anonymous,
        file_id: Some(String::from("file")),
        file_name: Some(String::from("file.png")),
        title: None,
        bump_time,
        replies: 0,
        img_replies: 0,
        pinned: false,
        archived: false,
    }
}

fn reply(board_id: u64, orig_num: u64, ip: &str, time: u64) -> Reply {
    Reply {
        board_id,
        post_num: 0,
        time,
        ip: String::from(ip),
        poster: None,
        body: String::from("a reply"),
        feather: Feather::Anonymous,
        file_id: None,
        file_name: None,
        orig_num,
    }
}

#[test]
fn ban_then_unban_then_reban_is_coherent() {
    let mut db = empty_db();
    let mut actions = Actions::new(&db).unwrap();
    actions.ban_ip_at(&mut db, "10.0.0.1", 100, 50).unwrap();
    assert!(actions.is_banned("10.0.0.1", 50).unwrap());
    assert!(actions.is_banned("10.0.0.1", 149).unwrap());
    assert!(!actions.is_banned("10.0.0.1", 150).unwrap());
    assert!(!actions.is_banned("10.0.0.2", 50).unwrap());
    actions.unban_ip(&mut db, "10.0.0.1").unwrap();
    assert!(!actions.is_banned("10.0.0.1", 50).unwrap());
    assert!(db.get_bans().unwrap().is_empty());
    // the new ban alone governs: the old expiry of 150 is gone
    actions.ban_ip_at(&mut db, "10.0.0.1", 10, 60).unwrap();
    assert!(actions.is_banned("10.0.0.1", 65).unwrap());
    assert!(!actions.is_banned("10.0.0.1", 75).unwrap());
}

#[test]
fn ban_extends_to_the_larger_expiry() {
    let mut db = empty_db();
    let mut actions = Actions::new(&db).unwrap();
    actions.ban_ip_at(&mut db, "10.0.0.1", 100, 0).unwrap();
    // a shorter second ban must not shrink the cached expiry
    actions.ban_ip_at(&mut db, "10.0.0.1", 10, 1).unwrap();
    assert!(actions.is_banned("10.0.0.1", 99).unwrap());
    assert_eq!(db.get_bans().unwrap().len(), 2);
}

#[test]
fn cache_built_from_store_keeps_maximum_expiry() {
    let mut db = empty_db();
    db.create_ban(Ban { id: 0, ip: String::from("10.0.0.1"), time_expires: 50 }).unwrap();
    db.create_ban(Ban { id: 0, ip: String::from("10.0.0.1"), time_expires: 100 }).unwrap();
    db.create_ban(Ban { id: 0, ip: String::from("10.0.0.2"), time_expires: 200 }).unwrap();
    let actions = Actions::new(&db).unwrap();
    assert!(actions.is_banned("10.0.0.1", 99).unwrap());
    assert!(!actions.is_banned("10.0.0.1", 100).unwrap());
    assert!(actions.is_banned("10.0.0.2", 199).unwrap());
}

#[test]
fn board_url_resolves_to_id() {
    let mut db = empty_db();
    db.create_board(board(3, "tech")).unwrap();
    db.create_board(board(9, "music")).unwrap();
    let actions = Actions::new(&db).unwrap();
    assert_eq!(actions.board_url_to_id("tech").unwrap(), 3);
    assert_eq!(actions.board_url_to_id("music").unwrap(), 9);
    assert!(actions.board_url_to_id("cooking").is_err());
}

#[test]
fn bulk_wipe_reports_total_despite_cascaded_deletions() {
    let mut db = empty_db();
    let mut rack = MemFileRack::new();
    let actions = Actions::new(&db).unwrap();
    db.create_board(board(1, "b")).unwrap();
    let t1 = db.create_original(orig(1, "10.0.0.7", "thread by the ip", 10)).unwrap();
    // this reply is cascade-deleted together with its parent before the
    // wipe reaches it individually; the failure is swallowed
    let r1 = db.create_reply(reply(1, t1, "10.0.0.7", 11)).unwrap();
    let t2 = db.create_original(orig(1, "10.0.0.9", "thread by another", 12)).unwrap();
    let r2 = db.create_reply(reply(1, t2, "10.0.0.7", 13)).unwrap();
    let count = actions.delete_all_posts_by_ip(&mut db, &mut rack, String::from("10.0.0.7")).unwrap();
    assert_eq!(count, 3);
    assert!(db.get_post(1, t1).is_err());
    assert!(db.get_post(1, r1).is_err());
    assert!(db.get_post(1, r2).is_err());
    assert!(db.get_post(1, t2).is_ok());
    assert_eq!(db.get_original(1, t2).unwrap().replies, 0);
}

#[test]
fn string_equality_follows_contents() {
    assert!(plainchant::util::str_eq("10.0.0.1", "10.0.0.1"));
    assert!(!plainchant::util::str_eq("10.0.0.1", "10.0.0.2"));
    assert!(!plainchant::util::str_eq("10.0.0.1", "10.0.0.10"));
    assert!(plainchant::util::str_eq("", ""));
}

#[test]
fn flat_file_counter_hands_out_and_advances() {
    let mut fsdb = plainchant::fsdb::FSDatabase::from_parts(
        String::from("/tmp/boards"),
        vec![
            (1, String::from("b"), String::from("Board B"), 5),
            (2, String::from("c"), String::from("Board C"), 9),
        ],
    );
    assert_eq!(fsdb.use_next_post_num(1).unwrap(), 5);
    assert_eq!(fsdb.use_next_post_num(1).unwrap(), 6);
    assert_eq!(fsdb.use_next_post_num(2).unwrap(), 9);
    assert!(fsdb.use_next_post_num(3).is_err());
}

#[test]
fn feather_labels_render() {
    assert_eq!(display_feather(&Feather::Anonymous), "");
    assert_eq!(display_feather(&Feather::Trip(String::from("abc123"))), "# abc123");
    assert_eq!(display_feather(&Feather::Moderator), "(Moderator)");
    assert_eq!(display_feather(&Feather::Admin), "(Admin)");
}
