use plainchant::actions::{Actions, SubmissionResult};
use plainchant::db::Database;
use plainchant::fr::{FileRack, MemFileRack};
use plainchant::memdb::MemDatabase;
use plainchant::site::{Board, Feather, Site};

fn empty_db() -> MemDatabase {
    MemDatabase::new(Site {
        name: String::from("testchan"),
        description: String::from("a board for tests"),
        contact: None,
        url: None,
    })
}

fn board(id: u64, post_cap: u16, bump_limit: u16) -> Board {
    Board {
        id,
        url: String::from("b"),
        title: String::from("Test Board"),
        post_cap,
        bump_limit,
        next_post_num: 1,
    }
}

fn submit_orig(
    actions: &mut Actions,
    db: &mut MemDatabase,
    rack: &mut MemFileRack,
    ip: &str,
    body: &str,
    trip: Option<&str>,
    now: u64,
) -> SubmissionResult {
    actions
        .submit_original_at(
            db,
            rack,
            1,
            String::from(ip),
            String::from(body),
            None,
            trip.map(String::from),
            String::from("file-id"),
            String::from("file.png"),
            Some(String::from("a title")),
            now,
        )
        .unwrap()
}

#[test]
fn cooldown_gates_repeated_thread_submissions() {
    let mut db = empty_db();
    let mut rack = MemFileRack::new();
    db.create_board(board(1, 100, 10)).unwrap();
    let mut actions = Actions::new(&db).unwrap();
    let first = submit_orig(&mut actions, &mut db, &mut rack, "10.0.0.1", "first thread", None, 0);
    assert!(matches!(first, SubmissionResult::Success(_)));
    let second = submit_orig(&mut actions, &mut db, &mut rack, "10.0.0.1", "second thread", None, 1);
    assert!(matches!(second, SubmissionResult::Cooldown));
    // another ip is not gated
    let other = submit_orig(&mut actions, &mut db, &mut rack, "10.0.0.2", "other thread", None, 1);
    assert!(matches!(other, SubmissionResult::Success(_)));
    // after the 600 second window the first ip may post again
    let third = submit_orig(&mut actions, &mut db, &mut rack, "10.0.0.1", "third thread", None, 600);
    assert!(matches!(third, SubmissionResult::Success(_)));
}

#[test]
fn banned_ips_may_not_submit() {
    let mut db = empty_db();
    let mut rack = MemFileRack::new();
    db.create_board(board(1, 100, 10)).unwrap();
    let mut actions = Actions::new(&db).unwrap();
    actions.ban_ip_at(&mut db, "10.0.0.1", 100, 0).unwrap();
    let r = submit_orig(&mut actions, &mut db, &mut rack, "10.0.0.1", "while banned", None, 50);
    assert!(matches!(r, SubmissionResult::Banned));
    // the ban leaves no trace in the store's posts
    assert!(db.get_catalog(1).unwrap().originals.is_empty());
    // once expired, the ban no longer gates
    let r = submit_orig(&mut actions, &mut db, &mut rack, "10.0.0.1", "after expiry", None, 101);
    assert!(matches!(r, SubmissionResult::Success(_)));
}

#[test]
fn blank_threads_are_refused() {
    let mut db = empty_db();
    let mut rack = MemFileRack::new();
    db.create_board(board(1, 100, 10)).unwrap();
    let mut actions = Actions::new(&db).unwrap();
    let r = actions
        .submit_original_at(
            &mut db,
            &mut rack,
            1,
            String::from("10.0.0.1"),
            String::from(" \t\n "),
            None,
            None,
            String::from("file-id"),
            String::from("file.png"),
            None,
            0,
        )
        .unwrap();
    assert!(matches!(r, SubmissionResult::MayNotBeEmpty));
    // a blank body under a real title is accepted
    let r = actions
        .submit_original_at(
            &mut db,
            &mut rack,
            1,
            String::from("10.0.0.1"),
            String::from(" "),
            None,
            None,
            String::from("file-id"),
            String::from("file.png"),
            Some(String::from("a title")),
            0,
        )
        .unwrap();
    assert!(matches!(r, SubmissionResult::Success(_)));
}

#[test]
fn file_only_replies_are_valid() {
    let mut db = empty_db();
    let mut rack = MemFileRack::new();
    db.create_board(board(1, 100, 10)).unwrap();
    let mut actions = Actions::new(&db).unwrap();
    let t = match submit_orig(&mut actions, &mut db, &mut rack, "10.0.0.1", "thread", None, 0) {
        SubmissionResult::Success(n) => n,
        _ => panic!("thread submission failed"),
    };
    // no file and a blank body: refused
    let r = actions
        .submit_reply_at(
            &mut db,
            1,
            String::from("10.0.0.2"),
            String::from("  "),
            None,
            None,
            None,
            None,
            t,
            1,
        )
        .unwrap();
    assert!(matches!(r, SubmissionResult::MayNotBeEmpty));
    // a file with a blank body: accepted
    let r = actions
        .submit_reply_at(
            &mut db,
            1,
            String::from("10.0.0.2"),
            String::from("  "),
            None,
            None,
            Some(String::from("pic")),
            Some(String::from("pic.png")),
            t,
            1,
        )
        .unwrap();
    assert!(matches!(r, SubmissionResult::Success(_)));
    let o = db.get_original(1, t).unwrap();
    assert_eq!((o.replies, o.img_replies), (1, 1));
}

#[test]
fn reply_cooldown_is_shorter_and_separate() {
    let mut db = empty_db();
    let mut rack = MemFileRack::new();
    db.create_board(board(1, 100, 10)).unwrap();
    let mut actions = Actions::new(&db).unwrap();
    let t = match submit_orig(&mut actions, &mut db, &mut rack, "10.0.0.1", "thread", None, 0) {
        SubmissionResult::Success(n) => n,
        _ => panic!("thread submission failed"),
    };
    let submit_reply = |actions: &mut Actions, db: &mut MemDatabase, now: u64| {
        actions
            .submit_reply_at(
                db,
                1,
                String::from("10.0.0.2"),
                String::from("bump"),
                None,
                None,
                None,
                None,
                t,
                now,
            )
            .unwrap()
    };
    assert!(matches!(submit_reply(&mut actions, &mut db, 1), SubmissionResult::Success(_)));
    assert!(matches!(submit_reply(&mut actions, &mut db, 10), SubmissionResult::Cooldown));
    assert!(matches!(submit_reply(&mut actions, &mut db, 16), SubmissionResult::Success(_)));
}

#[test]
fn tripcode_is_the_truncated_digest() {
    let mut db = empty_db();
    let mut rack = MemFileRack::new();
    db.create_board(board(1, 100, 10)).unwrap();
    let mut actions = Actions::new(&db).unwrap();
    let t = match submit_orig(&mut actions, &mut db, &mut rack, "10.0.0.1", "signed thread", Some("abc"), 0) {
        SubmissionResult::Success(n) => n,
        _ => panic!("thread submission failed"),
    };
    let o = db.get_original(1, t).unwrap();
    // sha256("abc") begins ba7816bf8f01...; the tripcode keeps ten characters
    match o.feather {
        Feather::Trip(code) => assert_eq!(code, "ba7816bf8f"),
        _ => panic!("expected a tripcode feather"),
    }
}

#[test]
fn post_cap_evicts_the_oldest_bumped_thread() {
    let mut db = empty_db();
    let mut rack = MemFileRack::new();
    db.create_board(board(1, 2, 10)).unwrap();
    let mut actions = Actions::new(&db).unwrap();
    let t1 = match submit_orig(&mut actions, &mut db, &mut rack, "10.0.0.1", "oldest", None, 10) {
        SubmissionResult::Success(n) => n,
        _ => panic!("thread submission failed"),
    };
    let t2 = match submit_orig(&mut actions, &mut db, &mut rack, "10.0.0.2", "middle", None, 20) {
        SubmissionResult::Success(n) => n,
        _ => panic!("thread submission failed"),
    };
    // the third submission itself evicts the oldest thread, so its file
    // must already be in the rack
    rack.store_file("file-id", vec![0]).unwrap();
    let t3 = match submit_orig(&mut actions, &mut db, &mut rack, "10.0.0.3", "newest", None, 30) {
        SubmissionResult::Success(n) => n,
        _ => panic!("thread submission failed"),
    };
    // the pipeline itself evicted the oldest thread and released its file
    assert!(db.get_thread(1, t1).is_err());
    assert!(rack.get_file("file-id").is_err());
    // a second enforcement finds the board within its cap and changes nothing
    actions.enforce_post_cap(&mut db, &mut rack, 1).unwrap();
    assert!(db.get_thread(1, t1).is_err());
    assert!(db.get_thread(1, t2).is_ok());
    assert!(db.get_thread(1, t3).is_ok());
    assert_eq!(db.get_catalog(1).unwrap().originals.len(), 2);
}

#[test]
fn submission_to_a_missing_board_fails_without_side_effects() {
    let mut db = empty_db();
    let mut rack = MemFileRack::new();
    let mut actions = Actions::new(&db).unwrap();
    let r = actions.submit_original_at(
        &mut db,
        &mut rack,
        42,
        String::from("10.0.0.1"),
        String::from("body"),
        None,
        None,
        String::from("file-id"),
        String::from("file.png"),
        None,
        0,
    );
    assert!(r.is_err());
    // the failed write must not have started a cooldown
    db.create_board(board(42, 100, 10)).unwrap();
    let r = actions
        .submit_original_at(
            &mut db,
            &mut rack,
            42,
            String::from("10.0.0.1"),
            String::from("body"),
            None,
            None,
            String::from("file-id"),
            String::from("file.png"),
            None,
            1,
        )
        .unwrap();
    assert!(matches!(r, SubmissionResult::Success(_)));
}

#[test]
fn deleting_a_thread_releases_its_files() {
    let mut db = empty_db();
    let mut rack = MemFileRack::new();
    db.create_board(board(1, 100, 10)).unwrap();
    let mut actions = Actions::new(&db).unwrap();
    rack.store_file("file-id", vec![1, 2, 3]).unwrap();
    let t = match submit_orig(&mut actions, &mut db, &mut rack, "10.0.0.1", "thread", None, 0) {
        SubmissionResult::Success(n) => n,
        _ => panic!("thread submission failed"),
    };
    assert!(rack.get_file("file-id").is_ok());
    actions.delete_thread(&mut db, &mut rack, 1, t).unwrap();
    assert!(rack.get_file("file-id").is_err());
    assert!(db.get_thread(1, t).is_err());
}

#[test]
fn stored_files_round_trip_until_deleted() {
    let mut rack = MemFileRack::new();
    rack.store_file("a", vec![9, 8, 7]).unwrap();
    assert_eq!(rack.get_file("a").unwrap(), vec![9, 8, 7]);
    assert_eq!(rack.get_file_thumbnail("a").unwrap(), vec![9, 8, 7]);
    assert!(rack.get_file("b").is_err());
    rack.delete_file("a").unwrap();
    assert!(rack.get_file("a").is_err());
    assert!(rack.delete_file("a").is_err());
}
