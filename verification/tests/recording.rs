use lscopy::hashing::{hash_bytes, hash_column};
use lscopy::imaging::encode_png;
use lscopy::store::{
    backfill_hashes, count_pinned_in_range, delete_between, delete_range, init_db, list_changed,
    local_utc_offset, prune, range_where, schema_statement, store_clip, store_remote, ClipKey, NewClip,
    SchemaStep, StoreStep,
};
use lscopy::watcher::{
    clipboard_image_native, read_clipboard, read_files, read_image, read_picture, read_text, Cand,
    ReadStep, Watch,
};

#[test]
fn databases_are_brought_up_to_date() {
    assert_eq!(init_db(true, true), vec![SchemaStep::IndexHash]);
    assert_eq!(
        init_db(false, false),
        vec![SchemaStep::AddPinned, SchemaStep::AddHash, SchemaStep::Backfill, SchemaStep::IndexHash]
    );
    assert_eq!(schema_statement(SchemaStep::AddHash), Some("ALTER TABLE clips ADD COLUMN hash INTEGER"));
    assert_eq!(schema_statement(SchemaStep::Backfill), None);
    assert!(schema_statement(SchemaStep::AddPinned).is_some());
    assert!(schema_statement(SchemaStep::IndexHash).is_some());
}

#[test]
fn clips_have_hashes() {
    let t = Some("abc".to_string());
    let b = Some(vec![1u8, 2]);
    assert_eq!(backfill_hashes(&t, &b), Some(hash_column(hash_bytes(b"abc"))));
    assert_eq!(backfill_hashes(&None, &b), Some(hash_column(hash_bytes(&[1, 2]))));
    assert_eq!(backfill_hashes(&None, &None), None);
}

fn clip(created_at: Option<i64>) -> NewClip {
    NewClip {
        kind: "text".to_string(),
        content: Some("x".to_string()),
        image: None,
        width: None,
        height: None,
        hash: 1,
        created_at,
        remote_device_id: None,
        remote_id: None,
    }
}

#[test]
fn nothing_is_stored_twice() {
    assert_eq!(store_clip(Some(7), &clip(None), 100), StoreStep::Touch(7, 100));
    assert_eq!(store_clip(None, &clip(None), 100), StoreStep::Insert(100));
    assert_eq!(store_clip(None, &clip(Some(5)), 100), StoreStep::Insert(5));
    assert!(list_changed(StoreStep::Touch(7, 100), false));
    assert!(list_changed(StoreStep::Insert(1), true));
    assert!(!list_changed(StoreStep::Insert(1), false));
    assert!(!store_remote(StoreStep::Touch(7, 100), true));
    assert!(store_remote(StoreStep::Insert(1), true));
    let key = |id: i64, pinned: i64, created_at: i64| ClipKey { id, pinned, created_at };
    let rows =
        vec![key(1, 0, 50), key(2, 1, 10), key(3, 0, 70), key(4, 0, 50), key(5, 0, 60)];
    assert!(prune(&rows, 0).is_empty());
    assert!(prune(&rows, -3).is_empty());
    assert!(prune(&rows, 4).is_empty());
    assert_eq!(prune(&rows, 3), vec![1]);
    assert_eq!(prune(&rows, 1), vec![5, 4, 1]);
    let gone = prune(&rows, 2);
    assert_eq!(gone, vec![4, 1]);
    let left: Vec<ClipKey> = rows.into_iter().filter(|k| !gone.contains(&k.id)).collect();
    assert!(prune(&left, 2).is_empty());
}

#[test]
fn ranges_have_conditions() {
    assert_eq!(range_where("1h", 10_000, 0), "created_at >= 6400");
    assert_eq!(range_where("7d", 1_000_000, 0), "created_at >= 395200");
    assert_eq!(range_where("30d", 0, 0), "created_at >= -2592000");
    assert_eq!(range_where("today", 200_000, 3600), "created_at >= 169200");
    assert_eq!(range_where("all", 5, 0), "1=1");
    // local midnight
    assert_eq!((169_200 + 3600) % 86400, 0);
    assert_eq!(count_pinned_in_range("all", 5, 0), "SELECT COUNT(*) FROM clips WHERE pinned = 1 AND 1=1");
    assert_eq!(
        delete_range("1h", 10_000, 0, false),
        "DELETE FROM clips WHERE created_at >= 6400 AND pinned = 0"
    );
    assert_eq!(delete_range("all", 0, 0, true), "DELETE FROM clips WHERE 1=1 AND 1=1");
    assert_eq!(
        delete_between(false),
        "DELETE FROM clips WHERE created_at BETWEEN ?1 AND ?2 AND pinned = 0"
    );
    assert_eq!(delete_between(true), "DELETE FROM clips WHERE created_at BETWEEN ?1 AND ?2 AND 1=1");
    assert_eq!(local_utc_offset(-480), 28800);
    assert_eq!(local_utc_offset(300), -18000);
}

#[test]
fn texts_come_first() {
    let files = Some(vec!["/a".to_string()]);
    match read_clipboard(&Some("hi\0\0".to_string()), Some((vec![1], 1, 1)), &files) {
        Some(Cand::Text(t, h)) => {
            assert_eq!(t, "hi");
            assert_eq!(h, hash_bytes(b"hi"));
        }
        _ => panic!("no text"),
    }
    match read_clipboard(&Some("\0".to_string()), Some((vec![1], 2, 3)), &files) {
        Some(Cand::Image(p, w, h, hash)) => {
            assert_eq!((p, w, h), (vec![1], 2, 3));
            assert_eq!(hash, hash_bytes(&[1]));
        }
        _ => panic!("no picture"),
    }
    let two = Some(vec!["/a".to_string(), "/b".to_string()]);
    match read_clipboard(&None, None, &two) {
        Some(Cand::File(t, h)) => {
            assert_eq!(t, "/a\n/b");
            assert_eq!(h, hash_bytes(b"/a\n/b"));
        }
        _ => panic!("no files"),
    }
    assert!(read_clipboard(&None, None, &None).is_none());
}

#[test]
fn large_pictures_hide_files() {
    let files = Some(vec!["/a".to_string()]);
    assert!(read_clipboard(&None, Some((vec![0; 20 * 1024 * 1024 + 1], 1, 1)), &files).is_none());
    assert!(matches!(read_picture(Some((vec![0; 20 * 1024 * 1024], 1, 1))), ReadStep::Found(_)));
    assert!(matches!(read_picture(Some((vec![0; 20 * 1024 * 1024 + 1], 1, 1))), ReadStep::Nothing));
    assert!(matches!(read_picture(None), ReadStep::Next));
    assert!(matches!(read_text(&None), ReadStep::Next));
    assert!(matches!(read_files(&None), ReadStep::Nothing));
}

#[test]
fn what_was_found_is_stored_as_its_kind() {
    let c = Cand::Text("t".to_string(), 1).clip();
    assert_eq!((c.kind.as_str(), c.content.as_deref(), c.hash), ("text", Some("t"), 1));
    let c = Cand::Image(vec![9], 2, 3, u64::MAX).clip();
    assert_eq!((c.kind.as_str(), c.width, c.height, c.hash), ("image", Some(2), Some(3), -1));
    assert_eq!(c.image, Some(vec![9]));
    let c = Cand::File("/a".to_string(), 4).clip();
    assert_eq!((c.kind.as_str(), c.content.as_deref()), ("file", Some("/a")));
    assert_eq!(Cand::File("/a".to_string(), 4).hash(), 4);
}

fn one_pixel_dib() -> Vec<u8> {
    let mut d = vec![0u8; 44];
    d[0] = 40;
    d[4] = 1;
    d[8] = 1;
    d[12] = 1;
    d[14] = 32;
    d[40..44].copy_from_slice(&[1, 2, 3, 255]);
    d
}

#[test]
fn pictures_are_read_in_any_form() {
    let (png, _, _) = encode_png(vec![3, 2, 1, 255], 1, 1).unwrap();
    let dib = Some(one_pixel_dib());
    assert_eq!(clipboard_image_native(Some(png.clone()), &None, &None, &None), Some((png.clone(), 1, 1)));
    assert_eq!(clipboard_image_native(None, &dib, &None, &None), Some((png.clone(), 1, 1)));
    assert_eq!(clipboard_image_native(Some(vec![0; 20]), &Some(vec![0; 50]), &dib, &None), Some((png.clone(), 1, 1)));
    assert_eq!(clipboard_image_native(None, &None, &None, &dib), Some((png.clone(), 1, 1)));
    assert_eq!(clipboard_image_native(None, &None, &None, &None), None);
    assert_eq!(read_image(Some((vec![3, 2, 1, 255], 1, 1)), None), Some((png, 1, 1)));
    assert_eq!(read_image(Some((vec![], 1, 1)), Some((vec![7], 1, 1))), Some((vec![7], 1, 1)));
    assert_eq!(read_image(None, None), None);
}

#[test]
fn new_content_is_recorded_once() {
    let mut w = Watch::new();
    assert!(w.observe(5, true, false));
    assert!(!w.observe(5, true, false));
    assert!(w.observe(6, true, false));
    assert!(w.observe(5, true, false));
}

#[test]
fn nothing_is_recorded_while_it_is_off() {
    let mut w = Watch::new();
    assert!(!w.observe(5, false, false));
    assert!(!w.observe(5, true, false));
    assert!(w.observe(6, true, false));
}

#[test]
fn nothing_of_excluded_programs_is_recorded() {
    let mut w = Watch::new();
    assert!(!w.observe(5, true, true));
    assert!(!w.observe(5, true, false));
    assert!(!w.observe(6, false, false));
    assert!(!w.observe(5, true, false));
    // something else is recorded: nothing is left alone any more
    assert!(w.observe(7, true, false));
    assert!(w.ignored.is_empty());
    assert!(w.observe(5, true, false));
}

#[test]
fn deleted_content_does_not_come_back() {
    let mut w = Watch::new();
    w.ignore_current_clipboard(Some(5));
    assert_eq!(w.last_seen, 5);
    assert!(!w.observe(5, true, false));
    w.ignore_current_clipboard(None);
    assert_eq!(w.ignored, vec![5]);
}

#[test]
fn the_list_of_what_is_left_alone_is_short() {
    let mut w = Watch::new();
    for h in 1..=64 {
        w.push_ignored(h);
    }
    w.push_ignored(10);
    assert_eq!(w.ignored.len(), 64);
    w.push_ignored(65);
    assert_eq!(w.ignored.len(), 64);
    assert_eq!(w.ignored[0], 2);
    assert_eq!(w.ignored[63], 65);
}
