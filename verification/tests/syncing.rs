use lscopy::client::{fetch_clips, LanErr};
use lscopy::hashing::{hash_bytes, hash_column};
use lscopy::imaging::encode_png;
use lscopy::lan::{BlockedInfo, Discovered, LanDevice, LanSettings, LanShared, Platform};
use lscopy::server::{clips_reply, ClipRow};
use lscopy::sync::{
    files_dir, import_clip, import_file, lan_sync_now, sanitize_ext, sync_device, sync_device_inner,
    sync_failed, sync_over, FileStep, ImportStep, SyncResult,
};

fn shared() -> LanShared {
    let mut s = LanSettings::default();
    s.device_id = "me".to_string();
    LanShared::new("f".to_string(), s, 20_000)
}

fn device(host: Option<&str>, token: Option<&str>) -> LanDevice {
    let mut d = LanDevice::default();
    d.device_id = "you".to_string();
    d.host = host.map(|h| h.to_string());
    d.token = token.map(|t| t.to_string());
    d
}

#[test]
fn devices_are_synchronised_when_they_can_be() {
    let mut s = shared();
    assert!(matches!(sync_device(&mut s, "you"), Err(LanErr::NeedPairing)));
    s.settings.paired.insert("you".to_string(), device(Some("a"), None));
    assert!(matches!(sync_device(&mut s, "you"), Err(LanErr::NeedPairing)));
    s.settings.paired.insert("you".to_string(), device(None, Some("t")));
    assert!(matches!(sync_device(&mut s, "you"), Err(LanErr::Net(_))));
    assert!(!s.syncing.contains("you"));
    s.discovered.insert("you".to_string(), Discovered { device: device(Some("b"), None), last_seen: 1 });
    s.settings.last_sync.insert("you".to_string(), 55);
    let (d, since) = sync_device(&mut s, "you").unwrap();
    assert_eq!((d.host, d.token, since), (Some("b".to_string()), Some("t".to_string()), 55));
    assert!(s.syncing.contains("you"));
    sync_over(&mut s, "you");
    assert!(!s.syncing.contains("you"));
    s.settings.blocked.insert("you".to_string(), BlockedInfo::default());
    assert!(matches!(sync_device(&mut s, "you"), Err(LanErr::Blocked(None))));
}

#[test]
fn ended_pairings_are_ended_here_too() {
    let mut s = shared().settings;
    s.paired.insert("you".to_string(), device(None, None));
    assert!(!sync_failed(&mut s, "you", &LanErr::NeedPairing));
    assert!(s.paired.contains_key("you"));
    assert!(sync_failed(&mut s, "you", &LanErr::Unpaired));
    assert!(!s.paired.contains_key("you"));
}

#[test]
fn the_newest_clip_is_remembered() {
    let mut s = shared().settings;
    let docs = vec![b"{\"timestamp\":70}".to_vec(), b"{\"timestamp\":90}".to_vec(), b"{}".to_vec()];
    let r = sync_device_inner(&mut s, "you", 10, &docs, &vec![true, false, true]);
    assert_eq!((r.added, r.skipped), (2, 1));
    assert_eq!(s.last_sync.get("you"), Some(&90));
    let r = sync_device_inner(&mut s, "you", 95, &docs, &vec![false, false, false]);
    assert_eq!((r.added, r.skipped), (0, 3));
    assert_eq!(s.last_sync.get("you"), Some(&95));
    assert_eq!(lan_sync_now(SyncResult { added: 3, skipped: 4 }), "同步完成：新增 3 条，跳过 4 条");
}

#[test]
fn fetched_clips_do_not_go_back() {
    let doc = "{\"type\":0,\"text\":\"a\",\"timestamp\":5000,\"remoteDeviceId\":\"you\",\"remoteId\":4}";
    let ImportStep::Store(c) = import_clip(doc.as_bytes(), "me") else {
        panic!("not stored");
    };
    let rows = vec![ClipRow {
        id: 1,
        kind: c.kind,
        content: c.content,
        image_len: None,
        created_at: 5,
        remote_device_id: c.remote_device_id,
        remote_id: c.remote_id,
    }];
    assert_eq!(clips_reply(&rows, "you", "me").body, "[]");
    assert!(clips_reply(&rows, "third", "me").body.contains("\"you\""));
}

#[test]
fn texts_are_taken() {
    let doc = "{\"type\":0,\"text\":\"héllo\",\"timestamp\":5999,\"remoteDeviceId\":\"you\",\"remoteId\":4}";
    match import_clip(doc.as_bytes(), "me") {
        ImportStep::Store(c) => {
            assert_eq!(c.kind, "text");
            assert_eq!(c.content, Some("héllo".to_string()));
            assert_eq!(c.hash, hash_column(hash_bytes("héllo".as_bytes())));
            assert_eq!(c.created_at, Some(5));
            assert_eq!(c.remote_device_id, Some("you".to_string()));
            assert_eq!(c.remote_id, Some(4));
        }
        _ => panic!("not stored"),
    }
    match import_clip(b"{\"text\":\"x\",\"timestamp\":-5,\"remoteDeviceId\":null}", "me") {
        ImportStep::Store(c) => {
            assert_eq!(c.created_at, Some(0));
            assert_eq!(c.remote_device_id, None);
            assert_eq!(c.remote_id, None);
        }
        _ => panic!("not stored"),
    }
}

#[test]
fn own_and_empty_clips_are_left() {
    assert!(matches!(import_clip(b"{\"text\":\"x\",\"remoteDeviceId\":\"me\"}", "me"), ImportStep::Skip));
    assert!(matches!(import_clip(b"{\"text\":\"\"}", "me"), ImportStep::Skip));
    assert!(matches!(import_clip(b"{}", "me"), ImportStep::Skip));
}

#[test]
fn files_are_fetched_first() {
    let doc = b"{\"type\":2,\"id\":9,\"fileName\":\"a.txt\",\"fileSize\":104857600}";
    assert!(matches!(import_clip(doc, "me"), ImportStep::Fetch(9)));
    let large = b"{\"type\":2,\"id\":9,\"fileName\":\"a.txt\",\"fileSize\":104857601}";
    assert!(matches!(import_clip(large, "me"), ImportStep::Skip));
    assert!(matches!(import_clip(b"{\"type\":1,\"id\":9}", "me"), ImportStep::Skip));
    assert!(matches!(import_clip(b"{\"type\":1,\"fileName\":\"a\"}", "me"), ImportStep::Skip));
}

#[test]
fn what_is_offered_arrives() {
    let row = ClipRow {
        id: 3,
        kind: "text".to_string(),
        content: Some("hello".to_string()),
        image_len: None,
        created_at: 1234,
        remote_device_id: None,
        remote_id: None,
    };
    let r = clips_reply(&vec![row], "me", "you");
    let docs = lscopy::client::fetch_clips(200, r.body.as_bytes()).unwrap();
    match import_clip(&docs[0], "me") {
        ImportStep::Store(c) => {
            assert_eq!(c.content, Some("hello".to_string()));
            assert_eq!(c.created_at, Some(1234));
            assert_eq!(c.remote_device_id, Some("you".to_string()));
            assert_eq!(c.remote_id, Some(3));
        }
        _ => panic!("not stored"),
    }
}

#[test]
fn offered_pictures_arrive() {
    let (png, _, _) = encode_png(vec![9; 4 * 6], 3, 2).unwrap();
    let rows = vec![ClipRow {
        id: 12,
        kind: "image".to_string(),
        content: None,
        image_len: Some(png.len() as i64),
        created_at: 77,
        remote_device_id: None,
        remote_id: None,
    }];
    let docs = fetch_clips(200, clips_reply(&rows, "me", "you").body.as_bytes()).unwrap();
    assert_eq!(docs.len(), 1);
    assert!(matches!(import_clip(&docs[0], "me"), ImportStep::Fetch(12)));
    match import_file(&docs[0], &png, "/d", Platform::Other) {
        FileStep::Store(c) => {
            assert_eq!((c.kind.as_str(), c.width, c.height), ("image", Some(3), Some(2)));
            assert_eq!((c.created_at, c.remote_id), (Some(77), Some(12)));
            assert_eq!(c.remote_device_id, Some("you".to_string()));
        }
        _ => panic!("not stored"),
    }
    assert!(matches!(import_file(&docs[0], &png[1..], "/d", Platform::Other), FileStep::Skip));
}

#[test]
fn endings_are_made_harmless() {
    assert_eq!(sanitize_ext("TXT"), "txt");
    assert_eq!(sanitize_ext("../a b"), "ab");
    assert_eq!(sanitize_ext("abcdefghijKLM"), "abcdefghij");
    assert_eq!(sanitize_ext("é"), "");
}

#[test]
fn fetched_files_are_kept() {
    let doc = b"{\"type\":2,\"id\":9,\"fileName\":\"../x.PDF\",\"fileSize\":3,\"timestamp\":1700,\"remoteId\":1}";
    match import_file(doc, b"abc", "/d", Platform::Other) {
        FileStep::Write(path, c) => {
            assert_eq!(path, "/d/1700_lan.pdf");
            assert_eq!(c.kind, "file");
            assert_eq!(c.content, Some(path));
            assert_eq!(c.hash, hash_column(hash_bytes(b"abc")));
            assert_eq!(c.created_at, Some(1));
        }
        _ => panic!("not kept"),
    }
    assert!(matches!(import_file(doc, b"abcd", "/d", Platform::Other), FileStep::Skip));
    assert!(matches!(import_file(doc, b"", "/d", Platform::Other), FileStep::Skip));
    match import_file(b"{\"type\":3,\"fileName\":\"x\"}", b"abcd", "/d", Platform::Other) {
        FileStep::Write(path, _) => assert_eq!(path, "/d/0_lan.bin"),
        _ => panic!("not kept"),
    }
    assert_eq!(files_dir(&Some("/db".to_string()), "/exe", Platform::Mac), "/db/lan-files");
    assert_eq!(files_dir(&None, "/exe", Platform::Mac), "/exe/lan-files");
}

#[test]
fn fetched_pictures_become_png() {
    let (png, _, _) = encode_png(vec![1, 2, 3, 255], 1, 1).unwrap();
    match import_file(b"{\"type\":1,\"fileName\":\"x.png\"}", &png, "/d", Platform::Other) {
        FileStep::Store(c) => {
            assert_eq!(c.kind, "image");
            assert_eq!((c.width, c.height), (Some(1), Some(1)));
            assert_eq!(c.hash, hash_column(hash_bytes(&c.image.unwrap())));
        }
        _ => panic!("not stored"),
    }
    assert!(matches!(import_file(b"{\"type\":1,\"fileName\":\"x\"}", b"junk", "/d", Platform::Other), FileStep::Skip));
}
