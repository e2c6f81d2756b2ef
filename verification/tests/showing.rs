use lscopy::clips::{
    bad_import, category_of, clip_of_row, export_clips, file_missing, first_url, get_clip_image,
    import_clips, import_counted, import_wanted, list_clips, list_system_fonts,
    list_rows, open_clip_with_system, set_clipboard_by_id, ExportClip, ListRow, OpenPlan,
    Payload,
};
use lscopy::config::{
    apply_autostart, config_file, db_moved, effective_db_path, foreground_exe_name, is_excluded,
    keep_size, load_config, restored_size, retention_cutoff, save_config, set_recording_enabled,
    starts_recording, tooltip, AppConfig, AutostartStep,
};
use lscopy::hashing::{hash_bytes, hash_column};
use lscopy::hotkey::{
    code_from_name, hotkey_refused, parse_hotkey, register_hotkey, Hotkey, KeyCode,
};
use lscopy::imaging::encode_png;
use lscopy::lan::Platform;
use lscopy::panel::{
    icon_calls_panel, menu_step, takes_over, toggle_window, DragStep, DragWait, MenuStep, Panel,
    PanelStep, PasteQueue,
};

fn some(t: &str) -> Option<String> {
    Some(t.to_string())
}

#[test]
fn clips_have_categories() {
    assert_eq!(category_of("text", &some("a.mp4")), "text");
    assert_eq!(category_of("image", &None), "image");
    assert_eq!(category_of("file", &some("\r\n  \nC:\\x\\film.MKV\nb.txt")), "video");
    assert_eq!(category_of("file", &some("/x.y/report.docx")), "office");
    assert_eq!(category_of("file", &some("/x.mp4/report")), "file");
    assert_eq!(category_of("file", &None), "file");
    assert_eq!(category_of("other", &some("a.mp4")), "file");
    for e in ["mp4", "mkv", "avi", "mov", "wmv", "flv", "webm", "m4v", "mpg", "mpeg", "ts", "m2ts", "rmvb", "rm", "3gp", "f4v", "vob"] {
        assert_eq!(category_of("file", &some(&format!("a.{e}"))), "video");
    }
    for e in ["txt", "doc", "docx", "xls", "xlsx", "ppt", "pptx", "csv", "pdf", "md", "rtf", "wps", "et", "dps", "odt", "ods", "odp"] {
        assert_eq!(category_of("file", &some(&format!("a.{e}"))), "office");
    }
}

#[test]
fn addresses_are_found() {
    assert_eq!(first_url("see https://a.bc/d?e=f. Then http://x.y"), some("https://a.bc/d?e=f"));
    assert_eq!(first_url("http://x.yz then https://a.bc"), some("http://x.yz"));
    assert_eq!(first_url("（https://例子.中国/路）"), some("https://例子.中国/路"));
    assert_eq!(first_url("<a href=\"http://a.bc/x\">"), some("http://a.bc/x"));
    assert_eq!(first_url("http://a"), None);
    assert_eq!(first_url("http://ab"), some("http://ab"));
    assert_eq!(first_url("https://。，"), None);
    assert_eq!(first_url("nothing"), None);
}

#[test]
fn clips_are_shown_in_few_words() {
    let c = clip_of_row(1, "image".to_string(), None, Some(3), None, 0, 9);
    assert_eq!(c.preview, "[图片 3x0]");
    assert!(!c.pinned && c.image_b64.is_none() && c.url.is_none());
    let c = clip_of_row(1, "file".to_string(), some("C:\\a\\b.txt\n\n/c"), None, None, 1, 9);
    assert_eq!(c.preview, "📄 b.txt 等 2 个文件");
    assert_eq!(c.category, "office");
    assert!(c.pinned);
    let c = clip_of_row(1, "file".to_string(), None, None, None, 1, 9);
    assert_eq!(c.preview, "📄 文件");
    let c = clip_of_row(1, "file".to_string(), some("/a/b"), None, None, 1, 9);
    assert_eq!(c.preview, "📄 b");
    let c = clip_of_row(1, "text".to_string(), some(&"电".repeat(301)), None, None, 0, 9);
    assert_eq!(c.preview, "电".repeat(300));
    let c = clip_of_row(1, "text".to_string(), some("x http://a.bc y"), None, None, 0, 9);
    assert_eq!(c.preview, "x http://a.bc y");
    assert_eq!(c.url, some("http://a.bc"));
    assert_eq!((c.id, c.kind.as_str(), c.created_at), (1, "text", 9));
}

#[test]
fn clips_are_looked_up() {
    let (sql, p) = list_clips(&some(" ab "));
    assert!(sql.contains("LIKE ?1") && sql.ends_with("LIMIT 500"));
    assert_eq!(p, some("%ab%"));
    let (sql, p) = list_clips(&some("  "));
    assert!(!sql.contains("LIKE"));
    assert_eq!(p, None);
    assert_eq!(list_clips(&None).0, sql);
}

#[test]
fn clips_are_listed_in_order() {
    let row = |id: i64, pinned: i64, created_at: i64| ListRow {
        id,
        kind: "image".to_string(),
        content: None,
        width: Some(3),
        height: Some(4),
        pinned,
        created_at,
    };
    let rows = vec![row(1, 0, 5), row(2, 1, 1), row(3, 0, 9), row(4, 1, 7), row(5, 0, 9)];
    let list = list_rows(&rows);
    let ids: Vec<i64> = list.iter().map(|c| c.id).collect();
    assert_eq!(ids, vec![4, 2, 3, 5, 1]);
    assert!(list.iter().all(|c| c.image_b64.is_none() && c.preview == "[图片 3x4]"));
    let many: Vec<ListRow> = (0..600).map(|i| row(i, 0, i)).collect();
    let list = list_rows(&many);
    assert_eq!((list.len(), list[0].id, list[499].id), (500, 599, 100));
}

#[test]
fn pictures_are_shown_as_text() {
    assert_eq!(get_clip_image(&Some(vec![1, 2, 3, 4])), some("AQIDBA=="));
    assert_eq!(get_clip_image(&Some(vec![])), some(""));
    assert_eq!(get_clip_image(&None), None);
}

#[test]
fn clips_go_into_the_clipboard() {
    match set_clipboard_by_id("text", &some("a"), &None) {
        Ok(Payload::Text(t)) => assert_eq!(t, "a"),
        _ => panic!("no text"),
    }
    match set_clipboard_by_id("file", &None, &None) {
        Ok(Payload::Text(t)) => assert_eq!(t, ""),
        _ => panic!("no text"),
    }
    assert_eq!(set_clipboard_by_id("image", &None, &None).err().unwrap(), "empty image");
    assert!(set_clipboard_by_id("image", &None, &Some(vec![1])).is_err());
    let (png, _, _) = encode_png(vec![1, 2, 3, 255], 1, 1).unwrap();
    match set_clipboard_by_id("image", &None, &Some(png)) {
        Ok(Payload::Image(p, w, h)) => assert_eq!((p, w, h), (vec![1, 2, 3, 255], 1, 1)),
        _ => panic!("no picture"),
    }
}

#[test]
fn clips_are_opened() {
    match open_clip_with_system(5, "image", &None, Some(vec![1])) {
        Ok(OpenPlan::Write(n, b)) => assert_eq!((n.as_str(), b), ("clip_5.png", vec![1])),
        _ => panic!("not written"),
    }
    assert_eq!(open_clip_with_system(5, "image", &None, None).err().unwrap(), "图片数据为空");
    match open_clip_with_system(5, "file", &some(" \n/a/b\n/c"), None) {
        Ok(OpenPlan::Path(p)) => assert_eq!(p, "/a/b"),
        _ => panic!("no path"),
    }
    assert_eq!(open_clip_with_system(5, "file", &some(" \n"), None).err().unwrap(), "文件路径为空");
    match open_clip_with_system(-5, "text", &some("é"), None) {
        Ok(OpenPlan::Write(n, b)) => assert_eq!((n.as_str(), b), ("clip_-5.txt", "é".as_bytes().to_vec())),
        _ => panic!("not written"),
    }
    assert_eq!(file_missing("/x"), "文件不存在: /x");
}

#[test]
fn carried_out_clips_come_back() {
    let e = export_clips("image".to_string(), None, Some(vec![1, 2, 3]), Some(4), Some(5), 1, 99);
    assert_eq!(e.image_b64, some("AQID"));
    assert!(e.pinned);
    let i = import_clips(e);
    assert_eq!(i.image, Some(vec![1, 2, 3]));
    assert_eq!((i.kind.as_str(), i.width, i.height, i.pinned, i.created_at), ("image", Some(4), Some(5), 1, 99));
    assert_eq!(i.hash, hash_column(hash_bytes(&[1, 2, 3])));
    let e = export_clips("text".to_string(), some("abc"), None, None, None, 0, 7);
    let i = import_clips(e);
    assert_eq!(i.content, some("abc"));
    assert_eq!((i.pinned, i.hash), (0, hash_column(hash_bytes(b"abc"))));
}

#[test]
fn known_clips_are_not_brought_in_again() {
    let list = || {
        vec![
            export_clips("text".to_string(), some("a"), None, None, None, 1, 7),
            export_clips("image".to_string(), None, Some(vec![9, 8]), Some(1), Some(2), 0, 8),
            export_clips("text".to_string(), some("a"), None, None, None, 0, 9),
        ]
    };
    let mut stored: Vec<(i64, i64, i64)> = Vec::new();
    let mut counts = Vec::new();
    for _ in 0..2 {
        let mut count: i64 = 0;
        for e in list() {
            let c = import_clips(e);
            let known = stored.iter().any(|r| r.0 == c.hash);
            if import_wanted(known) {
                stored.push((c.hash, c.pinned, c.created_at));
            }
            count = import_counted(count, known, true);
        }
        counts.push(count);
    }
    assert_eq!(counts, vec![2, 0]);
    assert_eq!(stored[0], (hash_column(hash_bytes(b"a")), 1, 7));
    assert_eq!(stored[1], (hash_column(hash_bytes(&[9, 8])), 0, 8));
    assert_eq!(import_counted(5, false, false), 5);
}

#[test]
fn broken_pictures_are_not_brought_in() {
    let c = ExportClip {
        kind: "image".to_string(),
        content: None,
        image_b64: some("***"),
        width: None,
        height: None,
        pinned: false,
        created_at: 0,
    };
    let i = import_clips(c);
    assert_eq!(i.image, None);
    assert_eq!(i.hash, 0);
    assert_eq!(bad_import("x"), "文件格式不正确: x");
}

#[test]
fn fonts_are_listed_once() {
    let names: Vec<String> = ["Zeta (TrueType)", "Arial (OpenType) (TrueType)", "Zeta", "  (All res)", "Arial"]
        .iter()
        .map(|s| s.to_string())
        .collect();
    assert_eq!(list_system_fonts(&names), vec!["Arial".to_string(), "Zeta".to_string()]);
    assert!(list_system_fonts(&vec![]).is_empty());
}

#[test]
fn configurations_start_alike() {
    let c = load_config(None);
    assert_eq!(c.hotkey, "Ctrl+`");
    assert!(!c.autostart && c.silent_start && c.enabled && !c.remember_size);
    assert_eq!(c.db_dir, None);
    assert_eq!(c.theme, "dark");
    assert_eq!(c.font_family, "Segoe UI, Microsoft YaHei, system-ui, sans-serif");
    assert_eq!((c.font_size, c.max_items, c.retention_value), (14, 0, 0));
    assert_eq!(c.retention_unit, "days");
    assert_eq!((c.window_width, c.window_height), (420, 640));
    assert!(c.exclude_apps.is_empty());
    let mut d = AppConfig::default();
    d.theme = "light".to_string();
    d.exclude_apps.push("x".to_string());
    let e = load_config(Some(d.clone()));
    assert_eq!(e.theme, "light");
    assert_eq!(e.exclude_apps, d.exclude_apps);
}

#[test]
fn the_database_has_a_place() {
    let mut c = AppConfig::default();
    assert_eq!(effective_db_path(&c, "/exe", Platform::Other), "/exe/lscopy.db");
    c.db_dir = some(" ");
    assert_eq!(effective_db_path(&c, "/exe", Platform::Other), "/exe/lscopy.db");
    c.db_dir = some("D:\\data");
    assert_eq!(effective_db_path(&c, "C:\\exe", Platform::Windows), "D:\\data\\lscopy.db");
    assert!(db_moved(&AppConfig::default(), &c));
    assert!(!db_moved(&c, &c.clone()));
    assert_eq!(config_file("/exe", Platform::Mac), "/exe/lscopy-config.json");
    let (mut off, on) = (AppConfig::default(), AppConfig::default());
    off.enabled = false;
    assert!(starts_recording(&off, &on));
    assert!(!starts_recording(&on, &on) && !starts_recording(&on, &off));
}

#[test]
fn clips_expire() {
    let mut c = AppConfig::default();
    assert_eq!(retention_cutoff(&c, 1000), None);
    c.retention_value = 2;
    assert_eq!(retention_cutoff(&c, 200_000), Some(200_000 - 172_800));
    c.retention_unit = "hours".to_string();
    assert_eq!(retention_cutoff(&c, 10_000), Some(2800));
    c.retention_unit = "months".to_string();
    assert_eq!(retention_cutoff(&c, 0), Some(-5_184_000));
    c.retention_unit = "years".to_string();
    assert_eq!(retention_cutoff(&c, 0), Some(-63_072_000));
    // the cutoff moves on with time
    assert!(retention_cutoff(&c, 5) > retention_cutoff(&c, 4));
}

#[test]
fn programs_are_excluded() {
    let mut c = AppConfig::default();
    assert!(!is_excluded(&c, &some("a.exe")));
    c.exclude_apps = vec![" ".to_string(), " KeePass ".to_string(), "b.exe".to_string()];
    assert!(is_excluded(&c, &some("keepass.exe")));
    assert!(is_excluded(&c, &some("keepass")));
    assert!(is_excluded(&c, &some("b.exe")));
    assert!(!is_excluded(&c, &some("b")));
    assert!(!is_excluded(&c, &some("")));
    assert!(!is_excluded(&c, &some(".exe")));
    assert!(!is_excluded(&c, &None));
    assert_eq!(foreground_exe_name("C:\\Tools\\KeePass.EXE"), "keepass.exe");
    assert_eq!(foreground_exe_name("X"), "x");
}

#[test]
fn sizes_are_remembered() {
    let mut c = AppConfig::default();
    assert!(!keep_size(&mut c, Some((1, 2))));
    save_config(&mut c, Some((1, 2)));
    assert_eq!((c.window_width, c.window_height), (420, 640));
    assert_eq!(restored_size(&c), None);
    c.remember_size = true;
    assert!(keep_size(&mut c, Some((10, 20))));
    assert_eq!(restored_size(&c), Some((10, 20)));
    assert!(!keep_size(&mut c, None));
    save_config(&mut c, Some((0, 2)));
    assert_eq!(restored_size(&c), None);
    save_config(&mut c, None);
    assert_eq!((c.window_width, c.window_height), (0, 2));
}

#[test]
fn starting_with_the_system() {
    assert_eq!(apply_autostart(true, false), AutostartStep::Enable);
    assert_eq!(apply_autostart(false, true), AutostartStep::Disable);
    assert_eq!(apply_autostart(true, true), AutostartStep::Nothing);
    let mut c = AppConfig::default();
    assert!(!set_recording_enabled(&mut c, false));
    assert!(!c.enabled);
    assert!(set_recording_enabled(&mut c, true));
    assert_eq!(tooltip(&c), "剪贴板管家 (Ctrl+`)");
}

#[test]
fn keys_have_names() {
    assert_eq!(code_from_name(" ~ "), Some(KeyCode::Backquote));
    assert_eq!(code_from_name("ArrowUp"), Some(KeyCode::ArrowUp));
    assert_eq!(code_from_name("del"), Some(KeyCode::Delete));
    assert_eq!(code_from_name("\\"), Some(KeyCode::Backslash));
    assert_eq!(code_from_name("Q"), Some(KeyCode::Letter('q')));
    assert_eq!(code_from_name("7"), Some(KeyCode::Digit('7')));
    assert_eq!(code_from_name("F12"), Some(KeyCode::Function(12)));
    assert_eq!(code_from_name("f+1"), Some(KeyCode::Function(1)));
    assert_eq!(code_from_name("f13"), None);
    assert_eq!(code_from_name("f0"), None);
    assert_eq!(code_from_name("é"), None);
    assert_eq!(code_from_name(""), None);
}

#[test]
fn hotkeys_are_read() {
    let h = Hotkey { ctrl: true, shift: true, alt: false, meta: false, code: KeyCode::Letter('v') };
    assert_eq!(parse_hotkey("Ctrl+Shift+V"), Some(h));
    assert_eq!(parse_hotkey("v + shift + CONTROL"), Some(h));
    assert_eq!(parse_hotkey("Ctrl+`").unwrap().code, KeyCode::Backquote);
    let m = parse_hotkey("Win+Alt+1").unwrap();
    assert!(m.meta && m.alt && !m.ctrl);
    assert_eq!(parse_hotkey("Ctrl+Shift"), None);
    assert_eq!(parse_hotkey("A+what"), None);
    assert_eq!(parse_hotkey("what+A").unwrap().code, KeyCode::Letter('a'));
    assert_eq!(register_hotkey("x y").err().unwrap(), "无法识别的快捷键: x y");
    assert!(register_hotkey("Cmd+Space").is_ok());
    assert_eq!(hotkey_refused("taken"), "注册快捷键失败（可能与其他软件冲突）: taken");
}

#[test]
fn the_panel_hides() {
    let mut p = Panel::new();
    assert!(p.hides());
    assert!(!p.on_focus(true));
    assert!(!p.hides());
    assert!(p.on_focus(false));
    p.dragging = true;
    assert!(!p.hides());
    p.dragging = false;
    p.pinned = true;
    assert!(!p.hides());
    assert!(!p.hides_on_paste());
    assert_eq!(toggle_window(true), PanelStep::Hide);
    assert_eq!(toggle_window(false), PanelStep::Show);
}

#[test]
fn the_menu_does_things() {
    assert_eq!(menu_step("show", true), MenuStep::Panel);
    assert_eq!(menu_step("toggle", true), MenuStep::Recording(false));
    assert_eq!(menu_step("settings", true), MenuStep::Settings);
    assert_eq!(menu_step("quit", true), MenuStep::Quit);
    assert_eq!(menu_step("x", true), MenuStep::Nothing);
    assert!(icon_calls_panel(true, true));
    assert!(!icon_calls_panel(false, true) && !icon_calls_panel(true, false));
    assert!(takes_over(false, true));
    assert!(!takes_over(true, true) && !takes_over(false, false));
}

#[test]
fn drags_end_with_the_button() {
    let mut d = DragWait::new();
    assert_eq!(d.wait_left_button_released(false), DragStep::Sleep(10));
    assert_eq!(d.wait_left_button_released(true), DragStep::Sleep(20));
    assert_eq!(d.wait_left_button_released(true), DragStep::Sleep(20));
    assert_eq!(d.wait_left_button_released(false), DragStep::Released);
    let mut d = DragWait::new();
    for _ in 0..15 {
        assert_eq!(d.wait_left_button_released(false), DragStep::Sleep(10));
    }
    assert_eq!(d.wait_left_button_released(false), DragStep::Released);
}

#[test]
fn clicks_are_not_lost() {
    let mut q = PasteQueue::new();
    assert!(q.paste_clip());
    assert!(!q.paste_clip());
    assert!(q.paste_worker());
    assert!(!q.paste_clip());
    assert!(q.paste_worker());
    assert!(!q.paste_worker());
    assert!(!q.running);
    assert!(q.paste_clip());
}
