use lscopy::lan::{
    apply_state, default_device_name, device_model, emit_state_changed, join_path, load_settings,
    new_device_id, new_token, server_bound, settings_file, start_server, stop_server, LanDevice,
    LanSettings, LanShared, Platform, ServiceStep, DEFAULT_PORT,
};

fn shared() -> LanShared {
    let mut s = LanSettings::default();
    s.device_id = "me".to_string();
    s.device_name = "Mine".to_string();
    s.pairing_token = "123456".to_string();
    LanShared::new("f".to_string(), s, 20_000)
}

#[test]
fn identities_are_made_of_random_numbers() {
    assert_eq!(
        new_device_id(0x0123_4567_89AB_CDEF, 0xFEDC_BA98_7654_3210),
        "01234567-89ab-cdef-fedc-ba9876543210"
    );
    assert_eq!(new_device_id(0, 0), "00000000-0000-0000-0000-000000000000");
}

#[test]
fn codes_have_six_digits() {
    assert_eq!(new_token(0), "100000");
    assert_eq!(new_token(899_999), "999999");
    assert_eq!(new_token(900_000), "100000");
    for r in [1u64, 77, u64::MAX] {
        assert_eq!(new_token(r).len(), 6);
    }
}

#[test]
fn devices_have_a_first_name() {
    assert_eq!(default_device_name(Platform::Windows, &Some(" DESK ".to_string())), "DESK");
    assert_eq!(default_device_name(Platform::Windows, &Some("  ".to_string())), "Windows 电脑");
    assert_eq!(default_device_name(Platform::Windows, &None), "Windows 电脑");
    assert_eq!(default_device_name(Platform::Mac, &None), "Mac");
    assert_eq!(default_device_name(Platform::Other, &None), "我的电脑");
    assert_eq!(device_model(Platform::Windows), "Windows PC");
    assert_eq!(device_model(Platform::Mac), "Mac");
    assert_eq!(device_model(Platform::Other), "PC");
}

#[test]
fn paths_are_joined() {
    assert_eq!(settings_file("/opt/x", Platform::Other), "/opt/x/lscopy-lan.json");
    assert_eq!(settings_file("C:\\x", Platform::Windows), "C:\\x\\lscopy-lan.json");
    assert_eq!(join_path("C:", "a", Platform::Windows), "C:a");
    assert_eq!(join_path("\\\\?\\C:\\x/", "a", Platform::Windows), "\\\\?\\C:\\x/\\a");
    assert_eq!(join_path("1:", "a", Platform::Windows), "1:\\a");
    assert_eq!(join_path("ä:", "a", Platform::Windows), "ä:\\a");
    assert_eq!(join_path("x/", "a", Platform::Windows), "x/a");
    assert_eq!(join_path("x\\", "a", Platform::Windows), "x\\a");
    assert_eq!(join_path("x\\", "a", Platform::Mac), "x\\/a");
    assert_eq!(join_path("", "a", Platform::Mac), "a");
}

#[test]
fn settings_are_completed_once() {
    let (s, dirty) = load_settings(None, (1, 2), 3, Platform::Other, &None);
    assert!(dirty);
    assert_eq!(s.device_id, new_device_id(1, 2));
    assert_eq!(s.device_name, "我的电脑");
    assert_eq!(s.pairing_token, "100003");
    assert_eq!(s.server_port, DEFAULT_PORT);
    assert!(!s.sharing && !s.discoverable && !s.auto_sync && !s.auto_accept_pair);
    let id = s.device_id.clone();
    let (again, dirty) = load_settings(Some(s), (9, 9), 9, Platform::Mac, &None);
    assert!(!dirty);
    assert_eq!(again.device_id, id);
    assert_eq!(again.pairing_token, "100003");
    let mut broken = LanSettings::default();
    broken.server_port = 0;
    broken.device_id = "x".to_string();
    let (fixed, dirty) = load_settings(Some(broken), (9, 9), 9, Platform::Mac, &None);
    assert!(dirty);
    assert_eq!(fixed.server_port, 8765);
    assert_eq!(fixed.device_id, "x");
}

#[test]
fn notices_come_once_a_second() {
    let mut s = shared();
    assert!(emit_state_changed(&mut s, 20_000));
    assert!(!emit_state_changed(&mut s, 20_999));
    assert!(emit_state_changed(&mut s, 21_000));
    assert!(!emit_state_changed(&mut s, 5));
}

#[test]
fn the_service_runs_while_it_is_needed() {
    let mut s = LanSettings::default();
    assert_eq!(apply_state(&s), ServiceStep::Stop);
    s.discoverable = true;
    assert_eq!(apply_state(&s), ServiceStep::Start);
    s.discoverable = false;
    s.sharing = true;
    assert_eq!(apply_state(&s), ServiceStep::Start);
}

#[test]
fn the_service_starts_and_stops() {
    let mut s = shared();
    assert_eq!(stop_server(&mut s), None);
    assert_eq!(start_server(&mut s), Some(8765));
    assert_eq!(start_server(&mut s), None);
    server_bound(&mut s, Some(9000));
    assert_eq!(s.actual_port, 9000);
    assert_eq!(stop_server(&mut s), Some(9000));
    assert_eq!(s.actual_port, 0);
    assert!(!s.server_running);
    assert_eq!(start_server(&mut s), Some(8765));
    server_bound(&mut s, None);
    assert!(!s.server_running);
}

#[test]
fn devices_start_empty() {
    let d = LanDevice::default();
    assert_eq!(d.device_id, "");
    assert_eq!(d.port, 0);
    assert!(d.host.is_none() && d.token.is_none() && !d.paired && !d.sharing);
    let e = d.clone();
    assert_eq!(e.name, d.name);
}
