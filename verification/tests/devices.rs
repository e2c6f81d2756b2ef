use lscopy::client::LanErr;
use lscopy::discovery::{
    beacon_payload, lan_add_device, lan_sweep, local_ip, probe_ports, receive_beacon,
    sweep_addresses, typed_address, ProbeStep,
};
use lscopy::lan::{BlockedInfo, Discovered, LanDevice, LanSettings, LanShared, Platform};
use lscopy::listing::{
    auto_sync_targets, auto_sync_turn, build_state_dto, lan_get_state, merged_devices,
};
use lscopy::pairing::{
    lan_block, lan_pair, lan_regenerate_token, lan_unblock, lan_unpair, lan_update_settings,
    pair_granted, pair_unreachable, pair_with_token, LanSettingsPatch,
};
use lscopy::server::{admit_content, handle_info};
use lscopy::strmap::StrMap;

fn shared(id: &str) -> LanShared {
    let mut s = LanSettings::default();
    s.device_id = id.to_string();
    s.device_name = format!("Name of {id}");
    s.pairing_token = "123456".to_string();
    s.sharing = true;
    LanShared::new("f".to_string(), s, 20_000)
}

fn device(id: &str, name: &str, host: &str) -> LanDevice {
    let mut d = LanDevice::default();
    d.device_id = id.to_string();
    d.name = name.to_string();
    d.host = Some(host.to_string());
    d.port = 9000;
    d
}

fn see(s: &mut LanShared, d: LanDevice, at: u64) {
    s.discovered.insert(d.device_id.clone(), Discovered { device: d, last_seen: at });
}

#[test]
fn announcements_are_understood() {
    let mut a = shared("a");
    assert!(beacon_payload(&a, Platform::Mac).is_none());
    a.settings.discoverable = true;
    assert!(beacon_payload(&a, Platform::Mac).is_none());
    a.server_running = true;
    a.actual_port = 9000;
    let doc = beacon_payload(&a, Platform::Mac).unwrap();
    let mut b = shared("b");
    assert!(receive_beacon(&mut b, &doc, "10.0.0.1", 30_000));
    let d = b.discovered.get("a").unwrap();
    assert_eq!(d.last_seen, 30_000);
    assert_eq!(d.device.name, "Name of a");
    assert_eq!(d.device.model, Some("Mac".to_string()));
    assert_eq!(d.device.host, Some("10.0.0.1".to_string()));
    assert_eq!(d.device.port, 9000);
    assert!(d.device.sharing && !d.device.paired);
    // its own announcement means nothing to a device
    assert!(!receive_beacon(&mut a, &doc, "10.0.0.1", 30_000));
    assert!(!a.discovered.contains_key("a"));
}

#[test]
fn other_announcements_do_not_count() {
    let mut b = shared("b");
    for doc in ["", "{}", "{\"deviceId\":\"a\"}", "{\"deviceId\":\"a\",\"port\":-1}", "{\"port\":1}"] {
        assert!(!receive_beacon(&mut b, doc.as_bytes(), "ip", 1));
    }
    b.settings.blocked.insert("a".to_string(), BlockedInfo::default());
    b.settings.blocked_by.insert("c".to_string());
    assert!(!receive_beacon(&mut b, b"{\"deviceId\":\"a\",\"port\":1}", "ip", 1));
    assert!(!receive_beacon(&mut b, b"{\"deviceId\":\"c\",\"port\":1}", "ip", 1));
    assert!(receive_beacon(&mut b, b"{\"deviceId\":\"d\",\"port\":65537}", "ip", 1));
    let d = &b.discovered.get("d").unwrap().device;
    assert_eq!((d.name.as_str(), d.port, d.sharing), ("未知设备", 1, false));
}

#[test]
fn ports_are_asked_in_turn() {
    assert_eq!(probe_ports(8765), vec![8765]);
    assert_eq!(probe_ports(9000), vec![9000, 8765]);
    assert_eq!(typed_address("  10.0.0.1 "), Some("10.0.0.1".to_string()));
    assert_eq!(typed_address("  "), None);
}

#[test]
fn devices_are_added_by_address() {
    let mut s = shared("me");
    let answer = Ok(b"{\"deviceId\":\"d\",\"sharing\":true}".to_vec());
    assert_eq!(lan_add_device(&mut s, "10.0.0.9", 9001, &answer, 5), ProbeStep::Found);
    let d = &s.discovered.get("d").unwrap().device;
    assert_eq!((d.name.as_str(), d.port, d.sharing), ("10.0.0.9", 9001, true));
    assert_eq!(lan_add_device(&mut s, "ip", 1, &Ok(b"{}".to_vec()), 5), ProbeStep::Next);
    let own = Ok(b"{\"deviceId\":\"me\"}".to_vec());
    assert_eq!(lan_add_device(&mut s, "ip", 1, &own, 5), ProbeStep::Next);
    assert_eq!(lan_add_device(&mut s, "ip", 1, &Err(LanErr::Http(500)), 5), ProbeStep::Next);
    let blocker = Err(LanErr::Blocked(Some("d".to_string())));
    assert_eq!(lan_add_device(&mut s, "ip", 1, &blocker, 5), ProbeStep::Changed);
    assert!(s.settings.blocked_by.contains("d") && !s.discovered.contains_key("d"));
    assert_eq!(lan_add_device(&mut s, "10.0.0.9", 9001, &answer, 5), ProbeStep::Stop);
    let odd = Err(LanErr::Blocked(Some("me".to_string())));
    assert_eq!(lan_add_device(&mut s, "ip", 1, &odd, 5), ProbeStep::Stop);
}

#[test]
fn the_network_is_searched() {
    let mut s = shared("me");
    let answer = Ok(b"{\"deviceId\":\"d\",\"name\":\"D\"}".to_vec());
    assert_eq!(lan_sweep(&mut s, "10.0.0.9", 8765, &answer, 5), ProbeStep::Found);
    assert_eq!(s.discovered.get("d").unwrap().device.name, "D");
    assert_eq!(lan_sweep(&mut s, "ip", 1, &Ok(b"{}".to_vec()), 5), ProbeStep::Stop);
    let own = Ok(b"{\"deviceId\":\"me\"}".to_vec());
    assert_eq!(lan_sweep(&mut s, "ip", 1, &own, 5), ProbeStep::Stop);
    let gone = Err(LanErr::Blocked(Some("d".to_string())));
    assert_eq!(lan_sweep(&mut s, "ip", 1, &gone, 5), ProbeStep::Next);
    let batches = sweep_addresses("192.168.1.33");
    assert_eq!(batches.len(), 8);
    assert_eq!(batches[0].len(), 32);
    assert_eq!(batches[0][0], "192.168.1.1");
    assert_eq!(batches[1].len(), 31);
    assert_eq!(batches[1][0], "192.168.1.34");
    assert_eq!(batches[7].len(), 30);
    assert_eq!(batches[7][29], "192.168.1.254");
    let all: Vec<String> = batches.into_iter().flatten().collect();
    assert_eq!(all.len(), 253);
    for i in 1..255 {
        assert_eq!(all.contains(&format!("192.168.1.{i}")), i != 33);
    }
    assert!(sweep_addresses("fe80::1").is_empty());
}

#[test]
fn own_addresses_are_told_apart() {
    assert_eq!(local_ip("192.168.1.2"), Some("192.168.1.2".to_string()));
    assert_eq!(local_ip("127.0.0.1"), None);
    assert_eq!(local_ip("0.0.0.0"), None);
    assert_eq!(local_ip("10.0.0.0"), Some("10.0.0.0".to_string()));
}

#[test]
fn devices_are_listed_in_order() {
    let mut s = shared("me");
    let mut p = device("p", "Zeta", "10.0.0.1");
    p.token = Some("t".to_string());
    s.settings.paired.insert("p".to_string(), p.clone());
    let mut q = device("q", "Alpha", "10.0.0.2");
    q.token = Some("t".to_string());
    s.settings.paired.insert("q".to_string(), q);
    s.settings.last_sync.insert("q".to_string(), 77);
    let mut fresh = device("p", "Zoe", "10.0.0.9");
    fresh.sharing = true;
    fresh.model = Some("Mac".to_string());
    see(&mut s, fresh, 100_000);
    see(&mut s, device("r", "Beta", "10.0.0.3"), 95_000);
    see(&mut s, device("old", "Old", "10.0.0.4"), 88_000);
    see(&mut s, device("bad", "Bad", "10.0.0.5"), 100_000);
    s.settings.blocked.insert("bad".to_string(), BlockedInfo::default());
    let list = merged_devices(&mut s, 100_000);
    let names: Vec<(&str, bool, bool)> =
        list.iter().map(|d| (d.device.name.as_str(), d.online, d.device.paired)).collect();
    assert_eq!(names, vec![("Beta", true, false), ("Zeta", true, true), ("Alpha", false, true)]);
    assert_eq!(list[1].device.host, Some("10.0.0.9".to_string()));
    assert_eq!(list[2].last_sync, 77);
    assert!(!s.discovered.contains_key("old"));
    // what is kept of the paired device is renewed, but for its code
    let kept = s.settings.paired.get("p").unwrap();
    assert_eq!((kept.name.as_str(), kept.model.as_deref()), ("Zoe", Some("Mac")));
    assert_eq!(kept.token, Some("t".to_string()));
    assert_eq!(auto_sync_targets(&list), vec!["p".to_string()]);
}

#[test]
fn paired_devices_without_code_are_listed_as_they_announce_themselves() {
    let mut s = shared("me");
    s.settings.paired.insert("p".to_string(), device("p", "Old name", "10.0.0.1"));
    see(&mut s, device("p", "New name", "10.0.0.2"), 100_000);
    let list = merged_devices(&mut s, 100_000);
    assert_eq!(list[0].device.name, "New name");
    assert!(list[0].device.paired && list[0].online);
}

#[test]
fn the_state_is_shown() {
    let mut s = shared("me");
    s.settings.blocked.insert("bad".to_string(), BlockedInfo::default());
    s.syncing.insert("r".to_string());
    s.actual_port = 9000;
    see(&mut s, device("r", "Beta", "10.0.0.3"), 95_000);
    let d = build_state_dto(&mut s, 100_000, Some("10.0.0.8".to_string()));
    assert_eq!(d.device_id, "me");
    assert_eq!(d.pairing_token, "123456");
    assert_eq!((d.server_port, d.actual_port), (8765, 9000));
    assert_eq!(d.local_ip, "10.0.0.8");
    assert_eq!(d.devices.len(), 1);
    assert!(d.devices[0].syncing && d.devices[0].online && !d.devices[0].paired);
    assert_eq!(d.blocked.len(), 1);
    assert_eq!(d.blocked[0].device_id, "bad");
    assert_eq!(build_state_dto(&mut s, 100_000, None).local_ip, "");
    let again = lan_get_state(&mut s, 108_000, None);
    assert_eq!((again.device_name.as_str(), again.devices.len()), (d.device_name.as_str(), 0));
}

#[test]
fn automatic_synchronisation_can_be_off() {
    let mut s = shared("me");
    s.settings.paired.insert("p".to_string(), device("p", "Zeta", "10.0.0.1"));
    let mut fresh = device("p", "Zeta", "10.0.0.9");
    fresh.sharing = true;
    see(&mut s, fresh, 100_000);
    s.settings.auto_sync = false;
    assert!(auto_sync_turn(&mut s, 100_000).is_empty());
    assert_eq!(s.settings.paired.get("p").unwrap().host, Some("10.0.0.1".to_string()));
    s.settings.auto_sync = true;
    assert_eq!(auto_sync_turn(&mut s, 100_000), vec!["p".to_string()]);
    assert_eq!(s.settings.paired.get("p").unwrap().host, Some("10.0.0.9".to_string()));
    assert!(auto_sync_turn(&mut s, 112_000).is_empty());
}

fn patch() -> LanSettingsPatch {
    LanSettingsPatch {
        discoverable: None,
        sharing: None,
        auto_sync: None,
        auto_accept_pair: None,
        device_name: None,
        server_port: None,
    }
}

#[test]
fn settings_are_changed() {
    let mut s = shared("me").settings;
    assert!(!lan_update_settings(&mut s, patch()));
    let mut p = patch();
    p.discoverable = Some(true);
    p.sharing = Some(false);
    p.auto_sync = Some(true);
    p.auto_accept_pair = Some(true);
    p.device_name = Some("  New ".to_string());
    p.server_port = Some(9999);
    assert!(lan_update_settings(&mut s, p));
    assert!(s.discoverable && !s.sharing && s.auto_sync && s.auto_accept_pair);
    assert_eq!((s.device_name.as_str(), s.server_port), ("New", 9999));
    let mut p = patch();
    p.device_name = Some("  ".to_string());
    p.server_port = Some(0);
    assert!(!lan_update_settings(&mut s, p));
    assert_eq!((s.device_name.as_str(), s.server_port), ("New", 9999));
}

fn asking(token: &str) -> StrMap<String> {
    let mut h = StrMap::new();
    h.insert("x-device-id".to_string(), "you".to_string());
    h.insert("x-token".to_string(), token.to_string());
    h
}

#[test]
fn new_codes_end_the_old_ones() {
    let mut s = shared("me").settings;
    s.paired.insert("you".to_string(), LanDevice::default());
    assert!(admit_content(&mut s, &asking("123456"), "ip").is_ok());
    assert_eq!(lan_regenerate_token(&mut s, 7), "100007");
    assert!(admit_content(&mut s, &asking("123456"), "ip").is_err());
    assert!(admit_content(&mut s, &asking("100007"), "ip").is_ok());
}

#[test]
fn devices_are_paired_with() {
    let mut s = shared("me");
    assert_eq!(lan_pair(&s, "you").err().unwrap(), "设备不在线，请先刷新扫描");
    let mut away = device("you", "Y", "h");
    away.host = None;
    s.settings.paired.insert("you".to_string(), away);
    assert_eq!(lan_pair(&s, "you").err().unwrap(), "设备离线");
    see(&mut s, device("you", "Y", "h"), 1);
    let d = lan_pair(&s, "you").unwrap();
    assert_eq!(d.host, Some("h".to_string()));
    s.settings.blocked_by.insert("you".to_string());
    assert_eq!(lan_pair(&s, "you").err().unwrap(), "你已被对方拉黑，无法配对");
    s.settings.blocked.insert("you".to_string(), BlockedInfo::default());
    assert_eq!(lan_pair(&s, "you").err().unwrap(), "该设备在本机黑名单中，请先移出黑名单");
    assert_eq!(pair_unreachable(&LanErr::Http(500)), "设备不在线，无法连接（HTTP 500）");
    assert_eq!(pair_with_token(d.clone(), b"{}", " ").err().unwrap(), "__need_token__");
    let free = pair_with_token(d.clone(), b"{\"autoAccept\":true}", "").unwrap();
    assert_eq!(free.token, None);
    let coded = pair_with_token(d, b"{}", " 77 ").unwrap();
    assert_eq!(coded.token, Some("77".to_string()));
    pair_granted(&mut s.settings, "you", coded, None);
    let kept = s.settings.paired.get("you").unwrap();
    assert_eq!(kept.token, Some("77".to_string()));
    assert!(kept.paired && !s.settings.blocked.contains_key("you"));
    pair_granted(&mut s.settings, "you", free, Some("88".to_string()));
    assert_eq!(s.settings.paired.get("you").unwrap().token, Some("88".to_string()));
    assert_eq!(lan_unpair(&mut s.settings, "you").unwrap().name, "Y");
    assert!(lan_unpair(&mut s.settings, "you").is_none());
}

#[test]
fn blocked_devices_are_shut_out() {
    let mut s = shared("me");
    let mut p = device("you", "Y", "h");
    p.token = Some("t".to_string());
    s.settings.paired.insert("you".to_string(), p);
    let calls = lan_block(&mut s, "you");
    let paths: Vec<&str> = calls.iter().map(|c| c.path.as_str()).collect();
    assert_eq!(paths, vec!["/unpair", "/blocked"]);
    assert!(!s.settings.paired.contains_key("you"));
    assert_eq!(s.settings.blocked.get("you").unwrap().name, "Y");
    assert!(admit_content(&mut s.settings, &asking("123456"), "ip").is_err());
    assert_eq!(handle_info(&s.settings, &asking("123456"), Platform::Mac).code, 403);
    assert!(lan_pair(&s, "you").is_err());
    assert!(merged_devices(&mut s, 1).is_empty());
    let told = lan_unblock(&mut s.settings, "you").unwrap();
    assert_eq!((told.path.as_str(), told.token), ("/unblocked", Some("t".to_string())));
    assert!(!s.settings.blocked.contains_key("you"));
    assert!(lan_unblock(&mut s.settings, "you").is_none());
}

#[test]
fn blocking_keeps_the_code_of_a_device_that_is_online() {
    let mut s = shared("me");
    let mut p = device("you", "Old", "old");
    p.token = Some("t".to_string());
    s.settings.paired.insert("you".to_string(), p);
    see(&mut s, device("you", "New", "new"), 1);
    let calls = lan_block(&mut s, "you");
    let told: Vec<(&str, &str, Option<&str>)> =
        calls.iter().map(|c| (c.host.as_str(), c.path.as_str(), c.token.as_deref())).collect();
    assert_eq!(told, vec![("new", "/unpair", Some("t")), ("new", "/blocked", None)]);
    let kept = s.settings.blocked.get("you").unwrap();
    assert_eq!((kept.name.as_str(), kept.token.as_deref()), ("New", Some("t")));
    assert_eq!(kept.host, Some("new".to_string()));
    assert!(!s.settings.paired.contains_key("you") && !s.discovered.contains_key("you"));
    let told = lan_unblock(&mut s.settings, "you").unwrap();
    assert_eq!((told.host.as_str(), told.path.as_str()), ("new", "/unblocked"));
    assert_eq!(told.token, Some("t".to_string()));
}

#[test]
fn unknown_devices_can_be_blocked_too() {
    let mut s = shared("me");
    assert!(lan_block(&mut s, "x").is_empty());
    assert_eq!(s.settings.blocked.get("x").unwrap().name, "");
    see(&mut s, device("y", "Y", "h"), 1);
    let calls = lan_block(&mut s, "y");
    assert_eq!(calls.len(), 1);
    assert_eq!(calls[0].path, "/blocked");
    assert!(!s.discovered.contains_key("y"));
}
