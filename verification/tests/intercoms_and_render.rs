use intercom_sync::intercom::{normalize_intercoms, Intercom};
use intercom_sync::render::render_pjsip_conf;

fn ic(id: &str, mac: &str) -> Intercom {
    Intercom::new(id.to_string(), mac.to_string())
}

#[test]
fn normalize_intercoms_drops_invalid_and_sorts() {
    let raw = vec![
        ic("3", "CC:CC:CC:CC:CC:CC"),
        ic("1", "not-a-mac"),
        ic("2", "aa:aa:aa:aa:aa:aa"),
        ic("4", "BB:BB:BB:BB:BB:BB"),
    ];
    let (list, dropped) = normalize_intercoms(&raw);
    assert_eq!(dropped, 1);
    let got: Vec<(String, String)> = list.iter().map(|i| (i.id.clone(), i.mac.clone())).collect();
    assert_eq!(
        got,
        vec![
            ("2".to_string(), "aaaaaaaaaaaa".to_string()),
            ("4".to_string(), "bbbbbbbbbbbb".to_string()),
            ("3".to_string(), "cccccccccccc".to_string()),
        ]
    );
}

#[test]
fn normalize_intercoms_keeps_order_of_equal_macs() {
    let raw = vec![
        ic("b", "11:11:11:11:11:11"),
        ic("z", "00:00:00:00:00:00"),
        ic("a", "111111111111"),
    ];
    let (list, dropped) = normalize_intercoms(&raw);
    assert_eq!(dropped, 0);
    let ids: Vec<String> = list.iter().map(|i| i.id.clone()).collect();
    assert_eq!(ids, vec!["z".to_string(), "b".to_string(), "a".to_string()]);
}

#[test]
fn normalize_intercoms_empty() {
    let (list, dropped) = normalize_intercoms(&Vec::new());
    assert!(list.is_empty());
    assert_eq!(dropped, 0);
}

const PREAMBLE: &str = "[transport-udp]\ntype=transport\nprotocol=udp\nbind=0.0.0.0:5060\n\n\
[endpoint-template](!)\ntype=endpoint\ncontext=internal\ndisallow=all\nallow=ulaw\nallow=alaw\n\n\
[auth-template](!)\ntype=auth\nauth_type=userpass\n\n\
[aor-template](!)\ntype=aor\nmax_contacts=1\n\n";

#[test]
fn render_without_intercoms() {
    let out = render_pjsip_conf(&Vec::new(), 42);
    let expected = format!("; Generated by intercom-sync-agent at unix=42\n; Intercom count: 0\n\n{PREAMBLE}");
    assert_eq!(out, expected);
}

#[test]
fn render_with_two_intercoms() {
    let list = vec![ic("id-1", "001122334455"), ic("id-2", "aabbccddeeff")];
    let out = render_pjsip_conf(&list, 1700000000);
    let mut expected = format!("; Generated by intercom-sync-agent at unix=1700000000\n; Intercom count: 2\n\n{PREAMBLE}");
    for (id, mac) in [("id-1", "001122334455"), ("id-2", "aabbccddeeff")] {
        expected.push_str(&format!(
            "; Intercom {id}\n[{mac}](endpoint-template)\nauth={mac}-auth\naors={mac}\n\n\
[{mac}-auth](auth-template)\nusername={mac}\npassword=Sentrics2026\n\n[{mac}](aor-template)\n\n"
        ));
    }
    assert_eq!(out, expected);
}

#[test]
fn render_is_deterministic_for_same_input() {
    let list = vec![ic("x", "0a0b0c0d0e0f")];
    assert_eq!(render_pjsip_conf(&list, 7), render_pjsip_conf(&list, 7));
}

#[test]
fn configuration_independent_of_listing_order() {
    let a = vec![ic("1", "0A:00:00:00:00:03"), ic("2", "0a:00:00:00:00:01"), ic("3", "bad"), ic("4", "0a0000000002")];
    let b = vec![ic("4", "0a0000000002"), ic("3", "bad"), ic("1", "0A:00:00:00:00:03"), ic("2", "0a:00:00:00:00:01")];
    let (la, da) = normalize_intercoms(&a);
    let (lb, db) = normalize_intercoms(&b);
    assert_eq!(da, db);
    assert_eq!(render_pjsip_conf(&la, 99), render_pjsip_conf(&lb, 99));
}
