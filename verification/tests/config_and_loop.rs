use intercom_sync::agent::{DeliveryKind, LoopAction, LoopEvent, LoopState, DEBOUNCE_MILLIS};
use intercom_sync::config::{parse_exchange_kind, required_value, AppConfig, ConfigErrorKind, ExchangeKind, Settings};
use intercom_sync::event::{is_relevant_event, QueueEvent};

fn s(v: &str) -> Option<String> {
    Some(v.to_string())
}

fn full() -> Settings {
    Settings {
        headend_url: s("10.0.0.5"),
        amqp_exchange: s("events"),
        amqp_exchange_type: s("topic"),
        amqp_queue: s("agent-q"),
        amqp_routing_key: s("#"),
        amqp_username: s("agent"),
        amqp_password: s("SECRET-REDACTED"),
        pjsip_base_dir: s("/config"),
        pjsip_backup_dir: s("/config/backups"),
    }
}

#[test]
fn config_with_all_settings() {
    let cfg = AppConfig::from_settings(full()).ok().unwrap();
    assert_eq!(cfg.headend_url, "10.0.0.5");
    assert_eq!(cfg.amqp_exchange, "events");
    assert_eq!(cfg.amqp_exchange_type, "topic");
    assert_eq!(cfg.amqp_queue, "agent-q");
    assert_eq!(cfg.amqp_routing_key, "#");
    assert_eq!(cfg.amqp_username, "agent");
    assert_eq!(cfg.amqp_password, "SECRET-REDACTED");
    assert_eq!(cfg.pjsip_base_dir, "/config");
    assert_eq!(cfg.pjsip_backup_dir, "/config/backups");
    assert_eq!(cfg.amqp_url(), "amqp://10.0.0.5:5672");
    assert_eq!(cfg.graphql_url(), "http://10.0.0.5:5000/graphql");
    assert_eq!(cfg.exchange_kind(), ExchangeKind::Topic);
}

#[test]
fn config_exchange_kind_values() {
    let mut st = full();
    st.amqp_exchange_type = s("FANOUT");
    assert_eq!(AppConfig::from_settings(st).ok().unwrap().exchange_kind(), ExchangeKind::Fanout);
    let mut st = full();
    st.amqp_exchange_type = s("weird");
    assert_eq!(AppConfig::from_settings(st).ok().unwrap().exchange_kind(), ExchangeKind::Topic);
}

#[test]
fn config_missing_and_empty() {
    let none = Settings {
        headend_url: None,
        amqp_exchange: None,
        amqp_exchange_type: None,
        amqp_queue: None,
        amqp_routing_key: None,
        amqp_username: None,
        amqp_password: None,
        pjsip_base_dir: None,
        pjsip_backup_dir: None,
    };
    let e = AppConfig::from_settings(none).err().unwrap();
    assert_eq!(e.kind, ConfigErrorKind::Missing);
    assert_eq!(e.name, "HEADEND_URL");
    assert_eq!(e.message(), "Missing required env var HEADEND_URL");
    let mut st = full();
    st.amqp_exchange = s("  \t");
    st.amqp_queue = None;
    let e = AppConfig::from_settings(st).err().unwrap();
    assert_eq!(e.kind, ConfigErrorKind::Empty);
    assert_eq!(e.name, "HEADEND_AMQP_EXCHANGE");
    assert_eq!(e.message(), "Environment variable HEADEND_AMQP_EXCHANGE is empty");
}

#[test]
fn config_every_setting_is_required() {
    let names = [
        "HEADEND_URL",
        "HEADEND_AMQP_EXCHANGE",
        "HEADEND_AMQP_EXCHANGE_TYPE",
        "HEADEND_AMQP_QUEUE",
        "HEADEND_AMQP_ROUTING_KEY",
        "HEADEND_AMQP_USERNAME",
        "HEADEND_AMQP_PASSWORD",
        "PJSIP_BASE_DIR",
        "PJSIP_BACKUP_DIR",
    ];
    for (i, name) in names.iter().enumerate() {
        for (value, kind) in [(None, ConfigErrorKind::Missing), (s(""), ConfigErrorKind::Empty)] {
            let mut st = full();
            let field = match i {
                0 => &mut st.headend_url,
                1 => &mut st.amqp_exchange,
                2 => &mut st.amqp_exchange_type,
                3 => &mut st.amqp_queue,
                4 => &mut st.amqp_routing_key,
                5 => &mut st.amqp_username,
                6 => &mut st.amqp_password,
                7 => &mut st.pjsip_base_dir,
                _ => &mut st.pjsip_backup_dir,
            };
            *field = value;
            let e = AppConfig::from_settings(st).err().unwrap();
            assert_eq!(e.kind, kind);
            assert_eq!(e.name, *name);
        }
    }
}

#[test]
fn required_value_keeps_value_untrimmed() {
    assert_eq!(required_value("N", s(" v ")).ok().unwrap(), " v ");
}

#[test]
fn exchange_kinds() {
    assert_eq!(parse_exchange_kind("direct"), Some(ExchangeKind::Direct));
    assert_eq!(parse_exchange_kind("Headers"), Some(ExchangeKind::Headers));
    assert_eq!(parse_exchange_kind("TOPIC"), Some(ExchangeKind::Topic));
    assert_eq!(parse_exchange_kind("fan out"), None);
}

fn ev(event: &str, resource: &str) -> QueueEvent {
    QueueEvent { id: "1".to_string(), event: event.to_string(), resource: resource.to_string() }
}

#[test]
fn relevant_events() {
    assert!(is_relevant_event(&ev("create", "intercom")));
    assert!(is_relevant_event(&ev("update", "intercom")));
    assert!(is_relevant_event(&ev("delete", "intercom")));
    assert!(!is_relevant_event(&ev("create", "door")));
    assert!(!is_relevant_event(&ev("read", "intercom")));
    assert!(!is_relevant_event(&ev("CREATE", "intercom")));
}

#[test]
fn debounce_coalesces_relevant_events() {
    let mut st = LoopState::new();
    assert_eq!(st.step(LoopEvent::Delivery(DeliveryKind::Relevant), 100), LoopAction::Acknowledge);
    assert_eq!(st.deadline(), Some(100 + DEBOUNCE_MILLIS));
    assert_eq!(st.step(LoopEvent::Delivery(DeliveryKind::Relevant), 5000), LoopAction::Acknowledge);
    assert_eq!(st.deadline(), Some(5000 + DEBOUNCE_MILLIS));
    assert_eq!(st.step(LoopEvent::Delivery(DeliveryKind::Ignored), 6000), LoopAction::Acknowledge);
    assert_eq!(st.step(LoopEvent::Delivery(DeliveryKind::Malformed), 6000), LoopAction::Acknowledge);
    assert_eq!(st.deadline(), Some(5000 + DEBOUNCE_MILLIS));
    assert_eq!(st.step(LoopEvent::DebounceElapsed, 15000), LoopAction::RunSync);
    assert_eq!(st.deadline(), None);
    assert!(!st.dirty);
}

#[test]
fn loop_other_events() {
    let mut st = LoopState::new();
    assert_eq!(st.step(LoopEvent::FullSyncTick, 0), LoopAction::RunSync);
    assert_eq!(st.step(LoopEvent::DeliveryError, 0), LoopAction::Wait);
    assert_eq!(st.step(LoopEvent::DebounceElapsed, 0), LoopAction::Wait);
    assert_eq!(st.step(LoopEvent::ConsumerClosed, 0), LoopAction::Fail);
    assert_eq!(st.step(LoopEvent::Shutdown, 0), LoopAction::Stop);
}
