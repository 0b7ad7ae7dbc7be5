use glow2whatever::glow::{
    parse_topic, GlowError, GlowPacket, Packet, PacketKind, Publish, Sensor, SensorEnergyExport,
    State, StateHan, Timestamp,
};
use glow2whatever::mqtt::{
    client_id, glow_subscribe, mqtt_settings, on_event, MqttAction, MqttEvent, QoS, Service,
};
use glow2whatever::topic::split_levels;
use glow2whatever::vibrate::vibration;

fn bad_json() -> serde_json::Error {
    serde_json::from_slice::<serde_json::Value>(b"{").unwrap_err()
}

fn state() -> State {
    State {
        timestamp: Timestamp { seconds: 1_670_000_000, nanoseconds: 5 },
        software: "v1.8.12".to_string(),
        hardware: "GLOW-IHD-01-1v4-SMETS2".to_string(),
        wifistamac: "112233445566".to_string(),
        smetsversion: "SMETS2".to_string(),
        eui: "11:22:33".to_string(),
        zigbee: "1.2.5".to_string(),
        han: StateHan { rssi: -62, status: "joined".to_string(), lqi: 92 },
    }
}

fn message(topic: &str) -> Publish {
    Publish { topic: topic.to_string(), payload: b"payload".to_vec() }
}

#[test]
fn topics_are_cut_at_slashes() {
    assert_eq!(split_levels("glow/AB12/SENSOR/x"), ["glow", "AB12", "SENSOR", "x"]);
    assert_eq!(split_levels(""), [""]);
    assert_eq!(split_levels("/"), ["", ""]);
    assert_eq!(split_levels("a//b/"), ["a", "", "b", ""]);
    assert_eq!(split_levels("é/日本/ü"), ["é", "日本", "ü"]);
}

#[test]
fn levels_joined_give_the_topic_back() {
    for topic in ["", "/", "a", "a/b", "/a//b/", "glow/x/STATE", "é/日本/ü"] {
        assert_eq!(split_levels(topic).join("/"), topic);
        let expected: Vec<&str> = topic.split('/').collect();
        assert_eq!(split_levels(topic), expected);
    }
}

#[test]
fn topics_name_display_and_kind() {
    let (id, kind) = parse_topic("glow/AB12/SENSOR/electricitymeter").unwrap();
    assert_eq!(id, "AB12");
    assert_eq!(kind, PacketKind::Sensor);
    let (id, kind) = parse_topic("glow/CD34/STATE").unwrap();
    assert_eq!(id, "CD34");
    assert_eq!(kind, PacketKind::State);
    let (id, kind) = parse_topic("anything//SENSOR").unwrap();
    assert_eq!(id, "");
    assert_eq!(kind, PacketKind::Sensor);
}

#[test]
fn other_topics_are_turned_down() {
    for topic in ["", "glow", "glow/AB12", "glow/AB12/", "glow/AB12/sensor", "glow/AB12/LWT/x"] {
        assert!(matches!(parse_topic(topic), Err(GlowError::BadTopic)));
    }
}

#[test]
fn sensor_messages_go_to_the_sensor_decoder() {
    let packet = Packet::try_from(
        message("glow/AB12/SENSOR/electricitymeter"),
        |payload| {
            assert_eq!(payload, b"payload");
            Ok(Sensor { electricitymeter: None })
        },
        |_| panic!("not a state message"),
    )
    .unwrap();
    assert_eq!(packet.id, "AB12");
    assert!(matches!(packet.packet, GlowPacket::Sensor(s) if s == Sensor { electricitymeter: None }));
}

#[test]
fn state_messages_go_to_the_state_decoder() {
    let packet = Packet::try_from(
        message("glow/AB12/STATE"),
        |_| panic!("not a sensor message"),
        |payload| {
            assert_eq!(payload, b"payload");
            Ok(state())
        },
    )
    .unwrap();
    assert_eq!(packet.id, "AB12");
    assert!(matches!(packet.packet, GlowPacket::State(s) if s == state()));
}

#[test]
fn bad_topics_reach_no_decoder() {
    let r = Packet::try_from(message("glow/AB12"), |_| panic!("decoded"), |_| panic!("decoded"));
    assert!(matches!(r, Err(GlowError::BadTopic)));
    assert_eq!(r.unwrap_err().message(), "unable to parse topic");
}

#[test]
fn bad_payloads_are_reported() {
    let r = Packet::try_from(message("g/i/SENSOR"), |_| Err(bad_json()), |_| Ok(state()));
    let e = r.unwrap_err();
    assert!(matches!(e, GlowError::BadPayload(_)));
    assert_eq!(e.message(), "failed to parse packet payload");
    let r = Packet::try_from(
        message("g/i/STATE"),
        |_| Ok(Sensor { electricitymeter: None }),
        |_| Err(bad_json()),
    );
    assert!(matches!(r, Err(GlowError::BadPayload(_))));
    assert!(matches!(GlowError::from(bad_json()), GlowError::BadPayload(_)));
}

#[test]
fn packets_are_put_together_from_decoded_payloads() {
    let packet = Packet::from_sensor("x".to_string(), Ok(Sensor { electricitymeter: None }));
    assert!(matches!(packet, Ok(Packet { id, packet: GlowPacket::Sensor(_) }) if id == "x"));
    let packet = Packet::from_state("y".to_string(), Ok(state()));
    assert!(matches!(packet, Ok(Packet { id, packet: GlowPacket::State(_) }) if id == "y"));
    assert!(Packet::from_sensor("x".to_string(), Err(bad_json())).is_err());
    assert!(Packet::from_state("x".to_string(), Err(bad_json())).is_err());
}

#[test]
fn exported_energy_starts_at_nothing() {
    let export = SensorEnergyExport::default();
    assert_eq!(f64::from_bits(export.cumulative.bits), 0.0);
    assert_eq!(export.units, "kWh");
}

#[test]
fn subscriptions_of_the_services() {
    let list = glow_subscribe(Service::Prometheus);
    assert_eq!(list.len(), 2);
    assert_eq!(list[0].filter, "glow/+/SENSOR/+");
    assert_eq!(list[1].filter, "glow/+/STATE");
    let list = glow_subscribe(Service::Buttplug);
    assert_eq!(list.len(), 2);
    assert_eq!(list[0].filter, "glow/+/SENSOR/+");
    assert_eq!(list[1].filter, "glow/+/STATE/+");
    assert!(list.iter().all(|s| s.qos == QoS::AtMostOnce));
}

#[test]
fn subscribed_topics_parse() {
    for (service, topic, kind) in [
        (Service::Prometheus, "glow/AB12/SENSOR/electricitymeter", PacketKind::Sensor),
        (Service::Prometheus, "glow/AB12/STATE", PacketKind::State),
        (Service::Buttplug, "glow/AB12/STATE/now", PacketKind::State),
    ] {
        let covered = glow_subscribe(service).iter().any(|s| {
            let wanted = split_levels(&s.filter);
            let found = split_levels(topic);
            wanted.len() == found.len()
                && wanted.iter().zip(&found).all(|(w, f)| w == "+" || w == f)
        });
        assert!(covered);
        assert_eq!(parse_topic(topic).unwrap(), ("AB12".to_string(), kind));
    }
}

#[test]
fn client_ids() {
    assert_eq!(client_id(false, 4711), "rumqtt-sync");
    assert_eq!(client_id(true, 4711), "rumqtt-sync-4711");
    assert_eq!(client_id(true, 0), "rumqtt-sync-0");
    assert_eq!(client_id(true, 10), "rumqtt-sync-10");
    assert_eq!(client_id(true, u32::MAX), "rumqtt-sync-4294967295");
}

#[test]
fn connection_settings() {
    let settings = mqtt_settings(client_id(false, 1), "192.0.2.7".to_string(), 1883);
    assert_eq!(settings.client_id, "rumqtt-sync");
    assert_eq!(settings.host, "192.0.2.7");
    assert_eq!(settings.port, 1883);
    assert_eq!(settings.keep_alive, 5);
    assert_eq!(settings.requests, 10);
}

#[test]
fn events_lead_to_actions() {
    let published: MqttEvent<String> = MqttEvent::Published(message("a/b/STATE"));
    assert_eq!(on_event(published), MqttAction::Handle(message("a/b/STATE")));
    let other: MqttEvent<String> = MqttEvent::Other;
    assert_eq!(on_event(other), MqttAction::Wait);
    assert_eq!(on_event(MqttEvent::Failed("gone")), MqttAction::Stop("gone"));
}

#[test]
fn state_messages_ask_for_no_vibration() {
    assert!(vibration(&GlowPacket::State(state())).is_none());
}
