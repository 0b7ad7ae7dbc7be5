use glow2whatever::glow::{
    GlowPacket, Packet, Sensor, SensorElectricityMeter, SensorEnergy, SensorEnergyExport,
    SensorEnergyImport, SensorEnergyPower, SensorEnergyPrice, State, StateHan, Timestamp,
};
use glow2whatever::metrics::{
    create_metrics, export_metrics, handle_publish, initial_cache, register_metrics, FollowUp,
    Metrics,
};
use glow2whatever::reading::Reading;
use glow2whatever::routes;
use glow2whatever::routes::Body;
use glow2whatever::store::MetricsError;
use glow2whatever::vibrate::vibration;

fn reading(value: f64) -> Reading {
    Reading { bits: value.to_bits() }
}

fn meter(mpan: &str, supplier: &str, power: f64) -> SensorElectricityMeter {
    SensorElectricityMeter {
        timestamp: Timestamp { seconds: 1_670_000_000, nanoseconds: 0 },
        energy: SensorEnergy {
            export: SensorEnergyExport::default(),
            import: SensorEnergyImport {
                cumulative: reading(6613.405),
                day: reading(13.252),
                week: reading(141.71),
                month: reading(293.052),
                units: "kWh".to_string(),
                mpan: mpan.to_string(),
                supplier: supplier.to_string(),
                price: SensorEnergyPrice {
                    unitrate: reading(0.1546),
                    standingcharge: reading(0.2221),
                },
            },
        },
        power: SensorEnergyPower { value: reading(power), units: "kW".to_string() },
    }
}

fn sensor(meter: Option<SensorElectricityMeter>) -> Packet {
    Packet {
        id: "AB12".to_string(),
        packet: GlowPacket::Sensor(Sensor { electricitymeter: meter }),
    }
}

fn state(software: &str) -> State {
    State {
        timestamp: Timestamp { seconds: 1, nanoseconds: 2 },
        software: software.to_string(),
        hardware: String::new(),
        wifistamac: String::new(),
        smetsversion: String::new(),
        eui: String::new(),
        zigbee: String::new(),
        han: StateHan { rssi: 0, status: String::new(), lqi: 0 },
    }
}

fn state_packet(software: &str) -> Packet {
    Packet { id: "AB12".to_string(), packet: GlowPacket::State(state(software)) }
}

fn registered() -> Metrics {
    let mut metrics = create_metrics().unwrap();
    register_metrics(&mut metrics).unwrap();
    metrics
}

fn text(metrics: &Metrics) -> String {
    let mut cache = initial_cache();
    export_metrics(metrics, &mut cache);
    cache
}

fn lines(metrics: &Metrics) -> Vec<String> {
    text(metrics).lines().filter(|l| !l.starts_with('#')).map(|l| l.to_string()).collect()
}

#[test]
fn nothing_but_the_count_at_the_start() {
    let metrics = registered();
    assert_eq!(
        text(&metrics),
        "# HELP glow_metric_collection_count \
         Number of times metrics collected since programme start\n\
         # TYPE glow_metric_collection_count counter\n\
         glow_metric_collection_count 0\n"
    );
}

#[test]
fn metrics_are_registered_once() {
    let mut metrics = create_metrics().unwrap();
    assert!(register_metrics(&mut metrics).is_ok());
    let mut known = None;
    handle_publish(sensor(Some(meter("1", "s", 0.857))), &mut metrics, &mut known);
    let before = text(&metrics);
    assert!(before.contains("glow_metric_collection_count 1\n"));
    assert!(matches!(register_metrics(&mut metrics), Err(MetricsError::AlreadyReg)));
    assert_eq!(text(&metrics), before);
    assert!(matches!(register_metrics(&mut metrics), Err(MetricsError::AlreadyReg)));
    handle_publish(sensor(None), &mut metrics, &mut known);
    assert_eq!(text(&metrics), before.replace("count 1\n", "count 2\n"));
}

#[test]
fn metrics_that_are_not_registered_are_not_exported() {
    let mut metrics = create_metrics().unwrap();
    let mut known = None;
    let mut cache = "old".to_string();
    export_metrics(&metrics, &mut cache);
    assert_eq!(cache, "");
    handle_publish(sensor(Some(meter("1", "s", 0.857))), &mut metrics, &mut known);
    cache = "old".to_string();
    export_metrics(&metrics, &mut cache);
    assert_eq!(cache, "");
}

#[test]
fn readings_from_before_the_registration_show() {
    let mut metrics = create_metrics().unwrap();
    let mut known = None;
    handle_publish(sensor(Some(meter("1", "s", 0.857))), &mut metrics, &mut known);
    register_metrics(&mut metrics).unwrap();
    let found = lines(&metrics);
    assert!(found.contains(&r#"glow_current_power_watts{mpan="1"} 857"#.to_string()));
    assert!(found.contains(&"glow_metric_collection_count 1".to_string()));
    assert_eq!(found.len(), 8);
}

#[test]
fn registries_do_not_share_metrics() {
    let mut one = registered();
    let other = registered();
    handle_publish(sensor(None), &mut one, &mut None);
    assert_eq!(lines(&one), ["glow_metric_collection_count 1"]);
    assert_eq!(lines(&other), ["glow_metric_collection_count 0"]);
}

#[test]
fn similar_meters_are_kept_apart() {
    let mut metrics = registered();
    let mut known = None;
    handle_publish(sensor(Some(meter("1200012345678", "Ökostrom", 0.1))), &mut metrics, &mut known);
    handle_publish(sensor(Some(meter("1200012345679", "Ökostrom", 0.2))), &mut metrics, &mut known);
    let found = lines(&metrics);
    assert_eq!(found.len(), 15);
    assert!(found.contains(&r#"glow_current_power_watts{mpan="1200012345678"} 100"#.to_string()));
    assert!(found.contains(&r#"glow_current_power_watts{mpan="1200012345679"} 200"#.to_string()));
}

#[test]
fn readings_are_exported() {
    let mut metrics = registered();
    let mut known = None;
    let next = handle_publish(
        sensor(Some(meter("1200012345678", "Octopus \"Energy\"", 0.857))),
        &mut metrics,
        &mut known,
    );
    assert_eq!(next, FollowUp::ExportMetrics);
    assert!(known.is_none());
    assert_eq!(
        text(&metrics),
        r##"# HELP glow_cumulative_energy_day_watt_hours Cumulative energy - day (Wh)
# TYPE glow_cumulative_energy_day_watt_hours gauge
glow_cumulative_energy_day_watt_hours{mpan="1200012345678"} 13252
# HELP glow_cumulative_energy_month_watt_hours Cumulative energy - month (Wh)
# TYPE glow_cumulative_energy_month_watt_hours gauge
glow_cumulative_energy_month_watt_hours{mpan="1200012345678"} 293052
# HELP glow_cumulative_energy_week_watt_hours Cumulative energy - week (Wh)
# TYPE glow_cumulative_energy_week_watt_hours gauge
glow_cumulative_energy_week_watt_hours{mpan="1200012345678"} 141710
# HELP glow_current_power_watts Current meter power (W)
# TYPE glow_current_power_watts gauge
glow_current_power_watts{mpan="1200012345678"} 857
# HELP glow_import_standing_charge_centipence Standing charge (centipence)
# TYPE glow_import_standing_charge_centipence gauge
glow_import_standing_charge_centipence{mpan="1200012345678",supplier="Octopus \"Energy\""} 222
# HELP glow_import_unit_price_centipence Cost per unit/kWh (centipence)
# TYPE glow_import_unit_price_centipence gauge
glow_import_unit_price_centipence{mpan="1200012345678",supplier="Octopus \"Energy\""} 154
# HELP glow_metric_collection_count Number of times metrics collected since programme start
# TYPE glow_metric_collection_count counter
glow_metric_collection_count 1
# HELP glow_total_energy_watt_hours Cumulative energy (Wh)
# TYPE glow_total_energy_watt_hours gauge
glow_total_energy_watt_hours{mpan="1200012345678"} 6613405
"##
    );
}

#[test]
fn messages_without_a_meter_are_counted() {
    let mut metrics = registered();
    let mut known = None;
    assert_eq!(handle_publish(sensor(None), &mut metrics, &mut known), FollowUp::ExportMetrics);
    assert_eq!(handle_publish(sensor(None), &mut metrics, &mut known), FollowUp::ExportMetrics);
    assert_eq!(lines(&metrics), ["glow_metric_collection_count 2"]);
}

#[test]
fn later_readings_replace_earlier_ones() {
    let mut metrics = registered();
    let mut known = None;
    handle_publish(sensor(Some(meter("1", "s", 0.857))), &mut metrics, &mut known);
    handle_publish(sensor(Some(meter("1", "s", 1.2))), &mut metrics, &mut known);
    let found = lines(&metrics);
    assert!(found.contains(&r#"glow_current_power_watts{mpan="1"} 1200"#.to_string()));
    assert_eq!(found.len(), 8);
    assert!(found.contains(&"glow_metric_collection_count 2".to_string()));
}

#[test]
fn repeated_messages_change_only_the_count() {
    let mut metrics = registered();
    let mut known = None;
    handle_publish(sensor(Some(meter("1", "s", 0.857))), &mut metrics, &mut known);
    let once = text(&metrics);
    handle_publish(sensor(Some(meter("1", "s", 0.857))), &mut metrics, &mut known);
    let twice = text(&metrics);
    assert_eq!(twice, once.replace("collection_count 1\n", "collection_count 2\n"));
}

#[test]
fn meters_are_kept_apart() {
    let mut metrics = registered();
    let mut known = None;
    handle_publish(sensor(Some(meter("1", "s", 0.857))), &mut metrics, &mut known);
    handle_publish(sensor(Some(meter("2", "s", -0.5))), &mut metrics, &mut known);
    let found = lines(&metrics);
    assert!(found.contains(&r#"glow_current_power_watts{mpan="1"} 857"#.to_string()));
    assert!(found.contains(&r#"glow_current_power_watts{mpan="2"} -500"#.to_string()));
}

#[test]
fn meters_can_come_in_either_order() {
    let mut known = None;
    let mut forth = registered();
    handle_publish(sensor(Some(meter("1", "s", 0.857))), &mut forth, &mut known);
    handle_publish(sensor(Some(meter("2", "t", 0.1))), &mut forth, &mut known);
    let mut back = registered();
    handle_publish(sensor(Some(meter("2", "t", 0.1))), &mut back, &mut known);
    handle_publish(sensor(Some(meter("1", "s", 0.857))), &mut back, &mut known);
    assert_eq!(text(&forth), text(&back));
}

#[test]
fn series_go_by_the_label_values_written_one_after_the_other() {
    let mut metrics = registered();
    let mut known = None;
    let mut second = meter("a", "bc", 0.2);
    second.energy.import.price.unitrate = reading(0.5);
    handle_publish(sensor(Some(meter("ab", "c", 0.1))), &mut metrics, &mut known);
    handle_publish(sensor(Some(second)), &mut metrics, &mut known);
    let found: Vec<String> =
        lines(&metrics).into_iter().filter(|l| l.starts_with("glow_import_unit_price")).collect();
    assert_eq!(found, [r#"glow_import_unit_price_centipence{mpan="ab",supplier="c"} 500"#]);
}

#[test]
fn state_messages_replace_what_is_known() {
    let mut metrics = registered();
    let before = text(&metrics);
    let mut known = None;
    assert_eq!(handle_publish(state_packet("1"), &mut metrics, &mut known), FollowUp::Nothing);
    assert_eq!(known, Some(state("1")));
    assert_eq!(handle_publish(state_packet("2"), &mut metrics, &mut known), FollowUp::Nothing);
    handle_publish(sensor(None), &mut metrics, &mut known);
    assert_eq!(known, Some(state("2")));
    assert_eq!(text(&metrics), before.replace("count 0", "count 1"));
}

#[test]
fn sensor_page() {
    let unknown = None;
    let r = routes::sensorpage(&unknown);
    assert_eq!(r.status, 404);
    assert_eq!(r.content_type, None);
    assert_eq!(r.body, Body::Text("sensor data not collected yet"));
    let known = Some(state("1"));
    let r = routes::sensorpage(&known);
    assert_eq!(r.status, 200);
    assert_eq!(r.body, Body::Json(&state("1")));
}

#[test]
fn metrics_page() {
    let cache = initial_cache();
    assert_eq!(cache, "# metrics will be available soon");
    let r = routes::metrics(&cache);
    assert_eq!(r.status, 200);
    assert_eq!(r.content_type, Some("text/plain; version=0.0.4"));
    assert_eq!(r.body, Body::Text("# metrics will be available soon"));
}

#[test]
fn metrics_page_shows_the_last_export() {
    let mut metrics = registered();
    let mut cache = initial_cache();
    let mut known = None;
    handle_publish(sensor(Some(meter("1", "s", 2.0))), &mut metrics, &mut known);
    assert_eq!(routes::metrics(&cache).body, Body::Text("# metrics will be available soon"));
    export_metrics(&metrics, &mut cache);
    let Body::Text(page) = routes::metrics(&cache).body else { panic!("no text") };
    assert!(page.contains("glow_current_power_watts{mpan=\"1\"} 2000\n"));
}

#[test]
fn index_page() {
    let r = routes::index("<html></html>");
    assert_eq!(r.status, 200);
    assert_eq!(r.content_type, None);
    assert_eq!(r.body, Body::Text("<html></html>"));
}

#[test]
fn sensor_messages_ask_for_vibration() {
    let packet = sensor(Some(meter("1", "s", 0.25))).packet;
    assert_eq!(f64::from_bits(vibration(&packet).unwrap().bits), 0.2);
}
