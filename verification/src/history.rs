//! What holds of the metrics and of the state over many messages.
use crate::fnv::one_different_character_changes_the_key;
use crate::fnv::series_key;
use crate::glow::GlowPacket;
use crate::glow::Sensor;
use crate::glow::SensorElectricityMeter;
use crate::glow::State;
use crate::metrics::after_sensor;
use crate::metrics::metric_names;
use crate::metrics::metrics_after;
use crate::metrics::nothing_collected;
use crate::metrics::state_after;
use crate::metrics::store_of;
use crate::metrics::with_meter;
use crate::metrics::MetricsModel;
use crate::reading::Reading;
use crate::rounding::rounded;
use crate::store::Series;
use vstd::arithmetic::div_mod::lemma_div_pos_is_pos;
use vstd::arithmetic::power2::lemma_pow2_pos;
use vstd::arithmetic::power2::pow2;
use vstd::prelude::*;

verus! {

/// The metrics after a number of messages.
pub open spec fn metrics_after_all(m: MetricsModel, packets: Seq<GlowPacket>) -> MetricsModel
    decreases packets.len(),
{
    if packets.len() == 0 {
        m
    } else {
        metrics_after(metrics_after_all(m, packets.drop_last()), packets.last())
    }
}

/// What is known of the display after a number of messages.
pub open spec fn state_after_all(known: Option<State>, packets: Seq<GlowPacket>) -> Option<State>
    decreases packets.len(),
{
    if packets.len() == 0 {
        known
    } else {
        state_after(state_after_all(known, packets.drop_last()), packets.last())
    }
}

/// How many of the messages are sensor messages.
pub open spec fn sensor_messages(packets: Seq<GlowPacket>) -> nat {
    packets.filter(|p: GlowPacket| p is Sensor).len()
}

/// The key of the series that are kept per meter.
pub open spec fn meter_key(meter: SensorElectricityMeter) -> u64 {
    series_key(meter.energy.import.mpan@)
}

/// The key of the series that are kept per meter and supplier.
pub open spec fn price_key(meter: SensorElectricityMeter) -> u64 {
    series_key(meter.energy.import.mpan@ + meter.energy.import.supplier@)
}

/// Whether the value of the series under a key is a reading in thousandths.
pub open spec fn shows(series: Series, key: u64, reading: Reading) -> bool {
    series.contains_key(key) && series[key].1 == reading.in_thousandths()
}

/// Whether the metrics show the power and the energy that a meter reports.
pub open spec fn shows_energy(m: MetricsModel, meter: SensorElectricityMeter) -> bool {
    let import = meter.energy.import;
    &&& shows(m.current_power, meter_key(meter), meter.power.value)
    &&& shows(m.total_energy, meter_key(meter), import.cumulative)
    &&& shows(m.cumulative_energy_day, meter_key(meter), import.day)
    &&& shows(m.cumulative_energy_week, meter_key(meter), import.week)
    &&& shows(m.cumulative_energy_month, meter_key(meter), import.month)
}

/// Whether the metrics show the prices that a meter reports.
pub open spec fn shows_prices(m: MetricsModel, meter: SensorElectricityMeter) -> bool {
    let price = meter.energy.import.price;
    &&& shows(m.import_unit_price, price_key(meter), price.unitrate)
    &&& shows(m.import_price_standing_charge, price_key(meter), price.standingcharge)
}

/// Whether two metrics have the same series under a key.
pub open spec fn same_under(a: Series, b: Series, key: u64) -> bool {
    (a.contains_key(key) <==> b.contains_key(key)) && a[key] == b[key]
}

proof fn lemma_keys(meter: SensorElectricityMeter)
    ensures
        series_key(seq![meter.energy.import.mpan@].flatten()) == meter_key(meter),
        series_key(
            seq![meter.energy.import.mpan@, meter.energy.import.supplier@].flatten(),
        ) == price_key(meter),
{
    let mpan = meter.energy.import.mpan@;
    let supplier = meter.energy.import.supplier@;
    seq![mpan].lemma_flatten_one_element();
    assert(seq![mpan, supplier].drop_first() =~= seq![supplier]);
    seq![supplier].lemma_flatten_one_element();
}

proof fn lemma_thousandths_fit(reading: Reading)
    ensures
        i64::MIN <= reading.in_thousandths() <= i64::MAX,
{
    lemma_pow2_pos(1074);
    lemma_div_pos_is_pos(rounded(1000 * reading.units(), 0) as int, pow2(1074) as int);
}

/// Every reading of a meter shows, in thousandths, under the meter it is of.
pub proof fn readings_show_under_their_meter(m: MetricsModel, meter: SensorElectricityMeter)
    ensures
        shows_energy(with_meter(m, meter), meter),
        shows_prices(with_meter(m, meter), meter),
{
    lemma_keys(meter);
    let import = meter.energy.import;
    lemma_thousandths_fit(meter.power.value);
    lemma_thousandths_fit(import.cumulative);
    lemma_thousandths_fit(import.day);
    lemma_thousandths_fit(import.week);
    lemma_thousandths_fit(import.month);
    lemma_thousandths_fit(import.price.unitrate);
    lemma_thousandths_fit(import.price.standingcharge);
}

/// In what is exported, every metric carries the reading that its name promises.
pub proof fn exported_metrics_carry_their_readings(m: MetricsModel, meter: SensorElectricityMeter)
    ensures
        ({
            let gauges = store_of(with_meter(m, meter), true).gauges;
            let import = meter.energy.import;
            &&& gauges.len() == 7
            &&& gauges[0].name == "current_power_watts"@ && shows(
                gauges[0].series,
                meter_key(meter),
                meter.power.value,
            )
            &&& gauges[1].name == "total_energy_watt_hours"@ && shows(
                gauges[1].series,
                meter_key(meter),
                import.cumulative,
            )
            &&& gauges[2].name == "cumulative_energy_day_watt_hours"@ && shows(
                gauges[2].series,
                meter_key(meter),
                import.day,
            )
            &&& gauges[3].name == "cumulative_energy_week_watt_hours"@ && shows(
                gauges[3].series,
                meter_key(meter),
                import.week,
            )
            &&& gauges[4].name == "cumulative_energy_month_watt_hours"@ && shows(
                gauges[4].series,
                meter_key(meter),
                import.month,
            )
            &&& gauges[5].name == "import_unit_price_centipence"@ && shows(
                gauges[5].series,
                price_key(meter),
                import.price.unitrate,
            )
            &&& gauges[6].name == "import_standing_charge_centipence"@ && shows(
                gauges[6].series,
                price_key(meter),
                import.price.standingcharge,
            )
        }),
{
    readings_show_under_their_meter(m, meter);
}

/// The readings of one meter leave the series of all others as they were.
pub proof fn other_meters_are_left_alone(
    m: MetricsModel,
    meter: SensorElectricityMeter,
    key: u64,
)
    ensures
        ({
            let after = with_meter(m, meter);
            &&& key != meter_key(meter) ==> {
                &&& same_under(after.current_power, m.current_power, key)
                &&& same_under(after.total_energy, m.total_energy, key)
                &&& same_under(after.cumulative_energy_day, m.cumulative_energy_day, key)
                &&& same_under(after.cumulative_energy_week, m.cumulative_energy_week, key)
                &&& same_under(after.cumulative_energy_month, m.cumulative_energy_month, key)
            }
            &&& key != price_key(meter) ==> {
                &&& same_under(after.import_unit_price, m.import_unit_price, key)
                &&& same_under(
                    after.import_price_standing_charge,
                    m.import_price_standing_charge,
                    key,
                )
            }
        }),
{
    lemma_keys(meter);
}

/// Meters whose numbers have the same length and differ in one character of ASCII are kept
/// apart: the power and energy of both show. So do their prices, if the supplier is the same.
pub proof fn similar_meters_are_kept_apart(
    m: MetricsModel,
    a: SensorElectricityMeter,
    b: SensorElectricityMeter,
    i: int,
)
    requires
        a.energy.import.mpan@.len() == b.energy.import.mpan@.len(),
        0 <= i < a.energy.import.mpan@.len(),
        '\0' <= a.energy.import.mpan@[i] <= '\x7f',
        '\0' <= b.energy.import.mpan@[i] <= '\x7f',
        a.energy.import.mpan@[i] != b.energy.import.mpan@[i],
        forall|j: int|
            0 <= j < a.energy.import.mpan@.len() && j != i ==> a.energy.import.mpan@[j]
                == b.energy.import.mpan@[j],
    ensures
        ({
            let after = with_meter(with_meter(m, a), b);
            &&& meter_key(a) != meter_key(b)
            &&& shows_energy(after, a)
            &&& shows_energy(after, b)
            &&& shows_prices(after, b)
            &&& a.energy.import.supplier@ == b.energy.import.supplier@ ==> price_key(a)
                != price_key(b) && shows_prices(after, a)
        }),
{
    let s = a.energy.import.mpan@;
    let t = b.energy.import.mpan@;
    let supplier = a.energy.import.supplier@;
    one_different_character_changes_the_key(s, t, i);
    one_different_character_changes_the_key(s + supplier, t + supplier, i);
    readings_show_under_their_meter(m, a);
    readings_show_under_their_meter(with_meter(m, a), b);
    other_meters_are_left_alone(with_meter(m, a), b, meter_key(a));
    other_meters_are_left_alone(with_meter(m, a), b, price_key(a));
}

/// Taking in the same sensor message once more changes nothing but the count.
pub proof fn a_repeated_message_only_counts(m: MetricsModel, sensor: Sensor)
    ensures
        ({
            let once = after_sensor(m, sensor);
            let twice = after_sensor(once, sensor);
            twice == (MetricsModel { collect_count: twice.collect_count, ..once })
        }),
{
    let once = after_sensor(m, sensor);
    let twice = after_sensor(once, sensor);
    assert(twice =~= (MetricsModel { collect_count: twice.collect_count, ..once }));
}

/// Messages of meters that are told apart can be taken in either order.
pub proof fn meters_do_not_depend_on_order(
    m: MetricsModel,
    a: SensorElectricityMeter,
    b: SensorElectricityMeter,
)
    requires
        meter_key(a) != meter_key(b),
        price_key(a) != price_key(b),
    ensures
        with_meter(with_meter(m, a), b) == with_meter(with_meter(m, b), a),
{
    lemma_keys(a);
    lemma_keys(b);
    assert(with_meter(with_meter(m, a), b) =~= with_meter(with_meter(m, b), a));
}

/// No message takes a series away.
pub proof fn series_stay(m: MetricsModel, packet: GlowPacket)
    ensures
        ({
            let after = metrics_after(m, packet);
            &&& m.current_power.dom() <= after.current_power.dom()
            &&& m.total_energy.dom() <= after.total_energy.dom()
            &&& m.cumulative_energy_day.dom() <= after.cumulative_energy_day.dom()
            &&& m.cumulative_energy_week.dom() <= after.cumulative_energy_week.dom()
            &&& m.cumulative_energy_month.dom() <= after.cumulative_energy_month.dom()
            &&& m.import_unit_price.dom() <= after.import_unit_price.dom()
            &&& m.import_price_standing_charge.dom() <= after.import_price_standing_charge.dom()
        }),
{
}

/// The collection count is the number of sensor messages since the start, as far as the
/// counter can count.
pub proof fn the_count_is_the_number_of_sensor_messages(packets: Seq<GlowPacket>)
    ensures
        metrics_after_all(nothing_collected(), packets).collect_count == (if sensor_messages(
            packets,
        ) < 0x20_0000_0000_0000 {
            sensor_messages(packets)
        } else {
            0x20_0000_0000_0000
        }),
    decreases packets.len(),
{
    reveal(Seq::filter);
    if packets.len() > 0 {
        the_count_is_the_number_of_sensor_messages(packets.drop_last());
    }
}

/// What is known of the display is what its latest state message said, and nothing before
/// the first one. Sensor messages do not matter.
pub proof fn the_latest_state_is_known(packets: Seq<GlowPacket>)
    ensures
        match state_after_all(None, packets) {
            None => forall|i: int| 0 <= i < packets.len() ==> (#[trigger] packets[i]) is Sensor,
            Some(state) => exists|i: int|
                0 <= i < packets.len() && (#[trigger] packets[i]) == GlowPacket::State(state)
                    && forall|j: int| i < j < packets.len() ==> (#[trigger] packets[j]) is Sensor,
        },
    decreases packets.len(),
{
    if packets.len() > 0 {
        let before = packets.drop_last();
        let n = packets.len() - 1;
        the_latest_state_is_known(before);
        assert(forall|i: int| 0 <= i < n ==> before[i] == #[trigger] packets[i]);
        match packets.last() {
            GlowPacket::State(state) => {
                assert(packets[n] == GlowPacket::State(state));
            },
            GlowPacket::Sensor(_) => {
                if let Some(state) = state_after_all(None, before) {
                    let i = choose|i: int|
                        0 <= i < n && (#[trigger] before[i]) == GlowPacket::State(state)
                            && forall|j: int| i < j < n ==> (#[trigger] before[j]) is Sensor;
                    assert(packets[i] == GlowPacket::State(state));
                }
            },
        }
    }
}

/// A sensor message with readings of a meter sets all seven gauges, whatever else it says:
/// power and energy under the number of the meter, prices under that number and the supplier.
/// A new series carries these as its labels, one that is there already keeps its own, and all
/// other series stay as they were.
pub proof fn a_sensor_message_sets_every_gauge(
    m: MetricsModel,
    sensor: Sensor,
    meter: SensorElectricityMeter,
)
    requires
        sensor.electricitymeter == Some(meter),
    ensures
        ({
            let import = meter.energy.import;
            let after = metrics_after(m, GlowPacket::Sensor(sensor));
            let by_meter = series_key(import.mpan@);
            let by_supplier = series_key(import.mpan@ + import.supplier@);
            let takes = |
                earlier: Series,
                later: Series,
                key: u64,
                labels: Seq<Seq<char>>,
                reading: Reading,
            |
                {
                    &&& later.dom() == earlier.dom().insert(key)
                    &&& later[key].1 == reading.in_thousandths()
                    &&& !earlier.contains_key(key) ==> later[key].0 == labels
                    &&& earlier.contains_key(key) ==> later[key].0 == earlier[key].0
                    &&& forall|other: u64|
                        other != key ==> #[trigger] later[other] == earlier[other]
                };
            &&& takes(
                m.current_power,
                after.current_power,
                by_meter,
                seq![import.mpan@],
                meter.power.value,
            )
            &&& takes(
                m.total_energy,
                after.total_energy,
                by_meter,
                seq![import.mpan@],
                import.cumulative,
            )
            &&& takes(
                m.cumulative_energy_day,
                after.cumulative_energy_day,
                by_meter,
                seq![import.mpan@],
                import.day,
            )
            &&& takes(
                m.cumulative_energy_week,
                after.cumulative_energy_week,
                by_meter,
                seq![import.mpan@],
                import.week,
            )
            &&& takes(
                m.cumulative_energy_month,
                after.cumulative_energy_month,
                by_meter,
                seq![import.mpan@],
                import.month,
            )
            &&& takes(
                m.import_unit_price,
                after.import_unit_price,
                by_supplier,
                seq![import.mpan@, import.supplier@],
                import.price.unitrate,
            )
            &&& takes(
                m.import_price_standing_charge,
                after.import_price_standing_charge,
                by_supplier,
                seq![import.mpan@, import.supplier@],
                import.price.standingcharge,
            )
        }),
{
    let import = meter.energy.import;
    let after = metrics_after(m, GlowPacket::Sensor(sensor));
    lemma_keys(meter);
    lemma_thousandths_fit(meter.power.value);
    lemma_thousandths_fit(import.cumulative);
    lemma_thousandths_fit(import.day);
    lemma_thousandths_fit(import.week);
    lemma_thousandths_fit(import.month);
    lemma_thousandths_fit(import.price.unitrate);
    lemma_thousandths_fit(import.price.standingcharge);
    let by_meter = meter_key(meter);
    let by_supplier = price_key(meter);
    assert(after.current_power.dom() =~= m.current_power.dom().insert(by_meter));
    assert(after.total_energy.dom() =~= m.total_energy.dom().insert(by_meter));
    assert(after.cumulative_energy_day.dom() =~= m.cumulative_energy_day.dom().insert(by_meter));
    assert(after.cumulative_energy_week.dom() =~= m.cumulative_energy_week.dom().insert(by_meter));
    assert(after.cumulative_energy_month.dom() =~= m.cumulative_energy_month.dom().insert(
        by_meter,
    ));
    assert(after.import_unit_price.dom() =~= m.import_unit_price.dom().insert(by_supplier));
    assert(after.import_price_standing_charge.dom() =~= m.import_price_standing_charge.dom().insert(
        by_supplier,
    ));
}

/// After a sensor message with readings of a meter, the metrics show all of them.
pub proof fn a_sensor_message_shows_every_reading(
    m: MetricsModel,
    sensor: Sensor,
    meter: SensorElectricityMeter,
)
    requires
        sensor.electricitymeter == Some(meter),
    ensures
        shows_energy(metrics_after(m, GlowPacket::Sensor(sensor)), meter),
        shows_prices(metrics_after(m, GlowPacket::Sensor(sensor)), meter),
{
    readings_show_under_their_meter(m, meter);
}

/// Every sensor message is counted once, and one without readings of a meter changes nothing
/// else.
pub proof fn a_sensor_message_is_counted_once(m: MetricsModel, sensor: Sensor)
    ensures
        ({
            let after = metrics_after(m, GlowPacket::Sensor(sensor));
            &&& m.collect_count < 0x20_0000_0000_0000 ==> after.collect_count == m.collect_count + 1
            &&& m.collect_count >= 0x20_0000_0000_0000 ==> after.collect_count == m.collect_count
            &&& sensor.electricitymeter is None ==> after.current_power == m.current_power
                && after.total_energy == m.total_energy && after.cumulative_energy_day
                == m.cumulative_energy_day && after.cumulative_energy_week
                == m.cumulative_energy_week && after.cumulative_energy_month
                == m.cumulative_energy_month && after.import_unit_price == m.import_unit_price
                && after.import_price_standing_charge == m.import_price_standing_charge
        }),
{
}

/// What else a meter reports makes no difference: neither the time of the readings, nor the
/// energy that was exported, nor the names of the units.
pub proof fn only_the_readings_count(
    m: MetricsModel,
    a: SensorElectricityMeter,
    b: SensorElectricityMeter,
)
    requires
        a.power.value == b.power.value,
        a.energy.import.cumulative == b.energy.import.cumulative,
        a.energy.import.day == b.energy.import.day,
        a.energy.import.week == b.energy.import.week,
        a.energy.import.month == b.energy.import.month,
        a.energy.import.mpan@ == b.energy.import.mpan@,
        a.energy.import.supplier@ == b.energy.import.supplier@,
        a.energy.import.price == b.energy.import.price,
    ensures
        metrics_after(m, GlowPacket::Sensor(Sensor { electricitymeter: Some(a) })) == metrics_after(
            m,
            GlowPacket::Sensor(Sensor { electricitymeter: Some(b) }),
        ),
{
}

/// A state message leaves the metrics as they were and replaces what is known of the display;
/// with a sensor message, what is known stays.
pub proof fn state_messages_only_replace_the_state(
    m: MetricsModel,
    known: Option<State>,
    state: State,
    sensor: Sensor,
)
    ensures
        metrics_after(m, GlowPacket::State(state)) == m,
        state_after(known, GlowPacket::State(state)) == Some(state),
        state_after(known, GlowPacket::Sensor(sensor)) == known,
{
}

/// Messages are taken in one after the other.
pub proof fn messages_are_taken_in_one_by_one(
    m: MetricsModel,
    known: Option<State>,
    packets: Seq<GlowPacket>,
    packet: GlowPacket,
)
    ensures
        metrics_after_all(m, Seq::empty()) == m,
        metrics_after_all(m, packets.push(packet)) == metrics_after(
            metrics_after_all(m, packets),
            packet,
        ),
        state_after_all(known, Seq::empty()) == known,
        state_after_all(known, packets.push(packet)) == state_after(
            state_after_all(known, packets),
            packet,
        ),
{
    assert(packets.push(packet).drop_last() =~= packets);
}

/// The metrics depend on the sensor messages alone: without the state messages between them
/// they would be the same.
pub proof fn metrics_depend_on_sensor_messages_alone(m: MetricsModel, packets: Seq<GlowPacket>)
    ensures
        metrics_after_all(m, packets) == metrics_after_all(
            m,
            packets.filter(|p: GlowPacket| p is Sensor),
        ),
    decreases packets.len(),
{
    reveal(Seq::filter);
    if packets.len() > 0 {
        let before = packets.drop_last();
        let kept = before.filter(|p: GlowPacket| p is Sensor);
        metrics_depend_on_sensor_messages_alone(m, before);
        if packets.last() is Sensor {
            messages_are_taken_in_one_by_one(m, None, kept, packets.last());
        }
    }
}

/// Every metric goes by its own name, help text and labels, holds what is kept of it, and is
/// registered if the metrics are.
pub proof fn metrics_are_described(m: MetricsModel, registered: bool)
    ensures
        ({
            let store = store_of(m, registered);
            let gauges = store.gauges;
            let counters = store.counters;
            &&& store.namespace == "glow"@
            &&& gauges.len() == 7
            &&& counters.len() == 1
            &&& metric_names().len() == 8
            &&& gauges[0].name == "current_power_watts"@
            &&& metric_names()[0] == "current_power_watts"@
            &&& gauges[0].help == "Current meter power (W)"@
            &&& gauges[0].labels == seq!["mpan"@]
            &&& gauges[0].series == m.current_power
            &&& gauges[0].registered == registered
            &&& gauges[1].name == "total_energy_watt_hours"@
            &&& metric_names()[1] == "total_energy_watt_hours"@
            &&& gauges[1].help == "Cumulative energy (Wh)"@
            &&& gauges[1].labels == seq!["mpan"@]
            &&& gauges[1].series == m.total_energy
            &&& gauges[1].registered == registered
            &&& gauges[2].name == "cumulative_energy_day_watt_hours"@
            &&& metric_names()[2] == "cumulative_energy_day_watt_hours"@
            &&& gauges[2].help == "Cumulative energy - day (Wh)"@
            &&& gauges[2].labels == seq!["mpan"@]
            &&& gauges[2].series == m.cumulative_energy_day
            &&& gauges[2].registered == registered
            &&& gauges[3].name == "cumulative_energy_week_watt_hours"@
            &&& metric_names()[3] == "cumulative_energy_week_watt_hours"@
            &&& gauges[3].help == "Cumulative energy - week (Wh)"@
            &&& gauges[3].labels == seq!["mpan"@]
            &&& gauges[3].series == m.cumulative_energy_week
            &&& gauges[3].registered == registered
            &&& gauges[4].name == "cumulative_energy_month_watt_hours"@
            &&& metric_names()[4] == "cumulative_energy_month_watt_hours"@
            &&& gauges[4].help == "Cumulative energy - month (Wh)"@
            &&& gauges[4].labels == seq!["mpan"@]
            &&& gauges[4].series == m.cumulative_energy_month
            &&& gauges[4].registered == registered
            &&& gauges[5].name == "import_unit_price_centipence"@
            &&& metric_names()[5] == "import_unit_price_centipence"@
            &&& gauges[5].help == "Cost per unit/kWh (centipence)"@
            &&& gauges[5].labels == seq!["mpan"@, "supplier"@]
            &&& gauges[5].series == m.import_unit_price
            &&& gauges[5].registered == registered
            &&& gauges[6].name == "import_standing_charge_centipence"@
            &&& metric_names()[6] == "import_standing_charge_centipence"@
            &&& gauges[6].help == "Standing charge (centipence)"@
            &&& gauges[6].labels == seq!["mpan"@, "supplier"@]
            &&& gauges[6].series == m.import_price_standing_charge
            &&& gauges[6].registered == registered
            &&& counters[0].name == "metric_collection_count"@ && metric_names()[7]
                == "metric_collection_count"@
            &&& counters[0].help == "Number of times metrics collected since programme start"@
            &&& counters[0].value == m.collect_count
            &&& counters[0].registered == registered
        }),
{
}

} // verus!
