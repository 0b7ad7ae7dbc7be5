//! The metrics that are kept of the meter readings.
use crate::fnv::metric_key;
use crate::fnv::series_key;
use crate::glow::GlowPacket;
use crate::glow::Packet;
use crate::glow::Sensor;
use crate::glow::SensorElectricityMeter;
use crate::glow::State;
use crate::keys::metrics_are_told_apart;
use crate::reading::Reading;
use crate::store::contents;
use crate::store::exposition;
use crate::store::is_description;
use crate::store::one_more;
use crate::store::with_value;
use crate::store::words;
use crate::store::CounterModel;
use crate::store::GaugeModel;
use crate::store::MetricsError;
use crate::store::Series;
use crate::store::Store;
use crate::store::StoreModel;
use vstd::prelude::*;

verus! {

/// What the metrics hold.
#[verifier::ext_equal]
pub struct MetricsModel {
    pub current_power: Series,
    pub total_energy: Series,
    pub cumulative_energy_day: Series,
    pub cumulative_energy_week: Series,
    pub cumulative_energy_month: Series,
    pub import_unit_price: Series,
    pub import_price_standing_charge: Series,
    pub collect_count: nat,
}

/// The label of the metrics that are kept per meter.
pub open spec fn meter_labels() -> Seq<Seq<char>> {
    seq!["mpan"@]
}

/// The labels of the metrics that are kept per meter and supplier.
pub open spec fn price_labels() -> Seq<Seq<char>> {
    seq!["mpan"@, "supplier"@]
}

/// The gauge metrics, described, with the given contents.
pub open spec fn gauges_of(m: MetricsModel, registered: bool) -> Seq<GaugeModel> {
    seq![
        GaugeModel {
            name: "current_power_watts"@,
            help: "Current meter power (W)"@,
            labels: meter_labels(),
            registered,
            series: m.current_power,
        },
        GaugeModel {
            name: "total_energy_watt_hours"@,
            help: "Cumulative energy (Wh)"@,
            labels: meter_labels(),
            registered,
            series: m.total_energy,
        },
        GaugeModel {
            name: "cumulative_energy_day_watt_hours"@,
            help: "Cumulative energy - day (Wh)"@,
            labels: meter_labels(),
            registered,
            series: m.cumulative_energy_day,
        },
        GaugeModel {
            name: "cumulative_energy_week_watt_hours"@,
            help: "Cumulative energy - week (Wh)"@,
            labels: meter_labels(),
            registered,
            series: m.cumulative_energy_week,
        },
        GaugeModel {
            name: "cumulative_energy_month_watt_hours"@,
            help: "Cumulative energy - month (Wh)"@,
            labels: meter_labels(),
            registered,
            series: m.cumulative_energy_month,
        },
        GaugeModel {
            name: "import_unit_price_centipence"@,
            help: "Cost per unit/kWh (centipence)"@,
            labels: price_labels(),
            registered,
            series: m.import_unit_price,
        },
        GaugeModel {
            name: "import_standing_charge_centipence"@,
            help: "Standing charge (centipence)"@,
            labels: price_labels(),
            registered,
            series: m.import_price_standing_charge,
        },
    ]
}

/// The counter metric, described, with the given contents.
pub open spec fn counters_of(m: MetricsModel, registered: bool) -> Seq<CounterModel> {
    seq![
        CounterModel {
            name: "metric_collection_count"@,
            help: "Number of times metrics collected since programme start"@,
            registered,
            value: m.collect_count,
        },
    ]
}

/// All metrics, described, with the given contents; either all of them are registered or
/// none is.
pub open spec fn store_of(m: MetricsModel, registered: bool) -> StoreModel {
    StoreModel {
        namespace: "glow"@,
        gauges: gauges_of(m, registered),
        counters: counters_of(m, registered),
    }
}

/// The metrics at the start: no series, nothing collected.
pub open spec fn nothing_collected() -> MetricsModel {
    MetricsModel {
        current_power: Map::empty(),
        total_energy: Map::empty(),
        cumulative_energy_day: Map::empty(),
        cumulative_energy_week: Map::empty(),
        cumulative_energy_month: Map::empty(),
        import_unit_price: Map::empty(),
        import_price_standing_charge: Map::empty(),
        collect_count: 0,
    }
}

/// The names of all metrics.
pub open spec fn metric_names() -> Seq<Seq<char>> {
    seq![
        "current_power_watts"@,
        "total_energy_watt_hours"@,
        "cumulative_energy_day_watt_hours"@,
        "cumulative_energy_week_watt_hours"@,
        "cumulative_energy_month_watt_hours"@,
        "import_unit_price_centipence"@,
        "import_standing_charge_centipence"@,
        "metric_collection_count"@,
    ]
}

proof fn lemma_descriptions()
    ensures
        forall|i: int|
            0 <= i < 7 ==> {
                let gauge = #[trigger] gauges_of(nothing_collected(), false)[i];
                is_description(gauge.name, gauge.help, gauge.labels)
            },
        is_description(
            "metric_collection_count"@,
            "Number of times metrics collected since programme start"@,
            Seq::empty(),
        ),
        "glow"@.len() > 0,
{
    reveal_strlit("glow");
    reveal_strlit("mpan");
    reveal_strlit("supplier");
    reveal_strlit("current_power_watts");
    reveal_strlit("total_energy_watt_hours");
    reveal_strlit("cumulative_energy_day_watt_hours");
    reveal_strlit("cumulative_energy_week_watt_hours");
    reveal_strlit("cumulative_energy_month_watt_hours");
    reveal_strlit("import_unit_price_centipence");
    reveal_strlit("import_standing_charge_centipence");
    reveal_strlit("metric_collection_count");
    reveal_strlit("Current meter power (W)");
    reveal_strlit("Cumulative energy (Wh)");
    reveal_strlit("Cumulative energy - day (Wh)");
    reveal_strlit("Cumulative energy - week (Wh)");
    reveal_strlit("Cumulative energy - month (Wh)");
    reveal_strlit("Cost per unit/kWh (centipence)");
    reveal_strlit("Standing charge (centipence)");
    reveal_strlit("Number of times metrics collected since programme start");
    assert(meter_labels().no_duplicates());
    assert(price_labels().no_duplicates()) by {
        assert(price_labels()[0].len() != price_labels()[1].len());
    }
}

/// All metrics, described, with the given contents, the first `n` gauge metrics registered.
spec fn partly_registered(m: MetricsModel, n: int) -> StoreModel {
    let all = store_of(m, false);
    StoreModel {
        gauges: Seq::new(7, |i: int| GaugeModel { registered: i < n, ..all.gauges[i] }),
        ..all
    }
}

/// With the first `n` metrics registered, the key of the next one is free.
proof fn lemma_next_key_is_free(m: MetricsModel, n: int)
    requires
        0 <= n <= 7,
    ensures
        !partly_registered(m, n).has_key(metric_key(metric_names()[n])),
{
    let part = partly_registered(m, n);
    metrics_are_told_apart();
    assert forall|i: int| 0 <= i < 7 implies (#[trigger] part.gauges[i]).name
        == metric_names()[i] && part.gauges[i].registered == (i < n) by {}
}

/// The metrics that a registry knows are all of them, or none.
proof fn lemma_registered_part(m: MetricsModel)
    ensures
        store_of(m, true).registered_part() == store_of(m, true),
        store_of(m, false).registered_part().gauges.len() == 0,
        store_of(m, false).registered_part().counters.len() == 0,
{
    let all = store_of(m, true);
    let none = store_of(m, false);
    lemma_filter_all(all.gauges, |g: GaugeModel| g.registered);
    lemma_filter_all(all.counters, |c: CounterModel| c.registered);
    lemma_filter_none(none.gauges, |g: GaugeModel| g.registered);
    lemma_filter_none(none.counters, |c: CounterModel| c.registered);
    assert(all.registered_part() =~= all);
}

proof fn lemma_filter_all<A>(s: Seq<A>, keep: spec_fn(A) -> bool)
    requires
        forall|i: int| 0 <= i < s.len() ==> keep(#[trigger] s[i]),
    ensures
        s.filter(keep) == s,
    decreases s.len(),
{
    reveal(Seq::filter);
    if s.len() > 0 {
        lemma_filter_all(s.drop_last(), keep);
        assert(s.drop_last().push(s.last()) =~= s);
    }
}

proof fn lemma_filter_none<A>(s: Seq<A>, keep: spec_fn(A) -> bool)
    requires
        forall|i: int| 0 <= i < s.len() ==> !keep(#[trigger] s[i]),
    ensures
        s.filter(keep).len() == 0,
    decreases s.len(),
{
    reveal(Seq::filter);
    if s.len() > 0 {
        lemma_filter_none(s.drop_last(), keep);
    }
}

/// The metrics of the meter readings, with the registry that presents them.
pub struct Metrics {
    store: Store,
}

impl View for Metrics {
    type V = MetricsModel;

    closed spec fn view(&self) -> MetricsModel {
        let held = contents(self.store);
        MetricsModel {
            current_power: held.gauges[0].series,
            total_energy: held.gauges[1].series,
            cumulative_energy_day: held.gauges[2].series,
            cumulative_energy_week: held.gauges[3].series,
            cumulative_energy_month: held.gauges[4].series,
            import_unit_price: held.gauges[5].series,
            import_price_standing_charge: held.gauges[6].series,
            collect_count: held.counters[0].value,
        }
    }
}

impl Metrics {
    /// How many of the metrics the registry knows: all or none.
    pub closed spec fn registered(self) -> nat {
        if contents(self.store).counters[0].registered {
            8
        } else {
            0
        }
    }

    /// All metrics are there, described as they should be, and either all of them are
    /// registered or none is.
    pub closed spec fn wf(self) -> bool {
        contents(self.store) == store_of(self@, self.registered() == 8)
    }
}

/// Creates the metrics. The registry knows none of them yet.
pub fn create_metrics() -> (r: Result<Metrics, prometheus::Error>)
    ensures
        r is Ok,
        r->Ok_0.wf(),
        r->Ok_0@ == nothing_collected(),
        r->Ok_0@.current_power.dom() == Set::<u64>::empty(),
        r->Ok_0@.total_energy.dom() == Set::<u64>::empty(),
        r->Ok_0@.cumulative_energy_day.dom() == Set::<u64>::empty(),
        r->Ok_0@.cumulative_energy_week.dom() == Set::<u64>::empty(),
        r->Ok_0@.cumulative_energy_month.dom() == Set::<u64>::empty(),
        r->Ok_0@.import_unit_price.dom() == Set::<u64>::empty(),
        r->Ok_0@.import_price_standing_charge.dom() == Set::<u64>::empty(),
        r->Ok_0@.collect_count == 0,
        r->Ok_0.registered() == 0,
{
    proof {
        lemma_descriptions();
        let table = gauges_of(nothing_collected(), false);
        assert(table[0].name == "current_power_watts"@);
        assert(table[1].name == "total_energy_watt_hours"@);
        assert(table[2].name == "cumulative_energy_day_watt_hours"@);
        assert(table[3].name == "cumulative_energy_week_watt_hours"@);
        assert(table[4].name == "cumulative_energy_month_watt_hours"@);
        assert(table[5].name == "import_unit_price_centipence"@);
        assert(table[6].name == "import_standing_charge_centipence"@);
    }
    let meter: Vec<&str> = vec!["mpan"];
    let price: Vec<&str> = vec!["mpan", "supplier"];
    assert(words(meter@) =~= meter_labels());
    assert(words(price@) =~= price_labels());
    let mut store = Store::new_custom("glow")?;
    store.new_gauge("current_power_watts", "Current meter power (W)", &meter)?;
    store.new_gauge("total_energy_watt_hours", "Cumulative energy (Wh)", &meter)?;
    store.new_gauge("cumulative_energy_day_watt_hours", "Cumulative energy - day (Wh)", &meter)?;
    store.new_gauge("cumulative_energy_week_watt_hours", "Cumulative energy - week (Wh)", &meter)?;
    store.new_gauge(
        "cumulative_energy_month_watt_hours",
        "Cumulative energy - month (Wh)",
        &meter,
    )?;
    store.new_gauge("import_unit_price_centipence", "Cost per unit/kWh (centipence)", &price)?;
    store.new_gauge("import_standing_charge_centipence", "Standing charge (centipence)", &price)?;
    store.new_counter(
        "metric_collection_count",
        "Number of times metrics collected since programme start",
    )?;
    assert(contents(store) =~~= store_of(nothing_collected(), false));
    Ok(Metrics { store })
}

/// Registers every metric, in the order in which they were created. The registry refuses
/// metrics that it knows already; then everything stays as it was.
pub fn register_metrics(metrics: &mut Metrics) -> (r: Result<(), MetricsError>)
    requires
        old(metrics).wf(),
    ensures
        final(metrics).wf(),
        final(metrics)@ == old(metrics)@,
        r is Ok <==> old(metrics).registered() == 0,
        r is Ok ==> final(metrics).registered() == 8,
        r is Err ==> r->Err_0 is AlreadyReg,
        r is Err ==> *final(metrics) == *old(metrics),
{
    let ghost model = metrics@;
    let ghost fresh = metrics.registered() == 0;
    let ghost before = *metrics;
    proof {
        if fresh {
            assert(contents(metrics.store) =~~= partly_registered(model, 0));
        } else {
            assert(contents(metrics.store).gauges[0].registered);
            assert(contents(metrics.store).has_key(
                metric_key(contents(metrics.store).gauges[0].name),
            ));
        }
    }
    let mut i: usize = 0;
    while i < 7
        invariant
            i <= 7,
            fresh ==> contents(metrics.store) == partly_registered(model, i as int),
            !fresh ==> i == 0 && *metrics == before,
            before.wf(),
            before@ == model,
            fresh == (before.registered() == 0),
            before == *old(metrics),
            !fresh ==> before.registered() == 8 && contents(before.store).has_key(
                metric_key(contents(before.store).gauges[0].name),
            ),
        decreases 7 - i,
    {
        proof {
            lemma_next_key_is_free(model, i as int);
            assert(partly_registered(model, i as int).gauges[i as int].name
                == metric_names()[i as int]);
        }
        metrics.store.register_gauge(i)?;
        assert(contents(metrics.store) =~~= partly_registered(model, i + 1));
        i = i + 1;
    }
    proof {
        lemma_next_key_is_free(model, 7);
        assert(partly_registered(model, 7).counters[0].name == metric_names()[7]);
    }
    metrics.store.register_counter(0)?;
    assert(contents(metrics.store) =~~= store_of(model, true));
    Ok(())
}

/// The series after a reading has been recorded, in thousandths, under these label values.
pub open spec fn recorded(series: Series, values: Seq<Seq<char>>, reading: Reading) -> Series {
    with_value(series, series_key(values.flatten()), values, reading.in_thousandths() as i64)
}

/// The metrics after the readings of a meter have been recorded.
pub open spec fn with_meter(m: MetricsModel, meter: SensorElectricityMeter) -> MetricsModel {
    let import = meter.energy.import;
    let by_meter = seq![import.mpan@];
    let by_supplier = seq![import.mpan@, import.supplier@];
    MetricsModel {
        current_power: recorded(m.current_power, by_meter, meter.power.value),
        total_energy: recorded(m.total_energy, by_meter, import.cumulative),
        cumulative_energy_day: recorded(m.cumulative_energy_day, by_meter, import.day),
        cumulative_energy_week: recorded(m.cumulative_energy_week, by_meter, import.week),
        cumulative_energy_month: recorded(m.cumulative_energy_month, by_meter, import.month),
        import_unit_price: recorded(m.import_unit_price, by_supplier, import.price.unitrate),
        import_price_standing_charge: recorded(
            m.import_price_standing_charge,
            by_supplier,
            import.price.standingcharge,
        ),
        collect_count: m.collect_count,
    }
}

/// The metrics after a sensor message, with or without readings of a meter.
pub open spec fn after_sensor(m: MetricsModel, sensor: Sensor) -> MetricsModel {
    let held = match sensor.electricitymeter {
        Some(meter) => with_meter(m, meter),
        None => m,
    };
    MetricsModel { collect_count: one_more(m.collect_count), ..held }
}

/// The metrics after a message.
pub open spec fn metrics_after(m: MetricsModel, packet: GlowPacket) -> MetricsModel {
    match packet {
        GlowPacket::Sensor(sensor) => after_sensor(m, sensor),
        GlowPacket::State(_) => m,
    }
}

/// What is known of the display after a message.
pub open spec fn state_after(known: Option<State>, packet: GlowPacket) -> Option<State> {
    match packet {
        GlowPacket::Sensor(_) => known,
        GlowPacket::State(state) => Some(state),
    }
}

/// What remains to be done once a message has been taken in.
#[derive(Clone, Copy, Debug, PartialEq, Eq, Structural)]
pub enum FollowUp {
    ExportMetrics,
    Nothing,
}

impl Metrics {
    /// Records the readings of a meter.
    fn record(&mut self, meter: &SensorElectricityMeter)
        requires
            old(self).wf(),
        ensures
            final(self).wf(),
            final(self)@ == with_meter(old(self)@, *meter),
            final(self).registered() == old(self).registered(),
    {
        let import = &meter.energy.import;
        let labels: Vec<&str> = vec![import.mpan.as_str()];
        let price_labels: Vec<&str> = vec![import.mpan.as_str(), import.supplier.as_str()];
        assert(words(labels@) =~= seq![import.mpan@]);
        assert(words(price_labels@) =~= seq![import.mpan@, import.supplier@]);
        self.store.set(0, &labels, meter.power.value.thousandths());
        self.store.set(1, &labels, import.cumulative.thousandths());
        self.store.set(2, &labels, import.day.thousandths());
        self.store.set(3, &labels, import.week.thousandths());
        self.store.set(4, &labels, import.month.thousandths());
        self.store.set(5, &price_labels, import.price.unitrate.thousandths());
        self.store.set(6, &price_labels, import.price.standingcharge.thousandths());
        assert(contents(self.store) =~~= store_of(
            with_meter(old(self)@, *meter),
            old(self).registered() == 8,
        ));
    }
}

/// Takes in a message: readings go to the metrics, what the display says of itself replaces
/// what was known of it. After every sensor message the metrics are to be exported.
pub fn handle_publish(packet: Packet, metrics: &mut Metrics, sensor: &mut Option<State>) -> (next:
    FollowUp)
    requires
        old(metrics).wf(),
    ensures
        final(metrics).wf(),
        final(metrics)@ == metrics_after(old(metrics)@, packet.packet),
        final(metrics).registered() == old(metrics).registered(),
        *final(sensor) == state_after(*old(sensor), packet.packet),
        packet.packet is State ==> *final(metrics) == *old(metrics),
        packet.packet is State ==> *final(sensor) == Some(packet.packet->State_0),
        packet.packet is Sensor ==> *final(sensor) == *old(sensor),
        next == (if packet.packet is Sensor {
            FollowUp::ExportMetrics
        } else {
            FollowUp::Nothing
        }),
{
    match packet.packet {
        GlowPacket::Sensor(s) => {
            if let Some(meter) = &s.electricitymeter {
                metrics.record(meter);
            }
            let ghost held = metrics@;
            let ghost known = metrics.registered();
            metrics.store.inc(0);
            assert(contents(metrics.store) =~~= store_of(
                MetricsModel { collect_count: one_more(held.collect_count), ..held },
                known == 8,
            ));
            FollowUp::ExportMetrics
        },
        GlowPacket::State(state) => {
            *sensor = Some(state);
            FollowUp::Nothing
        },
    }
}

/// The text of the metrics before the first export.
pub fn initial_cache() -> (cache: String)
    ensures
        cache@ == "# metrics will be available soon"@,
{
    "# metrics will be available soon".to_owned()
}

/// Puts the text of the registered metrics, as they are now, in place of the cached one.
/// Metrics that are not registered are left out, so without registration the text is empty.
pub fn export_metrics(metrics: &Metrics, cache: &mut String)
    requires
        metrics.wf(),
    ensures
        final(cache)@ == (if metrics.registered() == 8 {
            exposition(store_of(metrics@, true))
        } else {
            Seq::empty()
        }),
{
    proof {
        reveal_strlit("glow");
        lemma_registered_part(metrics@);
    }
    *cache = metrics.store.encode().unwrap();
}

} // verus!
