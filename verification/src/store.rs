//! The metrics of the `prometheus` crate that this library keeps, and what is trusted of it.
use crate::fnv::metric_key;
use crate::fnv::series_key;
use prometheus::Counter;
use prometheus::Error;
use prometheus::IntGaugeVec;
use prometheus::Opts;
use prometheus::Registry;
use prometheus::TextEncoder;
use vstd::prelude::*;

verus! {

/// The error type of the `prometheus` crate.
#[verifier::external_type_specification]
#[verifier::external_body]
pub struct ExMetricsError(prometheus::Error);

/// Why the metrics could not be set up: the errors of the `prometheus` crate, those that
/// stem from outside of it unopened.
#[derive(Debug)]
pub enum MetricsError {
    AlreadyReg,
    InconsistentCardinality { expect: usize, got: usize },
    Msg(String),
    Outside(prometheus::Error),
}

/// The time series of one gauge metric, each with the label values that it was created for
/// and its present value. Two lists of label values belong to the same series if and only if
/// they have the same `series_key`.
pub type Series = Map<u64, (Seq<Seq<char>>, i64)>;

/// A gauge metric: how it is described, whether the registry knows it, and its series.
#[verifier::ext_equal]
pub struct GaugeModel {
    pub name: Seq<char>,
    pub help: Seq<char>,
    pub labels: Seq<Seq<char>>,
    pub registered: bool,
    pub series: Series,
}

/// A counter metric: how it is described, whether the registry knows it, and its value.
#[verifier::ext_equal]
pub struct CounterModel {
    pub name: Seq<char>,
    pub help: Seq<char>,
    pub registered: bool,
    pub value: nat,
}

/// What a store holds: the namespace of its registry, and its metrics in the order in which
/// they were created.
#[verifier::ext_equal]
pub struct StoreModel {
    pub namespace: Seq<char>,
    pub gauges: Seq<GaugeModel>,
    pub counters: Seq<CounterModel>,
}

/// The text in which a registry presents metrics with these contents, all of them
/// registered.
pub uninterp spec fn exposition(contents: StoreModel) -> Seq<char>;

/// What a store holds.
pub uninterp spec fn contents(store: Store) -> StoreModel;

/// The contents of a list of string slices.
pub open spec fn words(list: Seq<&str>) -> Seq<Seq<char>> {
    list.map_values(|s: &str| s@)
}

/// A letter of ASCII or an underscore.
pub open spec fn is_name_char(c: char) -> bool {
    'a' <= c <= 'z' || 'A' <= c <= 'Z' || c == '_'
}

/// Whether a metric may have this name.
pub open spec fn is_metric_name(name: Seq<char>) -> bool {
    &&& name.len() > 0
    &&& is_name_char(name[0]) || name[0] == ':'
    &&& forall|i: int|
        0 <= i < name.len() ==> is_name_char(#[trigger] name[i]) || name[i] == ':' || '0' <= name[i]
            <= '9'
}

/// Whether a label may have this name.
pub open spec fn is_label_name(name: Seq<char>) -> bool {
    &&& name.len() > 0
    &&& is_name_char(name[0])
    &&& forall|i: int|
        0 <= i < name.len() ==> is_name_char(#[trigger] name[i]) || '0' <= name[i] <= '9'
}

/// Whether a metric can be described like this.
pub open spec fn is_description(name: Seq<char>, help: Seq<char>, labels: Seq<Seq<char>>) -> bool {
    &&& help.len() > 0
    &&& is_metric_name(name)
    &&& forall|i: int| 0 <= i < labels.len() ==> is_label_name(#[trigger] labels[i])
    &&& labels.no_duplicates()
}

/// The series after the one under `key` has been given a value. A new series takes the label
/// values; one that is there already keeps its own.
pub open spec fn with_value(
    series: Series,
    key: u64,
    values: Seq<Seq<char>>,
    value: i64,
) -> Series {
    let labels = if series.contains_key(key) {
        series[key].0
    } else {
        values
    };
    series.insert(key, (labels, value))
}

/// A counter is a double: it counts up to 2^53 and stays there.
pub open spec fn one_more(value: nat) -> nat {
    if value < 0x20_0000_0000_0000 {
        value + 1
    } else {
        value
    }
}

impl GaugeModel {
    pub open spec fn with_series(self, series: Series) -> GaugeModel {
        GaugeModel { series, ..self }
    }
}

impl StoreModel {
    /// Whether the registry files a metric under this key.
    pub open spec fn has_key(self, key: u64) -> bool {
        ||| exists|i: int|
            0 <= i < self.gauges.len() && (#[trigger] self.gauges[i]).registered && metric_key(
                self.gauges[i].name,
            ) == key
        ||| exists|i: int|
            0 <= i < self.counters.len() && (#[trigger] self.counters[i]).registered && metric_key(
                self.counters[i].name,
            ) == key
    }

    /// The metrics that the registry knows, in the same order.
    pub open spec fn registered_part(self) -> StoreModel {
        StoreModel {
            namespace: self.namespace,
            gauges: self.gauges.filter(|g: GaugeModel| g.registered),
            counters: self.counters.filter(|c: CounterModel| c.registered),
        }
    }

    /// Whether there is no counter, and no gauge metric with a series.
    pub open spec fn without_samples(self) -> bool {
        &&& self.counters.len() == 0
        &&& forall|i: int|
            0 <= i < self.gauges.len() ==> (#[trigger] self.gauges[i]).series == Series::empty()
    }

    pub open spec fn with_gauge(self, i: int, gauge: GaugeModel) -> StoreModel {
        StoreModel { gauges: self.gauges.update(i, gauge), ..self }
    }

    pub open spec fn with_counter(self, i: int, counter: CounterModel) -> StoreModel {
        StoreModel { counters: self.counters.update(i, counter), ..self }
    }
}

/// A registry of the `prometheus` crate together with the metrics made for it. The registry
/// shares its metrics with the handles that set them, so one value holds both. Neither
/// `IntGaugeVec` nor `Counter` can be declared to the verifier by itself: the first has a
/// type parameter that the crate does not export, and both are bound by traits of the crate.
#[verifier::external_body]
pub struct Store {
    registry: Registry,
    gauges: Vec<IntGaugeVec>,
    counters: Vec<Counter>,
}

impl Store {
    /// `Registry::new_custom` with a namespace and no labels: it makes an empty registry, and
    /// fails only if the namespace is empty.
    #[verifier::external_body]
    pub(crate) fn new_custom(namespace: &str) -> (r: Result<Store, prometheus::Error>)
        ensures
            r is Ok <==> namespace@.len() > 0,
            r matches Ok(store) ==> contents(store) == (StoreModel {
                namespace: namespace@,
                gauges: Seq::empty(),
                counters: Seq::empty(),
            }),
    {
        let registry = Registry::new_custom(Some(namespace.to_string()), None)?;
        Ok(Store { registry, gauges: Vec::new(), counters: Vec::new() })
    }

    /// `IntGaugeVec::new`: it makes a gauge metric without series, and fails only if the
    /// metric cannot be described like this.
    #[verifier::external_body]
    pub(crate) fn new_gauge(&mut self, name: &str, help: &str, labels: &Vec<&str>) -> (r: Result<
        (),
        prometheus::Error,
    >)
        ensures
            r is Ok <==> is_description(name@, help@, words(labels@)),
            r is Err ==> contents(*final(self)) == contents(*old(self)),
            r is Ok ==> contents(*final(self)) == (StoreModel {
                gauges: contents(*old(self)).gauges.push(
                    GaugeModel {
                        name: name@,
                        help: help@,
                        labels: words(labels@),
                        registered: false,
                        series: Map::empty(),
                    },
                ),
                ..contents(*old(self))
            }),
    {
        let gauge = IntGaugeVec::new(Opts::new(name, help), labels)?;
        self.gauges.push(gauge);
        Ok(())
    }

    /// `Counter::new`: it makes a counter that stands at zero, and fails only if the metric
    /// cannot be described like this.
    #[verifier::external_body]
    pub(crate) fn new_counter(&mut self, name: &str, help: &str) -> (r: Result<
        (),
        prometheus::Error,
    >)
        ensures
            r is Ok <==> is_description(name@, help@, Seq::empty()),
            r is Err ==> contents(*final(self)) == contents(*old(self)),
            r is Ok ==> contents(*final(self)) == (StoreModel {
                counters: contents(*old(self)).counters.push(
                    CounterModel { name: name@, help: help@, registered: false, value: 0 },
                ),
                ..contents(*old(self))
            }),
    {
        let counter = Counter::new(name, help)?;
        self.counters.push(counter);
        Ok(())
    }

    /// `Registry::register` of a gauge metric: it fails only if a metric is filed under the
    /// same key already, says so, and then changes nothing.
    #[verifier::external_body]
    pub(crate) fn register_gauge(&mut self, gauge: usize) -> (r: Result<(), MetricsError>)
        requires
            gauge < contents(*old(self)).gauges.len(),
        ensures
            r is Ok <==> !contents(*old(self)).has_key(
                metric_key(contents(*old(self)).gauges[gauge as int].name),
            ),
            r is Err ==> r->Err_0 is AlreadyReg,
            r is Err ==> *final(self) == *old(self),
            r is Ok ==> contents(*final(self)) == contents(*old(self)).with_gauge(
                gauge as int,
                GaugeModel { registered: true, ..contents(*old(self)).gauges[gauge as int] },
            ),
    {
        match self.registry.register(Box::new(self.gauges[gauge].clone())) {
            Ok(()) => Ok(()),
            Err(Error::AlreadyReg) => Err(MetricsError::AlreadyReg),
            Err(Error::InconsistentCardinality { expect, got }) => {
                Err(MetricsError::InconsistentCardinality { expect, got })
            },
            Err(Error::Msg(text)) => Err(MetricsError::Msg(text)),
            Err(e @ Error::Io(_)) => Err(MetricsError::Outside(e)),
            Err(e @ Error::Protobuf(_)) => Err(MetricsError::Outside(e)),
        }
    }

    /// `Registry::register` of a counter: it fails only if a metric is filed under the same
    /// key already, says so, and then changes nothing.
    #[verifier::external_body]
    pub(crate) fn register_counter(&mut self, counter: usize) -> (r: Result<(), MetricsError>)
        requires
            counter < contents(*old(self)).counters.len(),
        ensures
            r is Ok <==> !contents(*old(self)).has_key(
                metric_key(contents(*old(self)).counters[counter as int].name),
            ),
            r is Err ==> r->Err_0 is AlreadyReg,
            r is Err ==> *final(self) == *old(self),
            r is Ok ==> contents(*final(self)) == contents(*old(self)).with_counter(
                counter as int,
                CounterModel { registered: true, ..contents(*old(self)).counters[counter as int] },
            ),
    {
        match self.registry.register(Box::new(self.counters[counter].clone())) {
            Ok(()) => Ok(()),
            Err(Error::AlreadyReg) => Err(MetricsError::AlreadyReg),
            Err(Error::InconsistentCardinality { expect, got }) => {
                Err(MetricsError::InconsistentCardinality { expect, got })
            },
            Err(Error::Msg(text)) => Err(MetricsError::Msg(text)),
            Err(e @ Error::Io(_)) => Err(MetricsError::Outside(e)),
            Err(e @ Error::Protobuf(_)) => Err(MetricsError::Outside(e)),
        }
    }

    /// `IntGaugeVec::with_label_values`, then `set` on the gauge that it hands out: the
    /// series of these label values takes the value, and is created if it is not there yet.
    /// It panics if the number of label values is wrong.
    #[verifier::external_body]
    pub(crate) fn set(&mut self, gauge: usize, values: &Vec<&str>, value: i64)
        requires
            gauge < contents(*old(self)).gauges.len(),
            values@.len() == contents(*old(self)).gauges[gauge as int].labels.len(),
        ensures
            contents(*final(self)) == contents(*old(self)).with_gauge(
                gauge as int,
                contents(*old(self)).gauges[gauge as int].with_series(
                    with_value(
                        contents(*old(self)).gauges[gauge as int].series,
                        series_key(words(values@).flatten()),
                        words(values@),
                        value,
                    ),
                ),
            ),
    {
        self.gauges[gauge].with_label_values(values).set(value);
    }

    /// `Counter::inc`: it adds one to the counter.
    #[verifier::external_body]
    pub(crate) fn inc(&mut self, counter: usize)
        requires
            counter < contents(*old(self)).counters.len(),
        ensures
            contents(*final(self)) == contents(*old(self)).with_counter(
                counter as int,
                CounterModel {
                    value: one_more(contents(*old(self)).counters[counter as int].value),
                    ..contents(*old(self)).counters[counter as int]
                },
            ),
    {
        self.counters[counter].inc();
    }

    /// `TextEncoder::encode_to_string` of what `Registry::gather` returns: metrics that are
    /// not registered or have no series are left out, the others come out ordered by name
    /// and by label values, so the text depends on the registered contents alone, and is
    /// empty if nothing is left. It fails only for a metric without a name or without series,
    /// and `gather` returns none.
    #[verifier::external_body]
    pub(crate) fn encode(&self) -> (r: Result<String, prometheus::Error>)
        requires
            contents(*self).namespace.len() > 0,
        ensures
            r is Ok,
            r->Ok_0@ == exposition(contents(*self).registered_part()),
            contents(*self).registered_part().without_samples() ==> r->Ok_0@.len() == 0,
    {
        TextEncoder::new().encode_to_string(&self.registry.gather())
    }
}

/// Giving a series a value changes that series only. It takes the label values if it is new,
/// and keeps its own if it is not.
pub proof fn values_go_to_their_series(
    series: Series,
    key: u64,
    values: Seq<Seq<char>>,
    value: i64,
    other: u64,
)
    ensures
        with_value(series, key, values, value).dom() == series.dom().insert(key),
        with_value(series, key, values, value)[key].1 == value,
        !series.contains_key(key) ==> with_value(series, key, values, value)[key].0 == values,
        series.contains_key(key) ==> with_value(series, key, values, value)[key].0
            == series[key].0,
        other != key ==> with_value(series, key, values, value)[other] == series[other],
{
    assert(with_value(series, key, values, value).dom() =~= series.dom().insert(key));
}

/// A counter goes up by one, until it cannot any more.
pub proof fn counters_go_up_by_one(value: nat)
    ensures
        value < 0x20_0000_0000_0000 ==> one_more(value) == value + 1,
        value >= 0x20_0000_0000_0000 ==> one_more(value) == value,
{
}

/// Replacing one metric leaves all others, and the namespace, as they were.
pub proof fn metrics_are_replaced_one_at_a_time(
    store: StoreModel,
    i: int,
    gauge: GaugeModel,
    counter: CounterModel,
)
    ensures
        store.with_gauge(i, gauge).namespace == store.namespace,
        store.with_gauge(i, gauge).counters == store.counters,
        store.with_gauge(i, gauge).gauges == store.gauges.update(i, gauge),
        store.with_counter(i, counter).namespace == store.namespace,
        store.with_counter(i, counter).gauges == store.gauges,
        store.with_counter(i, counter).counters == store.counters.update(i, counter),
{
}

} // verus!
