//! The connection to the broker: how it is set up, and what its events lead to.
use crate::glow::route;
use crate::glow::PacketKind;
use crate::glow::Publish;
use crate::topic::appended_levels_come_last;
use crate::topic::levels;
use crate::topic::text_without_slashes_is_one_level;
use vstd::arithmetic::div_mod::lemma_div_denominator;
use vstd::arithmetic::power::lemma_pow0;
use vstd::arithmetic::power::lemma_pow1;
use vstd::arithmetic::power::lemma_pow_adds;
use vstd::arithmetic::power::lemma_pow_positive;
use vstd::arithmetic::power::pow;
use vstd::prelude::*;
use vstd::string::StringExecFns;

verus! {

/// The programs that listen to the display.
#[derive(Clone, Copy, Debug, PartialEq, Eq, Structural)]
pub enum Service {
    /// Serves metrics.
    Prometheus,
    /// Drives vibrating devices.
    Buttplug,
}

/// How often a message may be delivered.
#[derive(Clone, Copy, Debug, PartialEq, Eq, Structural)]
pub enum QoS {
    AtMostOnce,
    AtLeastOnce,
    ExactlyOnce,
}

/// A topic filter that is subscribed to.
#[derive(Debug, PartialEq)]
pub struct Subscription {
    pub filter: String,
    pub qos: QoS,
}

/// How to connect to the broker.
#[derive(Debug, PartialEq)]
pub struct MqttSettings {
    pub client_id: String,
    pub host: String,
    pub port: u16,
    /// Seconds of silence after which the connection is probed.
    pub keep_alive: u64,
    /// How many requests may wait to be sent.
    pub requests: usize,
}

/// The filters that a service subscribes to.
pub open spec fn filters(service: Service) -> Seq<Seq<char>> {
    match service {
        Service::Prometheus => seq!["glow/+/SENSOR/+"@, "glow/+/STATE"@],
        Service::Buttplug => seq!["glow/+/SENSOR/+"@, "glow/+/STATE/+"@],
    }
}

/// Whether a topic is covered by a filter: level for level they are equal, or the filter has
/// a plus sign.
pub open spec fn covers(filter: Seq<char>, topic: Seq<char>) -> bool {
    let wanted = levels(filter);
    let found = levels(topic);
    &&& wanted.len() == found.len()
    &&& forall|i: int|
        0 <= i < wanted.len() ==> #[trigger] wanted[i] == "+"@ || wanted[i] == found[i]
}

proof fn lemma_filters()
    ensures
        levels("glow/+/SENSOR/+"@) == seq!["glow"@, "+"@, "SENSOR"@, "+"@],
        levels("glow/+/STATE"@) == seq!["glow"@, "+"@, "STATE"@],
        levels("glow/+/STATE/+"@) == seq!["glow"@, "+"@, "STATE"@, "+"@],
        "SENSOR"@ != "+"@,
        "STATE"@ != "+"@,
        "STATE"@ != "SENSOR"@,
{
    reveal_strlit("glow");
    reveal_strlit("+");
    reveal_strlit("SENSOR");
    reveal_strlit("STATE");
    reveal_strlit("glow/+/SENSOR/+");
    reveal_strlit("glow/+/STATE");
    reveal_strlit("glow/+/STATE/+");
    let one = "glow"@;
    let two = one.push('/') + "+"@;
    let sensor = two.push('/') + "SENSOR"@;
    let state = two.push('/') + "STATE"@;
    text_without_slashes_is_one_level(one);
    appended_levels_come_last(one, "+"@);
    appended_levels_come_last(two, "SENSOR"@);
    appended_levels_come_last(two, "STATE"@);
    appended_levels_come_last(sensor, "+"@);
    appended_levels_come_last(state, "+"@);
    assert("glow/+/SENSOR/+"@ =~= sensor.push('/') + "+"@);
    assert("glow/+/STATE"@ =~= state);
    assert("glow/+/STATE/+"@ =~= state.push('/') + "+"@);
    assert(levels(sensor.push('/') + "+"@) =~= seq!["glow"@, "+"@, "SENSOR"@, "+"@]);
    assert(levels(state) =~= seq!["glow"@, "+"@, "STATE"@]);
    assert(levels(state.push('/') + "+"@) =~= seq!["glow"@, "+"@, "STATE"@, "+"@]);
}

/// Every topic that a service subscribes to is understood: its second level names the
/// display, and the filter that covers it tells the kind of the message.
pub proof fn subscribed_topics_are_understood(service: Service, i: int, topic: Seq<char>)
    requires
        0 <= i < filters(service).len(),
        covers(filters(service)[i], topic),
    ensures
        route(topic) == Some(
            (
                levels(topic)[1],
                if i == 0 {
                    PacketKind::Sensor
                } else {
                    PacketKind::State
                },
            ),
        ),
{
    lemma_filters();
    let wanted = levels(filters(service)[i]);
    assert(wanted[2] == (if i == 0 {
        "SENSOR"@
    } else {
        "STATE"@
    }));
}

/// What a service subscribes to.
pub fn glow_subscribe(service: Service) -> (list: Vec<Subscription>)
    ensures
        list@.len() == filters(service).len(),
        forall|i: int|
            0 <= i < list@.len() ==> (#[trigger] list@[i]).filter@ == filters(service)[i]
                && list@[i].qos == QoS::AtMostOnce,
        list@.len() == 2,
        list@[0].filter@ == "glow/+/SENSOR/+"@,
        service == Service::Prometheus ==> list@[1].filter@ == "glow/+/STATE"@,
        service == Service::Buttplug ==> list@[1].filter@ == "glow/+/STATE/+"@,
{
    let state: String = match service {
        Service::Prometheus => "glow/+/STATE".to_owned(),
        Service::Buttplug => "glow/+/STATE/+".to_owned(),
    };
    vec![
        Subscription { filter: "glow/+/SENSOR/+".to_owned(), qos: QoS::AtMostOnce },
        Subscription { filter: state, qos: QoS::AtMostOnce },
    ]
}

/// A digit as a character.
pub open spec fn digit(d: nat) -> char {
    (d + 48) as char
}

/// A number in decimal digits.
pub open spec fn decimal(n: nat) -> Seq<char>
    decreases n,
{
    if n < 10 {
        seq![digit(n)]
    } else {
        decimal(n / 10).push(digit(n % 10))
    }
}

/// Counted from the right, the digits of a number are those of its value in base ten, and
/// there are no more of them than it takes.
pub proof fn digits_make_up_the_number(n: nat, i: nat)
    ensures
        decimal(n).len() > 0,
        n < pow(10, decimal(n).len()),
        decimal(n).len() > 1 ==> pow(10, (decimal(n).len() - 1) as nat) <= n,
        i < decimal(n).len() ==> decimal(n)[decimal(n).len() - 1 - i] as int == 48 + (n as int
            / pow(10, i)) % 10,
    decreases n,
{
    let last = (n % 10) as int;
    assert(digit(n % 10) as int == 48 + last);
    reveal(pow);
    lemma_pow0(10);
    lemma_pow1(10);
    if n < 10 {
        assert(digit(n) as int == 48 + n);
    } else {
        let shorter = decimal(n / 10);
        digits_make_up_the_number(n / 10, 0);
        assert(decimal(n).drop_last() =~= shorter);
        lemma_pow_adds(10, 1, shorter.len());
        lemma_pow_adds(10, 1, (shorter.len() - 1) as nat);
        if i > 0 {
            let j = (i - 1) as nat;
            digits_make_up_the_number(n / 10, j);
            lemma_pow_adds(10, 1, j);
            lemma_pow_positive(10, j);
            lemma_div_denominator(n as int, 10, pow(10, j));
        }
    }
}

fn digit_text(d: u32) -> (text: &'static str)
    requires
        d < 10,
    ensures
        text@ == seq![digit(d as nat)],
{
    proof {
        reveal_strlit("0");
        reveal_strlit("1");
        reveal_strlit("2");
        reveal_strlit("3");
        reveal_strlit("4");
        reveal_strlit("5");
        reveal_strlit("6");
        reveal_strlit("7");
        reveal_strlit("8");
        reveal_strlit("9");
    }
    match d {
        0 => "0",
        1 => "1",
        2 => "2",
        3 => "3",
        4 => "4",
        5 => "5",
        6 => "6",
        7 => "7",
        8 => "8",
        _ => "9",
    }
}

fn decimal_text(n: u32) -> (text: String)
    ensures
        text@ == decimal(n as nat),
    decreases n,
{
    if n < 10 {
        digit_text(n).to_owned()
    } else {
        let mut text: String = decimal_text(n / 10);
        let ghost before = text@;
        text.append(digit_text(n % 10));
        assert(text@ =~= before.push(digit(n as nat % 10)));
        text
    }
}

/// The name under which the program connects to the broker. With the process identifier in
/// it, several instances can be connected at the same time.
pub fn client_id(include_pid: bool, pid: u32) -> (id: String)
    ensures
        id@ == (if include_pid {
            "rumqtt-sync-"@ + decimal(pid as nat)
        } else {
            "rumqtt-sync"@
        }),
        id@.len() > 0,
        id@[0] != ' ',
{
    proof {
        reveal_strlit("rumqtt-sync-");
        reveal_strlit("rumqtt-sync");
    }
    if include_pid {
        let mut id: String = "rumqtt-sync-".to_owned();
        id.append(decimal_text(pid).as_str());
        id
    } else {
        "rumqtt-sync".to_owned()
    }
}

/// The connection to a broker.
pub fn mqtt_settings(client_id: String, host: String, port: u16) -> (settings: MqttSettings)
    ensures
        settings == (MqttSettings { client_id, host, port, keep_alive: 5, requests: 10 }),
{
    MqttSettings { client_id, host, port, keep_alive: 5, requests: 10 }
}

/// What the connection reports.
#[derive(Debug, PartialEq)]
pub enum MqttEvent<E> {
    Published(Publish),
    Other,
    Failed(E),
}

/// What is to be done next.
#[derive(Debug, PartialEq)]
pub enum MqttAction<E> {
    /// Decode the message and take it in, then wait for the next event.
    Handle(Publish),
    /// Wait for the next event.
    Wait,
    /// Give up with this error.
    Stop(E),
}

/// What an event of the connection leads to.
pub fn on_event<E>(event: MqttEvent<E>) -> (action: MqttAction<E>)
    ensures
        action == (match event {
            MqttEvent::Published(message) => MqttAction::Handle(message),
            MqttEvent::Other => MqttAction::Wait,
            MqttEvent::Failed(e) => MqttAction::Stop(e),
        }),
{
    match event {
        MqttEvent::Published(message) => MqttAction::Handle(message),
        MqttEvent::Other => MqttAction::Wait,
        MqttEvent::Failed(e) => MqttAction::Stop(e),
    }
}

} // verus!
