//! What the display publishes, and how a message is taken apart.
use crate::reading::Reading;
use crate::topic::appended_levels_come_last;
use crate::topic::levels;
use crate::topic::levels_on_both_sides_of_a_slash;
use crate::topic::split_levels;
use crate::topic::text_without_slashes_is_one_level;
use crate::topic::texts;
use vstd::prelude::*;
use vstd::std_specs::convert::FromSpec;

verus! {

/// The error with which the `serde_json` crate turns down a payload.
#[verifier::external_type_specification]
#[verifier::external_body]
pub struct ExJsonError(serde_json::Error);

/// A point in time, in UTC: whole seconds since the start of 1970, and nanoseconds on top of
/// them. A leap second takes the nanoseconds past one thousand million.
#[derive(Clone, Copy, Debug, PartialEq, Eq, Structural)]
pub struct Timestamp {
    pub seconds: i64,
    pub nanoseconds: u32,
}

/// A message as the broker delivers it.
#[derive(Debug, PartialEq)]
pub struct Publish {
    pub topic: String,
    pub payload: Vec<u8>,
}

/// What the payloads of a topic hold.
#[derive(Clone, Copy, Debug, PartialEq, Eq, Structural)]
pub enum PacketKind {
    State,
    Sensor,
}

/// A decoded message, with the identifier of the display that sent it.
#[derive(Debug)]
pub struct Packet {
    pub id: String,
    pub packet: GlowPacket,
}

/// Why a message could not be decoded.
#[derive(Debug)]
pub enum GlowError {
    BadTopic,
    BadPayload(serde_json::Error),
}

#[derive(Debug)]
pub enum GlowPacket {
    State(State),
    Sensor(Sensor),
}

/// The link between the display and the meters.
#[derive(PartialEq, Debug)]
pub struct StateHan {
    pub rssi: i32,
    pub status: String,
    pub lqi: u32,
}

/// What the display says of itself.
#[derive(PartialEq, Debug)]
pub struct State {
    pub timestamp: Timestamp,
    pub software: String,
    pub hardware: String,
    pub wifistamac: String,
    pub smetsversion: String,
    pub eui: String,
    pub zigbee: String,
    pub han: StateHan,
}

#[derive(PartialEq, Debug)]
pub struct SensorEnergyExport {
    pub cumulative: Reading,
    pub units: String,
}

impl Default for SensorEnergyExport {
    fn default() -> (export: Self)
        ensures
            export.cumulative.bits == 0,
            export.units@ == "kWh"@,
    {
        SensorEnergyExport { cumulative: Reading { bits: 0 }, units: "kWh".to_owned() }
    }
}

#[derive(PartialEq, Debug)]
pub struct SensorEnergyPrice {
    pub unitrate: Reading,
    pub standingcharge: Reading,
}

#[derive(PartialEq, Debug)]
pub struct SensorEnergyPower {
    pub value: Reading,
    pub units: String,
}

#[derive(PartialEq, Debug)]
pub struct SensorEnergyImport {
    pub cumulative: Reading,
    pub day: Reading,
    pub week: Reading,
    pub month: Reading,
    pub units: String,
    pub mpan: String,
    pub supplier: String,
    pub price: SensorEnergyPrice,
}

#[derive(PartialEq, Debug)]
pub struct SensorEnergy {
    pub export: SensorEnergyExport,
    pub import: SensorEnergyImport,
}

#[derive(PartialEq, Debug)]
pub struct SensorElectricityMeter {
    pub timestamp: Timestamp,
    pub energy: SensorEnergy,
    pub power: SensorEnergyPower,
}

#[derive(PartialEq, Debug)]
pub struct Sensor {
    pub electricitymeter: Option<SensorElectricityMeter>,
}

impl From<serde_json::Error> for GlowError {
    fn from(error: serde_json::Error) -> (e: GlowError)
        ensures
            e == GlowError::BadPayload(error),
    {
        GlowError::BadPayload(error)
    }
}

impl vstd::std_specs::convert::FromSpecImpl<serde_json::Error> for GlowError {
    open spec fn obeys_from_spec() -> bool {
        true
    }

    open spec fn from_spec(error: serde_json::Error) -> GlowError {
        GlowError::BadPayload(error)
    }
}

impl GlowError {
    /// The error in words.
    pub fn message(&self) -> (text: String)
        ensures
            text@ == (match self {
                GlowError::BadTopic => "unable to parse topic"@,
                GlowError::BadPayload(_) => "failed to parse packet payload"@,
            }),
    {
        match self {
            GlowError::BadTopic => "unable to parse topic".to_owned(),
            GlowError::BadPayload(_) => "failed to parse packet payload".to_owned(),
        }
    }
}

/// Who sent a message and what it holds, by its topic: the second level names the display,
/// the third one the kind of the payload. Other topics say neither.
pub open spec fn route(topic: Seq<char>) -> Option<(Seq<char>, PacketKind)> {
    let parts = levels(topic);
    if parts.len() < 3 {
        None
    } else if parts[2] == "SENSOR"@ {
        Some((parts[1], PacketKind::Sensor))
    } else if parts[2] == "STATE"@ {
        Some((parts[1], PacketKind::State))
    } else {
        None
    }
}

/// A topic whose third level is `SENSOR` or `STATE` names the display by its second level and
/// the kind of the payload by its third, whatever comes before, between and behind them. A
/// topic with another third level, or with fewer levels, names neither.
pub proof fn topics_name_display_and_kind(
    first: Seq<char>,
    id: Seq<char>,
    third: Seq<char>,
    rest: Seq<char>,
)
    requires
        !first.contains('/'),
        !id.contains('/'),
        !third.contains('/'),
    ensures
        ({
            let short = first.push('/') + id.push('/') + third;
            let long = short.push('/') + rest;
            &&& third == "SENSOR"@ ==> route(short) == Some((id, PacketKind::Sensor)) && route(long)
                == Some((id, PacketKind::Sensor))
            &&& third == "STATE"@ ==> route(short) == Some((id, PacketKind::State)) && route(long)
                == Some((id, PacketKind::State))
            &&& third != "SENSOR"@ && third != "STATE"@ ==> route(short) is None && route(
                long,
            ) is None
        }),
        route(first) is None,
        route(first.push('/') + id) is None,
{
    let two = first.push('/') + id;
    let short = first.push('/') + id.push('/') + third;
    reveal_strlit("SENSOR");
    reveal_strlit("STATE");
    assert("SENSOR"@.len() != "STATE"@.len());
    assert(short =~= two.push('/') + third);
    text_without_slashes_is_one_level(first);
    appended_levels_come_last(first, id);
    appended_levels_come_last(two, third);
    levels_on_both_sides_of_a_slash(short, rest);
}

/// Reads the identifier of the display and the kind of the payload off a topic.
pub fn parse_topic(topic: &str) -> (r: Result<(String, PacketKind), GlowError>)
    ensures
        match route(topic@) {
            Some((id, kind)) => r matches Ok(found) && found.0@ == id && found.1 == kind,
            None => r == Err::<(String, PacketKind), GlowError>(GlowError::BadTopic),
        },
{
    let mut parts: Vec<String> = split_levels(topic);
    assert(forall|i: int| 0 <= i < parts@.len() ==> texts(parts@)[i] == #[trigger] parts@[i]@);
    if parts.len() < 3 {
        return Err(GlowError::BadTopic);
    }
    if parts[2] == "SENSOR".to_owned() {
        Ok((parts.swap_remove(1), PacketKind::Sensor))
    } else if parts[2] == "STATE".to_owned() {
        Ok((parts.swap_remove(1), PacketKind::State))
    } else {
        Err(GlowError::BadTopic)
    }
}

/// The packet of a sensor message, given what its payload was decoded to.
pub open spec fn is_sensor_packet(
    id: Seq<char>,
    decoded: Result<Sensor, serde_json::Error>,
    r: Result<Packet, GlowError>,
) -> bool {
    match decoded {
        Ok(sensor) => r matches Ok(p) && p.id@ == id && p.packet == GlowPacket::Sensor(sensor),
        Err(e) => r == Err::<Packet, GlowError>(GlowError::BadPayload(e)),
    }
}

/// The packet of a state message, given what its payload was decoded to.
pub open spec fn is_state_packet(
    id: Seq<char>,
    decoded: Result<State, serde_json::Error>,
    r: Result<Packet, GlowError>,
) -> bool {
    match decoded {
        Ok(state) => r matches Ok(p) && p.id@ == id && p.packet == GlowPacket::State(state),
        Err(e) => r == Err::<Packet, GlowError>(GlowError::BadPayload(e)),
    }
}

/// A packet of a sensor message is what the payload was decoded to, all of it, under the
/// identifier of the display. A payload that was turned down makes no packet, and the reason
/// is kept.
pub proof fn sensor_packets_hold_what_was_decoded(
    id: Seq<char>,
    decoded: Result<Sensor, serde_json::Error>,
    r: Result<Packet, GlowError>,
)
    requires
        is_sensor_packet(id, decoded, r),
    ensures
        r is Ok <==> decoded is Ok,
        decoded is Ok ==> r->Ok_0.id@ == id && r->Ok_0.packet == GlowPacket::Sensor(decoded->Ok_0),
        decoded is Err ==> r->Err_0 == GlowError::BadPayload(decoded->Err_0),
{
}

/// A packet of a state message is what the payload was decoded to, all of it, under the
/// identifier of the display. A payload that was turned down makes no packet, and the reason
/// is kept.
pub proof fn state_packets_hold_what_was_decoded(
    id: Seq<char>,
    decoded: Result<State, serde_json::Error>,
    r: Result<Packet, GlowError>,
)
    requires
        is_state_packet(id, decoded, r),
    ensures
        r is Ok <==> decoded is Ok,
        decoded is Ok ==> r->Ok_0.id@ == id && r->Ok_0.packet == GlowPacket::State(decoded->Ok_0),
        decoded is Err ==> r->Err_0 == GlowError::BadPayload(decoded->Err_0),
{
}

/// Different payloads make different packets: what was decoded can be told from the packet.
pub proof fn packets_tell_what_was_decoded(
    id: Seq<char>,
    one: Result<Sensor, serde_json::Error>,
    other: Result<Sensor, serde_json::Error>,
    state: Result<State, serde_json::Error>,
    r: Result<Packet, GlowError>,
)
    requires
        is_sensor_packet(id, one, r),
    ensures
        is_sensor_packet(id, other, r) ==> one == other,
        r is Ok ==> !is_state_packet(id, state, r),
{
}

/// The reason why a payload was turned down is kept.
pub proof fn payload_errors_keep_their_reason(error: serde_json::Error)
    ensures
        <GlowError as FromSpec<serde_json::Error>>::from_spec(error) == GlowError::BadPayload(
            error,
        ),
{
}

impl Packet {
    /// Puts a sensor packet together from what its payload was decoded to.
    pub fn from_sensor(id: String, decoded: Result<Sensor, serde_json::Error>) -> (r: Result<
        Packet,
        GlowError,
    >)
        ensures
            is_sensor_packet(id@, decoded, r),
            r is Ok <==> decoded is Ok,
            decoded is Ok ==> r->Ok_0.id@ == id@ && r->Ok_0.packet == GlowPacket::Sensor(
                decoded->Ok_0,
            ),
            decoded is Err ==> r->Err_0 == GlowError::BadPayload(decoded->Err_0),
    {
        match decoded {
            Ok(sensor) => Ok(Packet { id, packet: GlowPacket::Sensor(sensor) }),
            Err(e) => Err(GlowError::from(e)),
        }
    }

    /// Puts a state packet together from what its payload was decoded to.
    pub fn from_state(id: String, decoded: Result<State, serde_json::Error>) -> (r: Result<
        Packet,
        GlowError,
    >)
        ensures
            is_state_packet(id@, decoded, r),
            r is Ok <==> decoded is Ok,
            decoded is Ok ==> r->Ok_0.id@ == id@ && r->Ok_0.packet == GlowPacket::State(
                decoded->Ok_0,
            ),
            decoded is Err ==> r->Err_0 == GlowError::BadPayload(decoded->Err_0),
    {
        match decoded {
            Ok(state) => Ok(Packet { id, packet: GlowPacket::State(state) }),
            Err(e) => Err(GlowError::from(e)),
        }
    }

    /// Decodes a message. The topic says which of the two decoders is given the payload; the
    /// other one is not called, and neither is called for a topic that says nothing.
    pub fn try_from<F, G>(value: Publish, sensor: F, state: G) -> (r: Result<Packet, GlowError>)
        where
            F: FnOnce(Vec<u8>) -> Result<Sensor, serde_json::Error>,
            G: FnOnce(Vec<u8>) -> Result<State, serde_json::Error>,

        requires
            match route(value.topic@) {
                Some((_, PacketKind::Sensor)) => sensor.requires((value.payload,)),
                Some((_, PacketKind::State)) => state.requires((value.payload,)),
                None => true,
            },
        ensures
            match route(value.topic@) {
                Some((id, PacketKind::Sensor)) => exists|decoded: Result<Sensor, serde_json::Error>|
                    #[trigger] sensor.ensures((value.payload,), decoded) && is_sensor_packet(
                        id,
                        decoded,
                        r,
                    ) && match decoded {
                        Ok(s) => r is Ok && r->Ok_0.id@ == id && r->Ok_0.packet
                            == GlowPacket::Sensor(s),
                        Err(e) => r is Err && r->Err_0 == GlowError::BadPayload(e),
                    },
                Some((id, PacketKind::State)) => exists|decoded: Result<State, serde_json::Error>|
                    #[trigger] state.ensures((value.payload,), decoded) && is_state_packet(
                        id,
                        decoded,
                        r,
                    ) && match decoded {
                        Ok(s) => r is Ok && r->Ok_0.id@ == id && r->Ok_0.packet
                            == GlowPacket::State(s),
                        Err(e) => r is Err && r->Err_0 == GlowError::BadPayload(e),
                    },
                None => r == Err::<Packet, GlowError>(GlowError::BadTopic),
            },
    {
        let (id, kind) = match parse_topic(value.topic.as_str()) {
            Ok(found) => found,
            Err(e) => return Err(e),
        };
        match kind {
            PacketKind::Sensor => Packet::from_sensor(id, sensor(value.payload)),
            PacketKind::State => Packet::from_state(id, state(value.payload)),
        }
    }
}

} // verus!
