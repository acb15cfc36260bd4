//! Connection ids and diagnostic lines.

use vstd::prelude::*;
use vstd::string::*;

use super::connection::{ConnectionModel, QuicConnection, StreamMark};
use super::state::State;
use crate::text::{
    bool_text, decimal_text, hex_string, hex_text, law_hex_text_spells_its_bytes, number_text,
};

verus! {

/// The length of the connection ids that this node makes.
pub const CONNECTION_ID_LENGTH: usize = 20;

/// The bytes of a connection id that log lines show.
pub const DIAGNOSTIC_ID_BYTES: usize = 6;

pub const DIAGNOSTIC_INTERVAL_SECS: u64 = 300;

/// `rand::random` for an array of twenty bytes: any bytes may come back.
#[verifier::external_body]
fn random_connection_id() -> (bytes: [u8; 20])
{
    rand::random::<[u8; 20]>()
}

/// A connection id that no other connection is likely to have.
pub fn generate_connection_id() -> (id: Vec<u8>)
    ensures
        id@.len() == CONNECTION_ID_LENGTH,
{
    let bytes = random_connection_id();
    vstd::slice::slice_to_vec(bytes.as_slice())
}

/// The first bytes of a connection id in hexadecimal notation.
pub fn format_connection_id(id: &[u8]) -> (text: String)
    ensures
        text@ == hex_text(
            id@.take(
                if id@.len() < DIAGNOSTIC_ID_BYTES {
                    id@.len() as int
                } else {
                    DIAGNOSTIC_ID_BYTES as int
                },
            ),
        ),
{
    let length: usize = if id.len() < DIAGNOSTIC_ID_BYTES {
        id.len()
    } else {
        DIAGNOSTIC_ID_BYTES
    };
    let shown = vstd::slice::slice_subrange(id, 0, length);
    assert(shown@ =~= id@.take(length as int));
    hex_string(shown)
}

/// A named value in a diagnostic line.
pub struct Field {
    pub name: &'static str,
    pub value: String,
}

impl View for Field {
    type V = (Seq<char>, Seq<char>);

    open spec fn view(&self) -> (Seq<char>, Seq<char>) {
        (self.name@, self.value@)
    }
}

/// The views of a list of fields.
pub open spec fn field_views(fields: Seq<Field>) -> Seq<(Seq<char>, Seq<char>)> {
    fields.map_values(|field: Field| field@)
}

/// `name=value` pairs with a space between two.
pub open spec fn joined(fields: Seq<(Seq<char>, Seq<char>)>) -> Seq<char>
    decreases fields.len(),
{
    if fields.len() == 0 {
        Seq::empty()
    } else {
        let last = fields.last();
        let own = last.0 + "="@ + last.1;
        if fields.len() == 1 {
            own
        } else {
            joined(fields.drop_last()) + " "@ + own
        }
    }
}

fn join_fields(fields: &Vec<Field>) -> (text: String)
    ensures
        text@ == joined(field_views(fields@)),
{
    let mut text = String::new();
    let mut index: usize = 0;
    assert(field_views(fields@.take(0)) =~= Seq::empty());
    while index < fields.len()
        invariant
            index <= fields.len(),
            text@ == joined(field_views(fields@.take(index as int))),
        decreases fields.len() - index,
    {
        let ghost before = text@;
        if index > 0 {
            text.append(" ");
        }
        text.append(fields[index].name);
        text.append("=");
        text.append(fields[index].value.as_str());
        proof {
            let views = field_views(fields@.take(index + 1));
            assert(views.drop_last() =~= field_views(fields@.take(index as int)));
            assert(views.last() == fields@[index as int]@);
            let own = views.last().0 + "="@ + views.last().1;
            if index == 0 {
                assert(before =~= Seq::empty());
                assert(text@ =~= own);
            } else {
                assert(text@ =~= before + " "@ + own);
            }
        }
        index += 1;
    }
    assert(fields@.take(fields@.len() as int) =~= fields@);
    text
}

fn text_field(name: &'static str, value: String) -> (field: Field)
    ensures
        field@ == (name@, value@),
{
    Field { name, value }
}

fn number_field(name: &'static str, value: u64) -> (field: Field)
    ensures
        field@ == (name@, decimal_text(value as nat)),
{
    Field { name, value: number_text(value as u128) }
}

fn bool_field(name: &'static str, value: bool) -> (field: Field)
    ensures
        field@ == (name@, if value {
            "true"@
        } else {
            "false"@
        }),
{
    Field { name, value: bool_text(value) }
}

/// What the transport reports of one path.
#[derive(Clone, Copy, Debug)]
pub struct PathReport {
    pub rtt_ms: u64,
    pub rttvar_ms: u64,
    pub cwnd: u64,
    pub pto: u64,
    pub delivery_rate: u64,
    pub lost: u64,
    pub retrans: u64,
}

/// What the transport reports of a connection.
pub struct TransportReport {
    pub sent: u64,
    pub recv: u64,
    pub sent_bytes: u64,
    pub recv_bytes: u64,
    pub acked_bytes: u64,
    pub lost: u64,
    pub spurious_lost: u64,
    pub lost_bytes: u64,
    pub retrans: u64,
    pub stream_retrans_bytes: u64,
    pub data_blocked_sent: u64,
    pub data_blocked_recv: u64,
    pub stream_data_blocked_sent: u64,
    pub stream_data_blocked_recv: u64,
    pub streams_blocked_bidi_recv: u64,
    pub reset_local: u64,
    pub reset_remote: u64,
    pub stopped_local: u64,
    pub stopped_remote: u64,
    pub tx_buffered: String,
    pub path: Option<PathReport>,
}

pub open spec fn path_fields(path: PathReport) -> Seq<(Seq<char>, Seq<char>)> {
    seq![
        ("rtt_ms"@, decimal_text(path.rtt_ms as nat)),
        ("rttvar_ms"@, decimal_text(path.rttvar_ms as nat)),
        ("cwnd"@, decimal_text(path.cwnd as nat)),
        ("pto"@, decimal_text(path.pto as nat)),
        ("delivery_rate"@, decimal_text(path.delivery_rate as nat)),
        ("path_lost"@, decimal_text(path.lost as nat)),
        ("path_retrans"@, decimal_text(path.retrans as nat)),
    ]
}

/// The path in brackets, or `none`.
pub open spec fn path_text(path: Option<PathReport>) -> Seq<char> {
    "["@ + match path {
        Some(path) => joined(path_fields(path)),
        None => "none"@,
    } + "]"@
}

/// The name of a state in log lines.
pub open spec fn state_name(state: State) -> Seq<char> {
    match state {
        State::Initial => "Initial"@,
        State::Established => "Established"@,
        State::Draining => "Draining"@,
        State::Closed => "Closed"@,
    }
}

pub open spec fn idle(age_millis: int, progress_millis: int) -> nat {
    if age_millis >= progress_millis {
        (age_millis - progress_millis) as nat
    } else {
        0
    }
}

pub open spec fn side_name(side: crate::primitives::ConnectionSide) -> Seq<char> {
    match side {
        crate::primitives::ConnectionSide::Client => "client"@,
        crate::primitives::ConnectionSide::Server => "server"@,
    }
}

pub open spec fn truth(value: bool) -> Seq<char> {
    if value {
        "true"@
    } else {
        "false"@
    }
}

pub open spec fn connection_fields(
    model: ConnectionModel,
    connection_id: Seq<char>,
    age_millis: u64,
) -> Seq<(Seq<char>, Seq<char>)> {
    seq![
        ("cid"@, connection_id),
        ("side"@, side_name(model.side)),
        ("state"@, state_name(model.state)),
        ("age_ms"@, decimal_text(age_millis as nat)),
        ("streams"@, decimal_text(model.streams.len())),
        (
            "uncreated_streams"@,
            decimal_text(
                (model.streams.len() - model.streams_with(StreamMark::Created).len()) as nat,
            ),
        ),
        (
            "externally_dropped_streams"@,
            decimal_text(model.streams_with(StreamMark::ExternalDropped).len()),
        ),
        ("underlying_send_pending"@, truth(model.send_pending)),
        (
            "underlying_send_idle_ms"@,
            decimal_text(idle(age_millis as int, model.last_send_progress_millis)),
        ),
        (
            "underlying_recv_idle_ms"@,
            decimal_text(idle(age_millis as int, model.last_recv_progress_millis)),
        ),
        ("underlay_loss_floor_ms"@, decimal_text((model.loss_delay_floor_micros / 1_000) as nat)),
    ]
}

pub open spec fn volume_fields(report: TransportReport) -> Seq<(Seq<char>, Seq<char>)> {
    seq![
        ("quic_sent_packets"@, decimal_text(report.sent as nat)),
        ("quic_recv_packets"@, decimal_text(report.recv as nat)),
        ("quic_sent_bytes"@, decimal_text(report.sent_bytes as nat)),
        ("quic_recv_bytes"@, decimal_text(report.recv_bytes as nat)),
        ("quic_acked_bytes"@, decimal_text(report.acked_bytes as nat)),
        ("quic_lost_packets"@, decimal_text(report.lost as nat)),
        ("quic_spurious_lost_packets"@, decimal_text(report.spurious_lost as nat)),
        ("quic_lost_bytes"@, decimal_text(report.lost_bytes as nat)),
        ("quic_retrans_packets"@, decimal_text(report.retrans as nat)),
        ("quic_stream_retrans_bytes"@, decimal_text(report.stream_retrans_bytes as nat)),
    ]
}

pub open spec fn blocking_fields(report: TransportReport) -> Seq<(Seq<char>, Seq<char>)> {
    seq![
        ("data_blocked_sent"@, decimal_text(report.data_blocked_sent as nat)),
        ("data_blocked_recv"@, decimal_text(report.data_blocked_recv as nat)),
        ("stream_data_blocked_sent"@, decimal_text(report.stream_data_blocked_sent as nat)),
        ("stream_data_blocked_recv"@, decimal_text(report.stream_data_blocked_recv as nat)),
        ("streams_blocked_bidi_recv"@, decimal_text(report.streams_blocked_bidi_recv as nat)),
        ("reset_local"@, decimal_text(report.reset_local as nat)),
        ("reset_remote"@, decimal_text(report.reset_remote as nat)),
        ("stopped_local"@, decimal_text(report.stopped_local as nat)),
        ("stopped_remote"@, decimal_text(report.stopped_remote as nat)),
        ("tx_buffered"@, report.tx_buffered@),
        ("path"@, path_text(report.path)),
    ]
}

pub open spec fn ending_fields(model: ConnectionModel) -> Seq<(Seq<char>, Seq<char>)> {
    seq![
        ("transport_closed"@, truth(model.transport_closed)),
        ("driver_failed"@, truth(model.driver_failed)),
    ]
}

/// The fields of a connection's diagnostic line, in order.
pub open spec fn diagnostic_fields(
    model: ConnectionModel,
    connection_id: Seq<char>,
    age_millis: u64,
    report: TransportReport,
) -> Seq<(Seq<char>, Seq<char>)> {
    connection_fields(model, connection_id, age_millis) + volume_fields(report) + blocking_fields(
        report,
    ) + ending_fields(model)
}

fn format_path(path: Option<PathReport>) -> (text: String)
    ensures
        text@ == path_text(path),
{
    let inner = match path {
        Some(path) => {
            let fields = vec![
                number_field("rtt_ms", path.rtt_ms),
                number_field("rttvar_ms", path.rttvar_ms),
                number_field("cwnd", path.cwnd),
                number_field("pto", path.pto),
                number_field("delivery_rate", path.delivery_rate),
                number_field("path_lost", path.lost),
                number_field("path_retrans", path.retrans),
            ];
            assert(field_views(fields@) =~= path_fields(path));
            join_fields(&fields)
        },
        None => "none".to_owned(),
    };
    let mut text = "[".to_owned();
    text.append(inner.as_str());
    text.append("]");
    text
}

fn format_state(state: State) -> (text: String)
    ensures
        text@ == state_name(state),
{
    match state {
        State::Initial => "Initial".to_owned(),
        State::Established => "Established".to_owned(),
        State::Draining => "Draining".to_owned(),
        State::Closed => "Closed".to_owned(),
    }
}

fn idle_millis(age_millis: u64, progress_millis: u64) -> (millis: u64)
    ensures
        millis == idle(age_millis as int, progress_millis as int),
{
    if age_millis >= progress_millis {
        age_millis - progress_millis
    } else {
        0
    }
}

fn collect_connection_fields(
    connection: &QuicConnection,
    connection_id: &str,
    age_millis: u64,
) -> (fields: Vec<Field>)
    ensures
        field_views(fields@) == connection_fields(connection@, connection_id@, age_millis),
{
    let fields = vec![
        text_field("cid", connection_id.to_owned()),
        text_field("side", connection.side().label().to_owned()),
        text_field("state", format_state(connection.state())),
        number_field("age_ms", age_millis),
        number_field("streams", connection.stream_count() as u64),
        number_field("uncreated_streams", connection.uncreated_stream_count() as u64),
        number_field("externally_dropped_streams", connection.dropped_stream_count() as u64),
        bool_field("underlying_send_pending", connection.send_pending()),
        number_field(
            "underlying_send_idle_ms",
            idle_millis(age_millis, connection.last_send_progress_millis()),
        ),
        number_field(
            "underlying_recv_idle_ms",
            idle_millis(age_millis, connection.last_recv_progress_millis()),
        ),
        number_field("underlay_loss_floor_ms", connection.loss_delay_floor_micros() / 1_000),
    ];
    assert(field_views(fields@) =~= connection_fields(connection@, connection_id@, age_millis));
    fields
}

fn collect_volume_fields(report: &TransportReport) -> (fields: Vec<Field>)
    ensures
        field_views(fields@) == volume_fields(*report),
{
    let fields = vec![
        number_field("quic_sent_packets", report.sent),
        number_field("quic_recv_packets", report.recv),
        number_field("quic_sent_bytes", report.sent_bytes),
        number_field("quic_recv_bytes", report.recv_bytes),
        number_field("quic_acked_bytes", report.acked_bytes),
        number_field("quic_lost_packets", report.lost),
        number_field("quic_spurious_lost_packets", report.spurious_lost),
        number_field("quic_lost_bytes", report.lost_bytes),
        number_field("quic_retrans_packets", report.retrans),
        number_field("quic_stream_retrans_bytes", report.stream_retrans_bytes),
    ];
    assert(field_views(fields@) =~= volume_fields(*report));
    fields
}

fn collect_blocking_fields(report: &TransportReport) -> (fields: Vec<Field>)
    ensures
        field_views(fields@) == blocking_fields(*report),
{
    let fields = vec![
        number_field("data_blocked_sent", report.data_blocked_sent),
        number_field("data_blocked_recv", report.data_blocked_recv),
        number_field("stream_data_blocked_sent", report.stream_data_blocked_sent),
        number_field("stream_data_blocked_recv", report.stream_data_blocked_recv),
        number_field("streams_blocked_bidi_recv", report.streams_blocked_bidi_recv),
        number_field("reset_local", report.reset_local),
        number_field("reset_remote", report.reset_remote),
        number_field("stopped_local", report.stopped_local),
        number_field("stopped_remote", report.stopped_remote),
        text_field("tx_buffered", report.tx_buffered.clone()),
        text_field("path", format_path(report.path)),
    ];
    assert(field_views(fields@) =~= blocking_fields(*report));
    fields
}

/// The diagnostic line of a connection that is `age_millis` old.
pub fn format_connection_diagnostics(
    connection: &QuicConnection,
    connection_id: &str,
    age_millis: u64,
    report: &TransportReport,
) -> (text: String)
    ensures
        text@ == joined(diagnostic_fields(connection@, connection_id@, age_millis, *report)),
{
    let mut fields = collect_connection_fields(connection, connection_id, age_millis);
    let mut volume = collect_volume_fields(report);
    let mut blocking = collect_blocking_fields(report);
    let ghost first = fields@;
    let ghost second = volume@;
    let ghost third = blocking@;
    fields.append(&mut volume);
    fields.append(&mut blocking);
    fields.push(bool_field("transport_closed", connection.transport_closed()));
    fields.push(bool_field("driver_failed", connection.driver_failed()));
    proof {
        assert(field_views(fields@) =~= field_views(first) + field_views(second) + field_views(
            third,
        ) + ending_fields(connection@));
    }
    join_fields(&fields)
}

/// A shown connection id spells its first six bytes, or all where there are fewer; connection ids
/// that are made have twenty.
pub proof fn law_ids_are_shown_by_their_first_bytes(
    id: &[u8],
    text: String,
    made: Vec<u8>,
    index: int,
)
    requires
        call_ensures(format_connection_id, (id,), text),
        call_ensures(generate_connection_id, (), made),
    ensures
        made@.len() == 20,
        id@.len() >= 6 ==> text@.len() == 12,
        id@.len() < 6 ==> text@.len() == 2 * id@.len(),
        0 <= index < id@.len() && index < 6 ==> text@[2 * index] == "0123456789abcdef"@[(
        id@[index] / 16) as int] && text@[2 * index + 1] == "0123456789abcdef"@[(id@[index]
            % 16) as int],
{
    let shown = if id@.len() < 6 {
        id@
    } else {
        id@.take(6)
    };
    assert(id@.take(id@.len() as int) =~= id@);
    law_hex_text_spells_its_bytes(shown, index);
}

/// Fields stand one behind the other with a space between.
pub proof fn law_fields_are_joined_in_order(
    fields: Seq<(Seq<char>, Seq<char>)>,
    more: Seq<(Seq<char>, Seq<char>)>,
    name: Seq<char>,
    value: Seq<char>,
)
    ensures
        joined(seq![(name, value)]) == name + "="@ + value,
        fields.len() > 0 && more.len() > 0 ==> joined(fields + more) == joined(fields) + " "@
            + joined(more),
    decreases more.len(),
{
    if fields.len() > 0 && more.len() > 0 {
        let all = fields + more;
        assert(all.last() == more.last());
        let front = more.drop_last();
        assert(all.drop_last() =~= fields + front);
        if more.len() > 1 {
            law_fields_are_joined_in_order(fields, front, name, value);
        } else {
            assert(all.drop_last() =~= fields);
        }
        assert(joined(all) =~= joined(fields) + " "@ + joined(more));
    }
}

/// A connection is idle for as long as it has gone since its last progress.
pub proof fn law_idle_time_is_since_the_last_progress(progress_millis: int, since: int)
    requires
        progress_millis >= 0,
        since >= 0,
    ensures
        idle(progress_millis + since, progress_millis) == since,
        idle(progress_millis, progress_millis + since) == 0,
{
}

/// The line tells of the connection first, then of what was transferred, of what is blocked and of
/// how the connection ended; a connection without a path has `[none]` for it.
pub proof fn law_diagnostics_tell_of_the_connection(
    connection: QuicConnection,
    connection_id: &str,
    age_millis: u64,
    report: TransportReport,
    text: String,
)
    requires
        call_ensures(
            format_connection_diagnostics,
            (&connection, connection_id, age_millis, &report),
            text,
        ),
    ensures
        text@ == joined(connection_fields(connection@, connection_id@, age_millis)) + " "@ + joined(
            volume_fields(report),
        ) + " "@ + joined(blocking_fields(report)) + " "@ + joined(ending_fields(connection@)),
        report.path is None ==> blocking_fields(report).last() == ("path"@, "[none]"@),
        connection_fields(connection@, connection_id@, age_millis)[0] == ("cid"@, connection_id@),
        ending_fields(connection@)[0] == (
            "transport_closed"@,
            if connection@.transport_closed {
                "true"@
            } else {
                "false"@
            },
        ),
        ending_fields(connection@)[1] == (
            "driver_failed"@,
            if connection@.driver_failed {
                "true"@
            } else {
                "false"@
            },
        ),
{
    let first = connection_fields(connection@, connection_id@, age_millis);
    let second = volume_fields(report);
    let third = blocking_fields(report);
    let fourth = ending_fields(connection@);
    let nothing = Seq::<char>::empty();
    law_fields_are_joined_in_order(first + second + third, fourth, nothing, nothing);
    law_fields_are_joined_in_order(first + second, third, nothing, nothing);
    law_fields_are_joined_in_order(first, second, nothing, nothing);
    reveal_strlit("[");
    reveal_strlit("]");
    reveal_strlit("none");
    reveal_strlit("[none]");
    assert("["@ + "none"@ + "]"@ =~= "[none]"@);
}

/// Every count of the transport's report stands under its own name.
pub proof fn law_counts_stand_under_their_names(report: TransportReport, path: PathReport)
    ensures
        volume_fields(report).contains(("quic_sent_packets"@, decimal_text(report.sent as nat))),
        volume_fields(report).contains(("quic_recv_packets"@, decimal_text(report.recv as nat))),
        volume_fields(report).contains(("quic_sent_bytes"@, decimal_text(report.sent_bytes as nat))),
        volume_fields(report).contains(("quic_recv_bytes"@, decimal_text(report.recv_bytes as nat))),
        volume_fields(report).contains(("quic_acked_bytes"@, decimal_text(report.acked_bytes as nat))),
        volume_fields(report).contains(("quic_lost_packets"@, decimal_text(report.lost as nat))),
        volume_fields(report).contains(("quic_spurious_lost_packets"@, decimal_text(report.spurious_lost as nat))),
        volume_fields(report).contains(("quic_lost_bytes"@, decimal_text(report.lost_bytes as nat))),
        volume_fields(report).contains(("quic_retrans_packets"@, decimal_text(report.retrans as nat))),
        volume_fields(report).contains(("quic_stream_retrans_bytes"@, decimal_text(report.stream_retrans_bytes as nat))),
        blocking_fields(report).contains(("data_blocked_sent"@, decimal_text(report.data_blocked_sent as nat))),
        blocking_fields(report).contains(("data_blocked_recv"@, decimal_text(report.data_blocked_recv as nat))),
        blocking_fields(report).contains(("stream_data_blocked_sent"@, decimal_text(report.stream_data_blocked_sent as nat))),
        blocking_fields(report).contains(("stream_data_blocked_recv"@, decimal_text(report.stream_data_blocked_recv as nat))),
        blocking_fields(report).contains(("streams_blocked_bidi_recv"@, decimal_text(report.streams_blocked_bidi_recv as nat))),
        blocking_fields(report).contains(("reset_local"@, decimal_text(report.reset_local as nat))),
        blocking_fields(report).contains(("reset_remote"@, decimal_text(report.reset_remote as nat))),
        blocking_fields(report).contains(("stopped_local"@, decimal_text(report.stopped_local as nat))),
        blocking_fields(report).contains(("stopped_remote"@, decimal_text(report.stopped_remote as nat))),
        blocking_fields(report).contains(("tx_buffered"@, report.tx_buffered@)),
        path_fields(path).contains(("rtt_ms"@, decimal_text(path.rtt_ms as nat))),
        path_fields(path).contains(("rttvar_ms"@, decimal_text(path.rttvar_ms as nat))),
        path_fields(path).contains(("cwnd"@, decimal_text(path.cwnd as nat))),
        path_fields(path).contains(("pto"@, decimal_text(path.pto as nat))),
        path_fields(path).contains(("delivery_rate"@, decimal_text(path.delivery_rate as nat))),
        path_fields(path).contains(("path_lost"@, decimal_text(path.lost as nat))),
        path_fields(path).contains(("path_retrans"@, decimal_text(path.retrans as nat))),
{
    let volume = volume_fields(report);
    assert(volume[0].0 == "quic_sent_packets"@);
    assert(volume[1].0 == "quic_recv_packets"@);
    assert(volume[2].0 == "quic_sent_bytes"@);
    assert(volume[3].0 == "quic_recv_bytes"@);
    assert(volume[4].0 == "quic_acked_bytes"@);
    assert(volume[5].0 == "quic_lost_packets"@);
    assert(volume[6].0 == "quic_spurious_lost_packets"@);
    assert(volume[7].0 == "quic_lost_bytes"@);
    assert(volume[8].0 == "quic_retrans_packets"@);
    assert(volume[9].0 == "quic_stream_retrans_bytes"@);
    let blocking = blocking_fields(report);
    assert(blocking[0].0 == "data_blocked_sent"@);
    assert(blocking[1].0 == "data_blocked_recv"@);
    assert(blocking[2].0 == "stream_data_blocked_sent"@);
    assert(blocking[3].0 == "stream_data_blocked_recv"@);
    assert(blocking[4].0 == "streams_blocked_bidi_recv"@);
    assert(blocking[5].0 == "reset_local"@);
    assert(blocking[6].0 == "reset_remote"@);
    assert(blocking[7].0 == "stopped_local"@);
    assert(blocking[8].0 == "stopped_remote"@);
    assert(blocking[9].0 == "tx_buffered"@);
    let fields = path_fields(path);
    assert(fields[0].0 == "rtt_ms"@);
    assert(fields[1].0 == "rttvar_ms"@);
    assert(fields[2].0 == "cwnd"@);
    assert(fields[3].0 == "pto"@);
    assert(fields[4].0 == "delivery_rate"@);
    assert(fields[5].0 == "path_lost"@);
    assert(fields[6].0 == "path_retrans"@);
}

} // verus!
