//! Decoding captured frames and turning them into activity events.

use vstd::prelude::*;

use crate::address::{mac_string, mac_text, AddressDirectory};

verus! {

/// Length of a link-layer frame header: destination, source, type.
pub const FRAME_HEADER_LEN: usize = 14;

/// One record of a capture: its arrival time in seconds since the epoch and
/// the raw link-layer bytes.
pub struct CaptureRecord {
    pub seconds: i64,
    pub data: Vec<u8>,
}

/// The parts of a decoded frame that the analysis uses.
pub struct CapturedFrame {
    pub hour: u32,
    pub source: String,
    pub destination: String,
}

/// A device seen active at an hour of the day.
pub struct ActivityEvent {
    pub device: String,
    pub hour: u32,
}

/// Why a capture cannot be analysed.
#[derive(Debug, PartialEq, Eq, Structural)]
pub enum CaptureError {
    /// A record's timestamp, given here, has no calendar instant.
    CorruptRecord(i64),
}

/// The hour of the day, in UTC, of a time in seconds since the epoch.
pub open spec fn hour_of(secs: int) -> int {
    (secs % 86400) / 3600
}

/// Timestamps that surely have a calendar instant.
pub open spec fn plain_timestamp(secs: int) -> bool {
    0 <= secs <= u32::MAX
}

/// Relies on chrono's DateTime::from_timestamp and Timelike::hour: an
/// instant exists at least for every timestamp from the epoch to 2106, and
/// its hour is the hour of the day in UTC.
#[verifier::external_body]
fn utc_hour(secs: i64) -> (r: Option<u32>)
    ensures
        r matches Some(h) ==> h as int == hour_of(secs as int),
        plain_timestamp(secs as int) ==> r.is_some(),
{
    chrono::DateTime::from_timestamp(secs, 0).map(|t| chrono::Timelike::hour(&t))
}

/// Relies on pnet's EthernetPacket::new, get_source and get_destination: a
/// frame is read from at least 14 bytes, the destination address is bytes
/// 0 to 5 and the source address bytes 6 to 11. Returns (source, destination).
#[verifier::external_body]
fn frame_addresses(data: &[u8]) -> (r: Option<([u8; 6], [u8; 6])>)
    ensures
        r.is_some() == (data@.len() >= 14),
        r matches Some(p) ==> p.0@ == data@.subrange(6, 12) && p.1@ == data@.subrange(0, 6),
{
    pnet::packet::ethernet::EthernetPacket::new(data).map(
        |f| (f.get_source().octets(), f.get_destination().octets()),
    )
}

/// An event as plain values: device and hour.
pub open spec fn event_view(e: ActivityEvent) -> (Seq<char>, u32) {
    (e.device@, e.hour)
}

pub open spec fn events_view(s: Seq<ActivityEvent>) -> Seq<(Seq<char>, u32)> {
    s.map_values(|e: ActivityEvent| event_view(e))
}

/// The events of one frame: the source's device, then the destination's,
/// each only where the directory holds the address.
pub open spec fn frame_events_of(
    dir: Map<Seq<char>, Seq<char>>,
    hour: u32,
    source: Seq<char>,
    destination: Seq<char>,
) -> Seq<(Seq<char>, u32)> {
    (if dir.contains_key(source) {
        seq![(dir[source], hour)]
    } else {
        Seq::empty()
    }) + (if dir.contains_key(destination) {
        seq![(dir[destination], hour)]
    } else {
        Seq::empty()
    })
}

/// The events of one record: none unless it holds a frame header.
pub open spec fn record_events(dir: Map<Seq<char>, Seq<char>>, r: CaptureRecord) -> Seq<
    (Seq<char>, u32),
> {
    if r.data@.len() >= 14 {
        frame_events_of(
            dir,
            hour_of(r.seconds as int) as u32,
            mac_text(r.data@.subrange(6, 12)),
            mac_text(r.data@.subrange(0, 6)),
        )
    } else {
        Seq::empty()
    }
}

/// The events of a capture, record after record.
pub open spec fn capture_events(dir: Map<Seq<char>, Seq<char>>, recs: Seq<CaptureRecord>) -> Seq<
    (Seq<char>, u32),
>
    decreases recs.len(),
{
    if recs.len() == 0 {
        Seq::empty()
    } else {
        capture_events(dir, recs.drop_last()) + record_events(dir, recs.last())
    }
}

/// Every record's timestamp surely has a calendar instant.
pub open spec fn plain_timestamps(recs: Seq<CaptureRecord>) -> bool {
    forall|i: int| 0 <= i < recs.len() ==> plain_timestamp(#[trigger] recs[i].seconds as int)
}

/// Some record has the timestamp `secs`, and it is not a plain one.
pub open spec fn holds_odd_timestamp(recs: Seq<CaptureRecord>, secs: i64) -> bool {
    exists|i: int|
        0 <= i < recs.len() && #[trigger] recs[i].seconds == secs && !plain_timestamp(secs as int)
}

pub proof fn lemma_hour_in_day(secs: int)
    ensures
        0 <= hour_of(secs) < 24,
{
}

/// Decodes one record. A record without a frame header is skipped
/// (`Ok(None)`); a timestamp without a calendar instant is an error.
pub fn decode_frame(record: &CaptureRecord) -> (r: Result<Option<CapturedFrame>, CaptureError>)
    ensures
        plain_timestamp(record.seconds as int) ==> r.is_ok(),
        r matches Err(CaptureError::CorruptRecord(s)) ==> s == record.seconds && !plain_timestamp(
            s as int,
        ),
        r matches Ok(None) ==> record.data@.len() < 14,
        r matches Ok(Some(f)) ==> {
            &&& record.data@.len() >= 14
            &&& f.hour as int == hour_of(record.seconds as int)
            &&& f.source@ == mac_text(record.data@.subrange(6, 12))
            &&& f.destination@ == mac_text(record.data@.subrange(0, 6))
        },
{
    let hour = match utc_hour(record.seconds) {
        Some(h) => h,
        None => {
            return Err(CaptureError::CorruptRecord(record.seconds));
        },
    };
    match frame_addresses(record.data.as_slice()) {
        Some((source, destination)) => Ok(
            Some(
                CapturedFrame {
                    hour,
                    source: mac_string(source),
                    destination: mac_string(destination),
                },
            ),
        ),
        None => Ok(None),
    }
}

/// The activity events of one frame: one for each of its two addresses
/// that the directory holds, source first; so at most two, and two when
/// both resolve, even to the same device.
pub fn frame_events(frame: &CapturedFrame, mac_mapping: &AddressDirectory) -> (r: Vec<
    ActivityEvent,
>)
    ensures
        events_view(r@) == frame_events_of(
            mac_mapping@,
            frame.hour,
            frame.source@,
            frame.destination@,
        ),
        r@.len() == (if mac_mapping@.contains_key(frame.source@) {
            1int
        } else {
            0int
        }) + (if mac_mapping@.contains_key(frame.destination@) {
            1int
        } else {
            0int
        }),
        r@.len() <= 2,
        forall|i: int| 0 <= i < r@.len() ==> (#[trigger] r@[i]).hour == frame.hour,
{
    let mut events: Vec<ActivityEvent> = Vec::new();
    if let Some(device) = mac_mapping.lookup(&frame.source) {
        events.push(ActivityEvent { device, hour: frame.hour });
    }
    if let Some(device) = mac_mapping.lookup(&frame.destination) {
        events.push(ActivityEvent { device, hour: frame.hour });
    }
    assert(events_view(events@) =~= frame_events_of(
        mac_mapping@,
        frame.hour,
        frame.source@,
        frame.destination@,
    ));
    events
}

/// Runs a whole capture through the decoder and the directory: the events
/// of every record, in record order. The first record whose timestamp has
/// no calendar instant ends the analysis with an error.
pub fn analyze_packets(records: &Vec<CaptureRecord>, mac_mapping: &AddressDirectory) -> (r: Result<
    Vec<ActivityEvent>,
    CaptureError,
>)
    ensures
        plain_timestamps(records@) ==> r.is_ok(),
        r matches Err(CaptureError::CorruptRecord(s)) ==> holds_odd_timestamp(records@, s),
        r matches Ok(evs) ==> events_view(evs@) == capture_events(mac_mapping@, records@),
        r matches Ok(evs) ==> evs@.len() <= 2 * records@.len(),
        r matches Ok(evs) ==> forall|i: int| 0 <= i < evs@.len() ==> (#[trigger] evs@[i]).hour < 24,
{
    let mut events: Vec<ActivityEvent> = Vec::new();
    let mut i: usize = 0;
    while i < records.len()
        invariant
            i <= records@.len(),
            events_view(events@) == capture_events(mac_mapping@, records@.subrange(0, i as int)),
            events@.len() <= 2 * i,
            forall|k: int| 0 <= k < events@.len() ==> (#[trigger] events@[k]).hour < 24,
        decreases records.len() - i,
    {
        let record = &records[i];
        proof {
            assert(records@.subrange(0, i + 1).drop_last() =~= records@.subrange(0, i as int));
            assert(records@.subrange(0, i + 1).last() == records@[i as int]);
        }
        match decode_frame(record) {
            Err(e) => {
                proof {
                    assert(records@[i as int].seconds == record.seconds);
                }
                return Err(e);
            },
            Ok(None) => {
                assert(record_events(mac_mapping@, *record) =~= Seq::empty());
                assert(events_view(events@) + Seq::empty() =~= events_view(events@));
            },
            Ok(Some(frame)) => {
                proof {
                    lemma_hour_in_day(record.seconds as int);
                }
                let more = frame_events(&frame, mac_mapping);
                let ghost before = events@;
                let mut j: usize = 0;
                while j < more.len()
                    invariant
                        j <= more@.len() <= 2,
                        events@ == before + more@.subrange(0, j as int),
                        forall|k: int| 0 <= k < more@.len() ==> (#[trigger] more@[k]).hour == frame.hour,
                    decreases more.len() - j,
                {
                    let e = ActivityEvent { device: more[j].device.clone(), hour: more[j].hour };
                    events.push(e);
                    proof {
                        assert(more@.subrange(0, j + 1) =~= more@.subrange(0, j as int).push(more@[j as int]));
                    }
                    j += 1;
                }
                proof {
                    assert(more@.subrange(0, j as int) =~= more@);
                    assert(events_view(before + more@) =~= events_view(before) + events_view(more@));
                }
            },
        }
        i += 1;
    }
    assert(records@.subrange(0, i as int) =~= records@);
    Ok(events)
}

} // verus!
