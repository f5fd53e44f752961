//! Aggregating activity: per device for one capture, and per day or per
//! hour over the captures of a folder.

use vstd::prelude::*;

use crate::address::AddressDirectory;
use crate::capture::{
    analyze_packets, capture_events, events_view, holds_odd_timestamp, plain_timestamps,
    ActivityEvent, CaptureError, CaptureRecord,
};
use crate::hourly::{count_hourly_activity, hour_count};

verus! {

/// The hours of a sequence of events, in order.
pub open spec fn event_hours(evs: Seq<(Seq<char>, u32)>) -> Seq<u32> {
    evs.map_values(|e: (Seq<char>, u32)| e.1)
}

/// The hours at which `device` was active, in order.
pub open spec fn device_hours(evs: Seq<(Seq<char>, u32)>, device: Seq<char>) -> Seq<u32>
    decreases evs.len(),
{
    if evs.len() == 0 {
        Seq::empty()
    } else if evs.last().0 == device {
        device_hours(evs.drop_last(), device).push(evs.last().1)
    } else {
        device_hours(evs.drop_last(), device)
    }
}

/// Some event is of `device`.
pub open spec fn has_device(evs: Seq<(Seq<char>, u32)>, device: Seq<char>) -> bool {
    exists|k: int| 0 <= k < evs.len() && (#[trigger] evs[k]).0 == device
}

/// A per-device dataset as plain values.
pub open spec fn activity_view(a: Seq<(String, Vec<u32>)>) -> Seq<(Seq<char>, Seq<u32>)> {
    a.map_values(|p: (String, Vec<u32>)| (p.0@, p.1@))
}

/// `a` holds each device of `evs` once, with the hours of its events in
/// order, and no other device.
pub open spec fn groups_events(a: Seq<(Seq<char>, Seq<u32>)>, evs: Seq<(Seq<char>, u32)>) -> bool {
    &&& forall|i: int, j: int| 0 <= i < j < a.len() ==> (#[trigger] a[i]).0 != (#[trigger] a[j]).0
    &&& forall|i: int| 0 <= i < a.len() ==> (#[trigger] a[i]).1 == device_hours(evs, a[i].0)
    &&& forall|d: Seq<char>|
        has_device(evs, d) <==> exists|i: int| 0 <= i < a.len() && (#[trigger] a[i]).0 == d
}

/// One capture file of a folder: its day label and its records.
pub struct CaptureFile {
    pub label: String,
    pub records: Vec<CaptureRecord>,
}

/// The hours of a list of events.
pub fn hours_of(events: &Vec<ActivityEvent>) -> (r: Vec<u32>)
    ensures
        r@ == event_hours(events_view(events@)),
{
    let mut hours: Vec<u32> = Vec::new();
    let mut i: usize = 0;
    while i < events.len()
        invariant
            i <= events@.len(),
            hours@ == event_hours(events_view(events@.subrange(0, i as int))),
        decreases events.len() - i,
    {
        hours.push(events[i].hour);
        proof {
            assert(event_hours(events_view(events@.subrange(0, i + 1))) =~= event_hours(
                events_view(events@.subrange(0, i as int)),
            ).push(events@[i as int].hour));
        }
        i += 1;
    }
    assert(events@.subrange(0, i as int) =~= events@);
    hours
}

/// Groups events by device: one entry per device, in order of first
/// appearance, holding the hours of that device's events in order.
pub fn group_by_device(events: &Vec<ActivityEvent>) -> (r: Vec<(String, Vec<u32>)>)
    ensures
        groups_events(activity_view(r@), events_view(events@)),
{
    let mut groups: Vec<(String, Vec<u32>)> = Vec::new();
    let mut i: usize = 0;
    while i < events.len()
        invariant
            i <= events@.len(),
            groups_events(activity_view(groups@), events_view(events@.subrange(0, i as int))),
        decreases events.len() - i,
    {
        let ghost p = events_view(events@.subrange(0, i as int));
        let ghost q = events_view(events@.subrange(0, i + 1));
        let ghost ev = (events@[i as int].device@, events@[i as int].hour);
        proof {
            assert(q =~= p.push(ev));
            assert(q.drop_last() =~= p);
            assert(q.last() == ev);
        }
        let device = &events[i].device;
        let hour = events[i].hour;
        let mut k: usize = 0;
        let mut found = false;
        while k < groups.len()
            invariant_except_break
                !found,
            invariant
                k <= groups@.len(),
                forall|j: int| 0 <= j < k ==> groups@[j].0@ != device@,
            ensures
                found ==> k < groups@.len() && groups@[k as int].0@ == device@,
                !found ==> k == groups@.len(),
            decreases groups.len() - k,
        {
            if groups[k].0 == *device {
                found = true;
                break;
            }
            k += 1;
        }
        let ghost old_groups = activity_view(groups@);
        if found {
            let ghost pre = groups@;
            groups[k].1.push(hour);
            proof {
                let g = activity_view(groups@);
                assert(groups@.len() == pre.len());
                assert(groups@[k as int].0 == pre[k as int].0);
                assert(groups@[k as int].1@ == pre[k as int].1@.push(hour));
                assert forall|j: int| 0 <= j < g.len() implies (#[trigger] g[j]).1 == device_hours(q, g[j].0) by {
                    if j != k {
                        assert(groups@[j] == pre[j]);
                        assert(g[j] == old_groups[j]);
                        if j < k {
                            assert(old_groups[j].0 != old_groups[k as int].0);
                        } else {
                            assert(old_groups[k as int].0 != old_groups[j].0);
                        }
                    } else {
                        assert(g[j].0 == old_groups[j].0);
                        assert(old_groups[j].0 == ev.0);
                    }
                }
                assert forall|a: int, b: int| 0 <= a < b < g.len() implies (#[trigger] g[a]).0 != (#[trigger] g[b]).0 by {
                    assert(g[a].0 == old_groups[a].0);
                    assert(g[b].0 == old_groups[b].0);
                }
                assert forall|d: Seq<char>| has_device(q, d) <==> exists|j: int| 0 <= j < g.len() && (#[trigger] g[j]).0 == d by {
                    if has_device(q, d) {
                        let kk = choose|kk: int| 0 <= kk < q.len() && (#[trigger] q[kk]).0 == d;
                        if kk < p.len() {
                            assert(p[kk] == q[kk]);
                            assert(has_device(p, d));
                            let j = choose|j: int| 0 <= j < old_groups.len() && (#[trigger] old_groups[j]).0 == d;
                            assert(g[j].0 == d);
                        } else {
                            assert(g[k as int].0 == d);
                        }
                    }
                    if exists|j: int| 0 <= j < g.len() && (#[trigger] g[j]).0 == d {
                        let j = choose|j: int| 0 <= j < g.len() && (#[trigger] g[j]).0 == d;
                        assert(old_groups[j].0 == d);
                        assert(has_device(p, d));
                        let kk = choose|kk: int| 0 <= kk < p.len() && (#[trigger] p[kk]).0 == d;
                        assert(q[kk] == p[kk]);
                    }
                }
            }
        } else {
            let mut hours: Vec<u32> = Vec::new();
            hours.push(hour);
            groups.push((device.clone(), hours));
            proof {
                let g = activity_view(groups@);
                assert(!has_device(p, ev.0)) by {
                    if has_device(p, ev.0) {
                        let j = choose|j: int| 0 <= j < old_groups.len() && (#[trigger] old_groups[j]).0 == ev.0;
                        assert(groups@[j].0@ == old_groups[j].0);
                        assert(groups@[j].0@ != device@);
                    }
                }
                assert(device_hours(p, ev.0) =~= Seq::<u32>::empty()) by {
                    lemma_absent_device_has_no_hours(p, ev.0);
                }
                assert forall|j: int| 0 <= j < g.len() implies (#[trigger] g[j]).1 == device_hours(q, g[j].0) by {
                    if j < old_groups.len() {
                        assert(g[j] == old_groups[j]);
                    }
                }
                assert forall|a: int, b: int| 0 <= a < b < g.len() implies (#[trigger] g[a]).0 != (#[trigger] g[b]).0 by {
                    if b == old_groups.len() {
                        assert(g[a] == old_groups[a]);
                        assert(groups@[a].0@ != device@);
                    } else {
                        assert(g[a] == old_groups[a]);
                        assert(g[b] == old_groups[b]);
                    }
                }
                assert forall|d: Seq<char>| has_device(q, d) <==> exists|j: int| 0 <= j < g.len() && (#[trigger] g[j]).0 == d by {
                    if has_device(q, d) {
                        let kk = choose|kk: int| 0 <= kk < q.len() && (#[trigger] q[kk]).0 == d;
                        if kk < p.len() {
                            assert(p[kk] == q[kk]);
                            assert(has_device(p, d));
                            let j = choose|j: int| 0 <= j < old_groups.len() && (#[trigger] old_groups[j]).0 == d;
                            assert(g[j] == old_groups[j]);
                        } else {
                            assert(g[old_groups.len() as int].0 == d);
                        }
                    }
                    if exists|j: int| 0 <= j < g.len() && (#[trigger] g[j]).0 == d {
                        let j = choose|j: int| 0 <= j < g.len() && (#[trigger] g[j]).0 == d;
                        if j < old_groups.len() {
                            assert(g[j] == old_groups[j]);
                            assert(has_device(p, d));
                            let kk = choose|kk: int| 0 <= kk < p.len() && (#[trigger] p[kk]).0 == d;
                            assert(q[kk] == p[kk]);
                        } else {
                            assert(q[p.len() as int].0 == d);
                        }
                    }
                }
            }
        }
        i += 1;
    }
    assert(events@.subrange(0, i as int) =~= events@);
    groups
}

pub proof fn lemma_absent_device_has_no_hours(evs: Seq<(Seq<char>, u32)>, device: Seq<char>)
    requires
        !has_device(evs, device),
    ensures
        device_hours(evs, device) == Seq::<u32>::empty(),
    decreases evs.len(),
{
    if evs.len() > 0 {
        assert(!has_device(evs.drop_last(), device)) by {
            if has_device(evs.drop_last(), device) {
                let k = choose|k: int| 0 <= k < evs.drop_last().len() && (#[trigger] evs.drop_last()[k]).0 == device;
                assert(evs[k] == evs.drop_last()[k]);
            }
        }
        assert(evs.last() == evs[evs.len() - 1]);
        lemma_absent_device_has_no_hours(evs.drop_last(), device);
    }
}

/// The hours of the events that a capture file yields.
pub open spec fn file_hours(dir: Map<Seq<char>, Seq<char>>, f: CaptureFile) -> Seq<u32> {
    event_hours(capture_events(dir, f.records@))
}

/// The day-keyed dataset of a folder: for each file with at least one
/// event, in order, its label and the hours of its events.
pub open spec fn daily_activity_of(dir: Map<Seq<char>, Seq<char>>, files: Seq<CaptureFile>) -> Seq<
    (Seq<char>, Seq<u32>),
>
    decreases files.len(),
{
    if files.len() == 0 {
        Seq::empty()
    } else {
        let prev = daily_activity_of(dir, files.drop_last());
        let hours = file_hours(dir, files.last());
        if hours.len() > 0 {
            prev.push((files.last().label@, hours))
        } else {
            prev
        }
    }
}

/// Every day of the comparative dataset holds at least one hour: a file
/// without events has no entry.
pub proof fn lemma_daily_activity_has_no_empty_day(
    dir: Map<Seq<char>, Seq<char>>,
    files: Seq<CaptureFile>,
)
    ensures
        forall|i: int|
            0 <= i < daily_activity_of(dir, files).len() ==> (#[trigger] daily_activity_of(
                dir,
                files,
            )[i]).1.len() > 0,
        daily_activity_of(dir, files).len() <= files.len(),
    decreases files.len(),
{
    if files.len() > 0 {
        lemma_daily_activity_has_no_empty_day(dir, files.drop_last());
    }
}

/// The samples of hour `h` over a folder: one count per file, in file order.
pub open spec fn hourly_samples_of(dir: Map<Seq<char>, Seq<char>>, files: Seq<CaptureFile>, h: int) -> Seq<
    u32,
> {
    Seq::new(files.len(), |f: int| hour_count(file_hours(dir, files[f]), h) as u32)
}

/// Every record of every file has a plain timestamp.
pub open spec fn files_plain(files: Seq<CaptureFile>) -> bool {
    forall|f: int| 0 <= f < files.len() ==> plain_timestamps(#[trigger] files[f].records@)
}

/// Some file holds a record with the timestamp `secs`, which is not plain.
pub open spec fn files_hold_odd_timestamp(files: Seq<CaptureFile>, secs: i64) -> bool {
    exists|f: int| 0 <= f < files.len() && holds_odd_timestamp(#[trigger] files[f].records@, secs)
}

/// The activity of one capture per device: each device of the directory
/// seen in the capture once, with the hours of its events in order.
pub fn analyze_pcap(records: &Vec<CaptureRecord>, mac_mapping: &AddressDirectory) -> (r: Result<
    Vec<(String, Vec<u32>)>,
    CaptureError,
>)
    ensures
        plain_timestamps(records@) ==> r.is_ok(),
        r matches Err(CaptureError::CorruptRecord(s)) ==> holds_odd_timestamp(records@, s),
        r matches Ok(a) ==> groups_events(
            activity_view(a@),
            capture_events(mac_mapping@, records@),
        ),
{
    let events = analyze_packets(records, mac_mapping)?;
    Ok(group_by_device(&events))
}

/// The day-keyed dataset of a folder of captures: each file that yields
/// at least one event contributes its label with the hours of its events;
/// a file without events contributes nothing.
pub fn analyze_pcap_folder(files: &Vec<CaptureFile>, mac_mapping: &AddressDirectory) -> (r: Result<
    Vec<(String, Vec<u32>)>,
    CaptureError,
>)
    ensures
        files_plain(files@) ==> r.is_ok(),
        r matches Err(CaptureError::CorruptRecord(s)) ==> files_hold_odd_timestamp(files@, s),
        r matches Ok(a) ==> activity_view(a@) == daily_activity_of(mac_mapping@, files@),
{
    let mut days: Vec<(String, Vec<u32>)> = Vec::new();
    let mut i: usize = 0;
    while i < files.len()
        invariant
            i <= files@.len(),
            activity_view(days@) == daily_activity_of(mac_mapping@, files@.subrange(0, i as int)),
        decreases files.len() - i,
    {
        let file = &files[i];
        proof {
            assert(files@.subrange(0, i + 1).drop_last() =~= files@.subrange(0, i as int));
            assert(files@.subrange(0, i + 1).last() == files@[i as int]);
        }
        let events = match analyze_packets(&file.records, mac_mapping) {
            Ok(evs) => evs,
            Err(e) => {
                assert(files_hold_odd_timestamp(files@, match e { CaptureError::CorruptRecord(s) => s }) ) by {
                    assert(files@[i as int] == *file);
                }
                return Err(e);
            },
        };
        let hours = hours_of(&events);
        if hours.len() > 0 {
            let ghost pre = days@;
            days.push((file.label.clone(), hours));
            proof {
                assert(activity_view(days@) =~= activity_view(pre).push((days@[pre.len() as int].0@, days@[pre.len() as int].1@)));
            }
        }
        i += 1;
    }
    assert(files@.subrange(0, i as int) =~= files@);
    Ok(days)
}

/// The hour-keyed samples of a folder of captures: for each of the 24 hours,
/// one count per file, in file order, 0 where a file has no event in that
/// hour.
pub fn analyze_pcap_folder_median(files: &Vec<CaptureFile>, mac_mapping: &AddressDirectory) -> (r:
    Result<Vec<Vec<u32>>, CaptureError>)
    requires
        forall|f: int| 0 <= f < files@.len() ==> (#[trigger] files@[f]).records@.len() <= u32::MAX / 2,
    ensures
        files_plain(files@) ==> r.is_ok(),
        r matches Err(CaptureError::CorruptRecord(s)) ==> files_hold_odd_timestamp(files@, s),
        r matches Ok(samples) ==> samples@.len() == 24,
        r matches Ok(samples) ==> forall|h: int|
            0 <= h < 24 ==> (#[trigger] samples@[h])@ == hourly_samples_of(mac_mapping@, files@, h),
        r matches Ok(samples) ==> forall|h: int|
            0 <= h < 24 ==> (#[trigger] samples@[h])@.len() == files@.len(),
{
    let mut samples: Vec<Vec<u32>> = Vec::new();
    let mut h: usize = 0;
    while h < 24
        invariant
            h <= 24,
            samples@.len() == h,
            forall|k: int| 0 <= k < h ==> (#[trigger] samples@[k])@ == Seq::<u32>::empty(),
        decreases 24 - h,
    {
        samples.push(Vec::new());
        h += 1;
    }
    let mut i: usize = 0;
    while i < files.len()
        invariant
            i <= files@.len(),
            samples@.len() == 24,
            forall|f: int| 0 <= f < files@.len() ==> (#[trigger] files@[f]).records@.len() <= u32::MAX / 2,
            forall|k: int|
                0 <= k < 24 ==> (#[trigger] samples@[k])@ == hourly_samples_of(
                    mac_mapping@,
                    files@.subrange(0, i as int),
                    k,
                ),
        decreases files.len() - i,
    {
        let file = &files[i];
        let events = match analyze_packets(&file.records, mac_mapping) {
            Ok(evs) => evs,
            Err(e) => {
                assert(files_hold_odd_timestamp(files@, match e { CaptureError::CorruptRecord(s) => s }) ) by {
                    assert(files@[i as int] == *file);
                }
                return Err(e);
            },
        };
        let hours = hours_of(&events);
        assert(file.records@.len() <= u32::MAX / 2) by {
            assert(files@[i as int] == *file);
        }
        let counts = count_hourly_activity(hours.as_slice());
        let ghost before = samples@;
        let mut k: usize = 0;
        while k < 24
            invariant
                k <= 24,
                i < files@.len(),
                samples@.len() == 24,
                before.len() == 24,
                counts@.len() == 24,
                forall|j: int| 0 <= j < 24 ==> counts@[j] == hour_count(hours@, j),
                hours@ == file_hours(mac_mapping@, files@[i as int]),
                forall|j: int|
                    0 <= j < k ==> (#[trigger] samples@[j])@ == hourly_samples_of(
                        mac_mapping@,
                        files@.subrange(0, i + 1),
                        j,
                    ),
                forall|j: int| k <= j < 24 ==> #[trigger] samples@[j] == before[j],
                forall|j: int|
                    0 <= j < 24 ==> (#[trigger] before[j])@ == hourly_samples_of(
                        mac_mapping@,
                        files@.subrange(0, i as int),
                        j,
                    ),
            decreases 24 - k,
        {
            let c = counts[k];
            samples[k].push(c);
            proof {
                assert(samples@[k as int]@ =~= hourly_samples_of(
                    mac_mapping@,
                    files@.subrange(0, i + 1),
                    k as int,
                ));
            }
            k += 1;
        }
        i += 1;
    }
    assert(files@.subrange(0, i as int) =~= files@);
    Ok(samples)
}

} // verus!
