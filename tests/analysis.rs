use device_activity::address::{load_mac_addresses, AddressDirectory};
use device_activity::capture::{
    analyze_packets, decode_frame, frame_events, CaptureError, CaptureRecord, CapturedFrame,
};
use device_activity::folder::{
    analyze_pcap, analyze_pcap_folder, analyze_pcap_folder_median, group_by_device, hours_of,
    CaptureFile,
};

const PHONE: [u8; 6] = [0x00, 0x11, 0x22, 0x33, 0x44, 0x55];
const LAPTOP: [u8; 6] = [0xaa, 0xbb, 0xcc, 0xdd, 0xee, 0x01];
const OTHER: [u8; 6] = [0x10, 0x20, 0x30, 0x40, 0x50, 0x60];

fn frame(destination: [u8; 6], source: [u8; 6]) -> Vec<u8> {
    let mut data = Vec::new();
    data.extend_from_slice(&destination);
    data.extend_from_slice(&source);
    data.extend_from_slice(&[0x08, 0x00, 0x45, 0x00]);
    data
}

fn record(hour: i64, destination: [u8; 6], source: [u8; 6]) -> CaptureRecord {
    CaptureRecord { seconds: 1_700_006_400 + hour * 3600 + 17, data: frame(destination, source) }
}

fn row(device: &str, address: &str) -> Vec<String> {
    vec!["x".to_string(), device.to_string(), address.to_string()]
}

fn directory() -> AddressDirectory {
    let rows = vec![
        vec!["Id".to_string(), "Device".to_string(), "MAC".to_string()],
        row("phone", "00:11:22:33:44:55"),
        row("laptop", "AA:BB:CC:DD:EE:01"),
    ];
    load_mac_addresses(&rows, &Vec::new())
}

#[test]
fn table_addresses_are_matched_whatever_their_case() {
    let dir = directory();
    assert_eq!(dir.lookup(&"aa:bb:cc:dd:ee:01".to_string()), Some("laptop".to_string()));
    assert_eq!(dir.lookup(&"00:11:22:33:44:55".to_string()), Some("phone".to_string()));
    assert_eq!(dir.lookup(&"AA:BB:CC:DD:EE:01".to_string()), None);
}

#[test]
fn header_row_is_not_an_entry() {
    let dir = directory();
    assert_eq!(dir.lookup(&"mac".to_string()), None);
}

#[test]
fn selection_keeps_only_selected_devices() {
    let rows = vec![
        vec!["Id".to_string(), "Device".to_string(), "MAC".to_string()],
        row("phone", "00:11:22:33:44:55"),
        row("laptop", "aa:bb:cc:dd:ee:01"),
    ];
    let dir = load_mac_addresses(&rows, &vec!["laptop".to_string()]);
    assert_eq!(dir.lookup(&"aa:bb:cc:dd:ee:01".to_string()), Some("laptop".to_string()));
    assert_eq!(dir.lookup(&"00:11:22:33:44:55".to_string()), None);
}

#[test]
fn later_row_for_an_address_wins() {
    let rows = vec![
        vec!["Id".to_string(), "Device".to_string(), "MAC".to_string()],
        row("old", "00:11:22:33:44:55"),
        row("new", "00:11:22:33:44:55"),
    ];
    let dir = load_mac_addresses(&rows, &Vec::new());
    assert_eq!(dir.lookup(&"00:11:22:33:44:55".to_string()), Some("new".to_string()));
}

#[test]
fn decoded_frame_has_hour_and_canonical_addresses() {
    let r = CaptureRecord { seconds: 5 * 3600 + 10, data: frame(LAPTOP, PHONE) };
    let f = decode_frame(&r).unwrap().unwrap();
    assert_eq!(f.hour, 5);
    assert_eq!(f.source, "00:11:22:33:44:55");
    assert_eq!(f.destination, "aa:bb:cc:dd:ee:01");
}

#[test]
fn hour_wraps_at_midnight_before_the_epoch() {
    let r = CaptureRecord { seconds: -1, data: frame(LAPTOP, PHONE) };
    assert_eq!(decode_frame(&r).unwrap().unwrap().hour, 23);
}

#[test]
fn short_frame_is_skipped() {
    let r = CaptureRecord { seconds: 100, data: vec![1, 2, 3, 4, 5, 6, 7, 8, 9, 10, 11, 12, 13] };
    assert!(decode_frame(&r).unwrap().is_none());
}

#[test]
fn timestamp_without_instant_is_corrupt() {
    let r = CaptureRecord { seconds: i64::MAX, data: frame(LAPTOP, PHONE) };
    assert!(matches!(decode_frame(&r), Err(CaptureError::CorruptRecord(s)) if s == i64::MAX));
}

#[test]
fn frame_yields_one_event_per_resolved_address() {
    let dir = directory();
    let both = CapturedFrame {
        hour: 7,
        source: "00:11:22:33:44:55".to_string(),
        destination: "aa:bb:cc:dd:ee:01".to_string(),
    };
    assert_eq!(frame_events(&both, &dir).len(), 2);
    let one = CapturedFrame {
        hour: 7,
        source: "10:20:30:40:50:60".to_string(),
        destination: "aa:bb:cc:dd:ee:01".to_string(),
    };
    let evs = frame_events(&one, &dir);
    assert_eq!(evs.len(), 1);
    assert_eq!(evs[0].device, "laptop");
    assert_eq!(evs[0].hour, 7);
    let none = CapturedFrame {
        hour: 7,
        source: "10:20:30:40:50:60".to_string(),
        destination: "10:20:30:40:50:61".to_string(),
    };
    assert_eq!(frame_events(&none, &dir).len(), 0);
}

#[test]
fn same_device_on_both_sides_counts_twice() {
    let dir = directory();
    let f = CapturedFrame {
        hour: 2,
        source: "00:11:22:33:44:55".to_string(),
        destination: "00:11:22:33:44:55".to_string(),
    };
    let evs = frame_events(&f, &dir);
    assert_eq!(evs.len(), 2);
    assert_eq!(evs[0].device, "phone");
    assert_eq!(evs[1].device, "phone");
}

#[test]
fn capture_events_follow_record_order() {
    let dir = directory();
    let records = vec![record(4, LAPTOP, PHONE), record(9, OTHER, OTHER), record(6, PHONE, OTHER)];
    let evs = analyze_packets(&records, &dir).unwrap();
    assert_eq!(evs.len(), 3);
    assert_eq!(evs[0].device, "phone");
    assert_eq!(evs[1].device, "laptop");
    assert_eq!(evs[2].device, "phone");
    assert_eq!(hours_of(&evs), vec![4, 4, 6]);
}

#[test]
fn corrupt_record_aborts_the_capture() {
    let dir = directory();
    let records = vec![
        record(4, LAPTOP, PHONE),
        CaptureRecord { seconds: i64::MIN, data: vec![] },
    ];
    assert_eq!(analyze_packets(&records, &dir).err(), Some(CaptureError::CorruptRecord(i64::MIN)));
}

#[test]
fn single_capture_is_grouped_by_device() {
    let dir = directory();
    let records = vec![record(4, LAPTOP, PHONE), record(6, PHONE, OTHER), record(8, LAPTOP, OTHER)];
    let activity = analyze_pcap(&records, &dir).unwrap();
    assert_eq!(activity.len(), 2);
    assert_eq!(activity[0].0, "phone");
    assert_eq!(activity[0].1, vec![4, 6]);
    assert_eq!(activity[1].0, "laptop");
    assert_eq!(activity[1].1, vec![4, 8]);
}

#[test]
fn grouping_nothing_gives_nothing() {
    assert!(group_by_device(&Vec::new()).is_empty());
}

fn phone_only() -> AddressDirectory {
    let rows = vec![
        vec!["Id".to_string(), "Device".to_string(), "MAC".to_string()],
        row("phone", "00:11:22:33:44:55"),
        row("laptop", "aa:bb:cc:dd:ee:01"),
    ];
    load_mac_addresses(&rows, &vec!["phone".to_string()])
}

#[test]
fn comparative_folder_omits_silent_days() {
    let dir = phone_only();
    let day1 = CaptureFile {
        label: "day1".to_string(),
        records: vec![
            record(1, PHONE, OTHER),
            record(2, OTHER, PHONE),
            record(2, PHONE, OTHER),
            record(3, PHONE, OTHER),
            record(9, OTHER, PHONE),
        ],
    };
    let day2 = CaptureFile {
        label: "day2".to_string(),
        records: vec![record(5, LAPTOP, OTHER), record(6, OTHER, OTHER)],
    };
    let days = analyze_pcap_folder(&vec![day1, day2], &dir).unwrap();
    assert_eq!(days.len(), 1);
    assert_eq!(days[0].0, "day1");
    assert_eq!(days[0].1, vec![1, 2, 2, 3, 9]);
}

#[test]
fn median_folder_gives_every_hour_a_sample_per_file() {
    let dir = phone_only();
    let only = CaptureFile { label: "d".to_string(), records: vec![record(3, PHONE, OTHER)] };
    let samples = analyze_pcap_folder_median(&vec![only], &dir).unwrap();
    assert_eq!(samples.len(), 24);
    for h in 0..24 {
        assert_eq!(samples[h], vec![if h == 3 { 1 } else { 0 }]);
    }
}

#[test]
fn median_folder_keeps_file_order_per_hour() {
    let dir = phone_only();
    let a = CaptureFile {
        label: "a".to_string(),
        records: vec![record(3, PHONE, OTHER), record(3, PHONE, PHONE)],
    };
    let b = CaptureFile { label: "b".to_string(), records: vec![] };
    let c = CaptureFile { label: "c".to_string(), records: vec![record(0, OTHER, PHONE)] };
    let samples = analyze_pcap_folder_median(&vec![a, b, c], &dir).unwrap();
    assert_eq!(samples[3], vec![3, 0, 0]);
    assert_eq!(samples[0], vec![0, 0, 1]);
    assert_eq!(samples[12], vec![0, 0, 0]);
}

#[test]
fn median_folder_with_no_files_has_empty_hours() {
    let dir = phone_only();
    let samples = analyze_pcap_folder_median(&Vec::new(), &dir).unwrap();
    assert_eq!(samples.len(), 24);
    assert!(samples.iter().all(|s| s.is_empty()));
}

#[test]
fn folder_stops_on_a_corrupt_file() {
    let dir = phone_only();
    let good = CaptureFile { label: "a".to_string(), records: vec![record(3, PHONE, OTHER)] };
    let bad = CaptureFile {
        label: "b".to_string(),
        records: vec![CaptureRecord { seconds: i64::MAX, data: vec![] }],
    };
    assert_eq!(
        analyze_pcap_folder(&vec![good, bad], &dir).err(),
        Some(CaptureError::CorruptRecord(i64::MAX))
    );
}
