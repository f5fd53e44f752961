use device_activity::run::{axis_ceiling, capture_label, Args, RunPlan, UsageError};

fn args(file: Option<&str>, folder: Option<&str>, median: bool, devices: &[&str]) -> Args {
    Args {
        device_file: "devices.xlsx".to_string(),
        pcap_file: file.map(|s| s.to_string()),
        pcap_folder: folder.map(|s| s.to_string()),
        output_file: "out.png".to_string(),
        median,
        verbose: 1,
        selected_device: devices.iter().map(|s| s.to_string()).collect(),
    }
}

#[test]
fn folder_median_without_selection_is_refused() {
    let r = args(None, Some("caps"), true, &[]).plan();
    assert_eq!(r.err(), Some(UsageError::InvalidSelection));
}

#[test]
fn folder_median_with_two_devices_is_refused() {
    let r = args(None, Some("caps"), true, &["a", "b"]).plan();
    assert_eq!(r.err(), Some(UsageError::InvalidSelection));
}

#[test]
fn folder_median_with_one_device() {
    match args(None, Some("caps"), true, &["a"]).plan() {
        Ok(RunPlan::FolderMedian { folder, device }) => {
            assert_eq!(folder, "caps");
            assert_eq!(device, "a");
        }
        _ => panic!("expected a median plan"),
    }
}

#[test]
fn comparative_folder_needs_one_device() {
    assert_eq!(args(None, Some("caps"), false, &[]).plan().err(), Some(UsageError::InvalidSelection));
    assert!(matches!(
        args(None, Some("caps"), false, &["a"]).plan(),
        Ok(RunPlan::FolderComparative { .. })
    ));
}

#[test]
fn single_file_plan_and_conflicts() {
    assert!(matches!(args(Some("a.pcap"), None, false, &[]).plan(), Ok(RunPlan::Single { .. })));
    assert_eq!(
        args(Some("a.pcap"), None, true, &[]).plan().err(),
        Some(UsageError::MedianNeedsFolder)
    );
    assert_eq!(
        args(Some("a.pcap"), Some("caps"), false, &["a"]).plan().err(),
        Some(UsageError::ConflictingSources)
    );
    assert!(matches!(args(None, None, false, &[]).plan(), Ok(RunPlan::Nothing)));
}

#[test]
fn capture_names_give_day_labels() {
    assert_eq!(capture_label("day1.pcap"), Some("day1".to_string()));
    assert_eq!(capture_label("a.b.pcap"), Some("a.b".to_string()));
    assert_eq!(capture_label(".pcap"), None);
    assert_eq!(capture_label("notes.txt"), None);
    assert_eq!(capture_label("day2.PCAP"), None);
    assert_eq!(capture_label("day3.pcapng"), None);
}

#[test]
fn axis_top_rounds_up_to_ten() {
    assert_eq!(axis_ceiling(&[0, 13, 7]), 20);
    assert_eq!(axis_ceiling(&[10]), 10);
    assert_eq!(axis_ceiling(&[]), 0);
    assert_eq!(axis_ceiling(&[u32::MAX]), 4_294_967_300);
}
