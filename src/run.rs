//! What a run does, decided from its arguments before any input is read,
//! and the small rules that surround the analysis.

use vstd::prelude::*;

verus! {

/// The arguments of a run.
pub struct Args {
    /// Spreadsheet listing the devices and their hardware addresses.
    pub device_file: String,
    /// One capture file to analyse.
    pub pcap_file: Option<String>,
    /// A folder of capture files, one per day, for a single device.
    pub pcap_folder: Option<String>,
    /// Where the chart goes.
    pub output_file: String,
    /// Median profile instead of a comparative chart (folder only).
    pub median: bool,
    /// Verbosity level, 0 to 2.
    pub verbose: i32,
    /// Devices to restrict the analysis to; empty for all.
    pub selected_device: Vec<String>,
}

/// What a run does.
pub enum RunPlan {
    /// Per-device activity of one capture file.
    Single { pcap_file: String },
    /// Per-day activity of one device over a folder of captures.
    FolderComparative { folder: String },
    /// Median hourly profile of one device over a folder of captures.
    FolderMedian { folder: String, device: String },
    /// No capture source given: nothing to analyse.
    Nothing,
}

/// Why the arguments describe no valid run.
#[derive(Debug, PartialEq, Eq, Structural)]
pub enum UsageError {
    /// Both a capture file and a capture folder were given.
    ConflictingSources,
    /// The median profile was asked for a single capture file.
    MedianNeedsFolder,
    /// A folder analysis needs exactly one selected device.
    InvalidSelection,
}

impl Args {
    /// Decides the run from the arguments alone, before anything is read.
    /// A folder analysis, comparative or median, is refused unless exactly
    /// one device is selected.
    pub fn plan(&self) -> (r: Result<RunPlan, UsageError>)
        ensures
            (r == Err::<RunPlan, UsageError>(UsageError::ConflictingSources)) <==> (
            self.pcap_file.is_some() && self.pcap_folder.is_some()),
            (r == Err::<RunPlan, UsageError>(UsageError::MedianNeedsFolder)) <==> (
            self.pcap_file.is_some() && self.pcap_folder.is_none() && self.median),
            (r == Err::<RunPlan, UsageError>(UsageError::InvalidSelection)) <==> (
            self.pcap_file.is_none() && self.pcap_folder.is_some() && self.selected_device@.len()
                != 1),
            r matches Ok(RunPlan::Single { pcap_file }) ==> self.pcap_file == Some(pcap_file)
                && self.pcap_folder.is_none() && !self.median,
            r matches Ok(RunPlan::FolderComparative { folder }) ==> self.pcap_folder == Some(folder)
                && self.pcap_file.is_none() && !self.median && self.selected_device@.len() == 1,
            r matches Ok(RunPlan::FolderMedian { folder, device }) ==> self.pcap_folder == Some(
                folder,
            ) && self.pcap_file.is_none() && self.median && self.selected_device@.len() == 1
                && device == self.selected_device@[0],
            r matches Ok(RunPlan::Nothing) ==> self.pcap_file.is_none()
                && self.pcap_folder.is_none(),
            (self.pcap_file.is_none() && self.pcap_folder.is_none()) ==> r matches Ok(
                RunPlan::Nothing,
            ),
            (self.pcap_file.is_some() && self.pcap_folder.is_none() && !self.median) ==> r matches Ok(
                RunPlan::Single { .. },
            ),
            (self.pcap_file.is_none() && self.pcap_folder.is_some() && self.selected_device@.len()
                == 1) ==> (if self.median {
                r matches Ok(RunPlan::FolderMedian { .. })
            } else {
                r matches Ok(RunPlan::FolderComparative { .. })
            }),
    {
        match (&self.pcap_file, &self.pcap_folder) {
            (Some(_), Some(_)) => Err(UsageError::ConflictingSources),
            (Some(file), None) => {
                if self.median {
                    Err(UsageError::MedianNeedsFolder)
                } else {
                    Ok(RunPlan::Single { pcap_file: file.clone() })
                }
            },
            (None, Some(folder)) => {
                if self.selected_device.len() != 1 {
                    Err(UsageError::InvalidSelection)
                } else if self.median {
                    Ok(
                        RunPlan::FolderMedian {
                            folder: folder.clone(),
                            device: self.selected_device[0].clone(),
                        },
                    )
                } else {
                    Ok(RunPlan::FolderComparative { folder: folder.clone() })
                }
            },
            (None, None) => Ok(RunPlan::Nothing),
        }
    }
}

/// The extension that marks a capture file, with its dot.
pub open spec fn capture_suffix() -> Seq<char> {
    seq!['.', 'p', 'c', 'a', 'p']
}

/// A file name with the capture extension after a non-empty stem.
pub open spec fn is_capture_name(name: Seq<char>) -> bool {
    name.len() > 5 && name.subrange(name.len() - 5, name.len() as int) == capture_suffix()
}

/// The day label of a capture file: its name without the extension, for a
/// name with the capture extension after a non-empty stem; `None` for any
/// other file, which a folder analysis skips.
pub fn capture_label(file_name: &str) -> (r: Option<String>)
    ensures
        r.is_some() == is_capture_name(file_name@),
        r matches Some(label) ==> label@ == file_name@.subrange(0, file_name@.len() - 5),
{
    let n = file_name.unicode_len();
    if n <= 5 {
        return None;
    }
    let suffix = ['.', 'p', 'c', 'a', 'p'];
    let mut k: usize = 0;
    while k < 5
        invariant
            n == file_name@.len(),
            n > 5,
            k <= 5,
            suffix@ == capture_suffix(),
            forall|j: int| 0 <= j < k ==> file_name@[n - 5 + j] == capture_suffix()[j],
        decreases 5 - k,
    {
        if file_name.get_char(n - 5 + k) != suffix[k] {
            assert(file_name@.subrange(n - 5, n as int)[k as int] != capture_suffix()[k as int]);
            return None;
        }
        k += 1;
    }
    assert(file_name@.subrange(n - 5, n as int) =~= capture_suffix());
    let stem = file_name.substring_char(0, n - 5);
    Some(stem.to_owned())
}

/// The largest value, 0 for none.
pub open spec fn seq_max(s: Seq<u32>) -> int
    decreases s.len(),
{
    if s.len() == 0 {
        0
    } else if s.last() >= seq_max(s.drop_last()) {
        s.last() as int
    } else {
        seq_max(s.drop_last())
    }
}

/// The top of a chart's value axis: the largest value rounded up to a
/// multiple of ten.
pub fn axis_ceiling(values: &[u32]) -> (r: u64)
    ensures
        r == (seq_max(values@) + 9) / 10 * 10,
{
    let mut top: u32 = 0;
    let mut i: usize = 0;
    while i < values.len()
        invariant
            i <= values@.len(),
            top == seq_max(values@.subrange(0, i as int)),
        decreases values.len() - i,
    {
        proof {
            assert(values@.subrange(0, i + 1).drop_last() =~= values@.subrange(0, i as int));
        }
        if values[i] >= top {
            top = values[i];
        }
        i += 1;
    }
    assert(values@.subrange(0, i as int) =~= values@);
    (top as u64 + 9) / 10 * 10
}

} // verus!
