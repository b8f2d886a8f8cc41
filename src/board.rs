use vstd::prelude::*;

verus! {

/// One colour cell of the upstream status board: how many reports it counts
/// and what status it stands for.
#[derive(Clone, Debug)]
pub struct StatusFlag {
    pub report_nums: u8,
    pub description: String,
}

/// A satellite's row of the status board, one list of cells per time slot.
#[derive(Clone, Debug)]
pub struct SatelliteStatus {
    pub name: String,
    pub status: Vec<Vec<StatusFlag>>,
}

/// The last status seen for a satellite.
#[derive(Clone, Debug)]
pub struct SatelliteStatusCache {
    pub name: String,
    pub status: String,
}

/// What a board colour stands for; an unknown colour counts no reports.
pub open spec fn flag_of_color(color: Seq<char>, nums: u8) -> (u8, Seq<char>) {
    if color == "#4169E1"@ {
        (nums, "Transponder/Repeater Active"@)
    } else if color == "yellow"@ {
        (nums, "Telemetry/Beacon Only"@)
    } else if color == "red"@ {
        (nums, "No Signal"@)
    } else if color == "orange"@ {
        (nums, "Conflictng Reports"@)
    } else if color == "#9900FF"@ {
        (nums, "ISS Crew(Voice) Active"@)
    } else {
        (0, "Unknown Status"@)
    }
}

impl StatusFlag {
    /// The cell for a board colour and a report count.
    pub fn match_status_with_color(color: &str, nums: u8) -> (r: Option<StatusFlag>)
        ensures
            r matches Some(f) && (f.report_nums, f.description@) == flag_of_color(color@, nums),
    {
        let (n, d) = if crate::text::text_eq(color, "#4169E1") {
            (nums, "Transponder/Repeater Active")
        } else if crate::text::text_eq(color, "yellow") {
            (nums, "Telemetry/Beacon Only")
        } else if crate::text::text_eq(color, "red") {
            (nums, "No Signal")
        } else if crate::text::text_eq(color, "orange") {
            (nums, "Conflictng Reports")
        } else if crate::text::text_eq(color, "#9900FF") {
            (nums, "ISS Crew(Voice) Active")
        } else {
            (0u8, "Unknown Status")
        };
        Some(StatusFlag { report_nums: n, description: d.to_string() })
    }
}

impl SatelliteStatus {
    pub fn new(name: String, status: Vec<Vec<StatusFlag>>) -> (r: Self)
        ensures
            r.name == name,
            r.status == status,
    {
        SatelliteStatus { name, status }
    }
}

impl SatelliteStatusCache {
    pub fn new(name: String, status: String) -> (r: Self)
        ensures
            r.name == name,
            r.status == status,
    {
        SatelliteStatusCache { name, status }
    }
}

/// Slot `i` of `slots` opens with a known status.
pub open spec fn known_slot(slots: Seq<Vec<StatusFlag>>, i: int) -> bool {
    0 <= i < slots.len() && slots[i]@.len() > 0 && slots[i]@[0].description@ != "Unknown Status"@
}

/// `i` is the first slot that opens with a known status.
pub open spec fn first_known_slot(slots: Seq<Vec<StatusFlag>>, i: int) -> bool {
    known_slot(slots, i) && forall|j: int| 0 <= j < i ==> !known_slot(slots, j)
}

/// `d` is the first cell's description of the first slot that is known.
pub open spec fn is_latest_known(slots: Seq<Vec<StatusFlag>>, d: Seq<char>) -> bool {
    exists|i: int| #[trigger] first_known_slot(slots, i) && d == slots[i]@[0].description@
}

/// The newest known status of a board row: the description of the first
/// cell of the first slot whose first cell is known.
pub fn get_latest_valid_status(satellite_status: &SatelliteStatus) -> (r: Option<String>)
    ensures
        r matches Some(d) ==> is_latest_known(satellite_status.status@, d@),
        r is None ==> forall|i: int| !known_slot(satellite_status.status@, i),
{
    let slots = &satellite_status.status;
    let mut i: usize = 0;
    while i < slots.len()
        invariant
            i <= slots@.len(),
            slots == &satellite_status.status,
            forall|j: int| 0 <= j < i ==> !known_slot(slots@, j),
        decreases slots@.len() - i,
    {
        if slots[i].len() > 0 {
            if !crate::text::text_eq(slots[i][0].description.as_str(), "Unknown Status") {
                let d = slots[i][0].description.clone();
                proof {
                    assert(first_known_slot(slots@, i as int));
                    assert(is_latest_known(slots@, d@));
                }
                return Some(d);
            }
        }
        i = i + 1;
    }
    proof {
        assert forall|k: int| !known_slot(slots@, k) by {
            if 0 <= k < slots@.len() {
                assert(k < i);
            }
        }
    }
    None
}

} // verus!
