//! Which detection events from the MQTT broker switch the viewer.
//!
//! Only new person detections that name a camera are forwarded, and a repeat for the same
//! camera within a short gap of the last forwarded one is dropped.
use vstd::prelude::*;
use vstd::string::*;

use crate::text::text_eq;

verus! {

/// The fields of a detection event that the viewer reads.
#[derive(Debug, Clone)]
pub struct FrigateEvent {
    /// The event kind: `new`, `update` or `end`.
    pub event_type: String,
    /// The camera that saw the object.
    pub camera: String,
    /// What was seen.
    pub label: String,
}

/// What becomes of an event.
#[derive(Debug, Clone, Copy, PartialEq, Eq, Structural)]
pub enum Verdict {
    /// Switch to the event's camera and run the actions.
    Forward,
    /// Dropped: not the start of a detection.
    NotNew,
    /// Dropped: the event names no camera.
    MissingCamera,
    /// Dropped: not a person.
    NotPerson,
    /// Dropped: the same camera was switched to less than the gap ago.
    Throttled,
}

/// The least time between two switches to the same camera, in nanoseconds.
pub const SWITCH_GAP_NANOS: u64 = 600_000_000;

/// The time from `since` to `now`, or zero where `now` is earlier.
pub open spec fn elapsed(since: u64, now: u64) -> int {
    if now >= since {
        now - since
    } else {
        0
    }
}

/// A new person detection that names a camera.
pub open spec fn is_wanted(event_type: Seq<char>, camera: Seq<char>, label: Seq<char>) -> bool {
    event_type == "new"@ && camera.len() > 0 && label == "person"@
}

/// The verdict on an event at time `now`, given the camera last switched to and when.
pub open spec fn verdict_of(
    last_camera: Option<Seq<char>>,
    last_switch: u64,
    event_type: Seq<char>,
    camera: Seq<char>,
    label: Seq<char>,
    now: u64,
) -> Verdict {
    if event_type != "new"@ {
        Verdict::NotNew
    } else if camera.len() == 0 {
        Verdict::MissingCamera
    } else if label != "person"@ {
        Verdict::NotPerson
    } else if last_camera == Some(camera) && elapsed(last_switch, now) < SWITCH_GAP_NANOS {
        Verdict::Throttled
    } else {
        Verdict::Forward
    }
}

/// The memory of the last switch.
pub struct EventFilter {
    pub last_camera: Option<String>,
    pub last_switch: u64,
}

impl EventFilter {
    pub open spec fn last_camera_view(&self) -> Option<Seq<char>> {
        match self.last_camera {
            Some(c) => Some(c@),
            None => None,
        }
    }

    /// A filter that has switched to no camera yet.
    pub fn new() -> (r: EventFilter)
        ensures
            r.last_camera_view() is None,
    {
        EventFilter { last_camera: None, last_switch: 0 }
    }

    /// Judges an event that arrives at `now` (nanoseconds on a monotonic clock). A
    /// forwarded event becomes the last switch; any other leaves the filter as it was.
    pub fn decide(&mut self, event: &FrigateEvent, now: u64) -> (v: Verdict)
        ensures
            v == verdict_of(
                old(self).last_camera_view(),
                old(self).last_switch,
                event.event_type@,
                event.camera@,
                event.label@,
                now,
            ),
            v == Verdict::Forward ==> final(self).last_camera_view() == Some(event.camera@)
                && final(self).last_switch == now,
            v != Verdict::Forward ==> final(self).last_camera_view() == old(
                self,
            ).last_camera_view() && final(self).last_switch == old(self).last_switch,
    {
        if !text_eq(event.event_type.as_str(), "new") {
            return Verdict::NotNew;
        }
        if event.camera.as_str().unicode_len() == 0 {
            return Verdict::MissingCamera;
        }
        if !text_eq(event.label.as_str(), "person") {
            return Verdict::NotPerson;
        }
        let same_camera = match &self.last_camera {
            Some(c) => text_eq(c.as_str(), event.camera.as_str()),
            None => false,
        };
        let elapsed: u64 = if now >= self.last_switch {
            now - self.last_switch
        } else {
            0
        };
        if same_camera && elapsed < SWITCH_GAP_NANOS {
            return Verdict::Throttled;
        }
        self.last_camera = Some(event.camera.clone());
        self.last_switch = now;
        Verdict::Forward
    }
}

/// Only new person detections that name a camera can be forwarded; a wanted event is
/// dropped only as a repeat for the camera last switched to within the gap.
pub proof fn law_forwarded_iff_wanted_and_not_repeat(
    last_camera: Option<Seq<char>>,
    last_switch: u64,
    event_type: Seq<char>,
    camera: Seq<char>,
    label: Seq<char>,
    now: u64,
)
    ensures
        (verdict_of(last_camera, last_switch, event_type, camera, label, now) == Verdict::Forward)
            <==> (is_wanted(event_type, camera, label) && !(last_camera == Some(camera) && elapsed(
            last_switch,
            now,
        ) < SWITCH_GAP_NANOS)),
{
}

/// After an event for a camera is forwarded at `t1`, a wanted event for the same camera at
/// `t2` with `t1 <= t2 < t1 + gap` is dropped as a repeat.
pub proof fn law_repeat_within_gap_throttled(
    last_camera: Option<Seq<char>>,
    last_switch: u64,
    camera: Seq<char>,
    t1: u64,
    t2: u64,
)
    requires
        verdict_of(last_camera, last_switch, "new"@, camera, "person"@, t1) == Verdict::Forward,
        t1 <= t2,
        t2 - t1 < SWITCH_GAP_NANOS,
    ensures
        verdict_of(Some(camera), t1, "new"@, camera, "person"@, t2) == Verdict::Throttled,
{
}

/// A wanted event for another camera than the last one switched to is always forwarded,
/// however soon it comes.
pub proof fn law_other_camera_forwarded(
    last_camera: Option<Seq<char>>,
    last_switch: u64,
    camera: Seq<char>,
    now: u64,
)
    requires
        camera.len() > 0,
        last_camera != Some(camera),
    ensures
        verdict_of(last_camera, last_switch, "new"@, camera, "person"@, now) == Verdict::Forward,
{
}

/// A wanted event for the same camera is forwarded again once the gap has passed.
pub proof fn law_repeat_after_gap_forwarded(camera: Seq<char>, t1: u64, t2: u64)
    requires
        camera.len() > 0,
        t2 >= t1 + SWITCH_GAP_NANOS,
    ensures
        verdict_of(Some(camera), t1, "new"@, camera, "person"@, t2) == Verdict::Forward,
{
}

} // verus!
