//! The decisions of the viewer window: which camera is shown, whether its audio plays,
//! what the overlay says, which button a detection selects, and the media pipeline that
//! plays a camera. The window itself performs the actions that come out of these.
use vstd::prelude::*;
use vstd::string::*;

use crate::camera::{cameras_view, Camera};
use crate::text::{
    law_replaced_removes_char, law_replaced_without_match, replace_all, replaced, text_eq,
};

verus! {

// ---------------------------------------------------------------------------
// Pipeline
// ---------------------------------------------------------------------------

/// The pipeline branch that plays a camera's audio.
pub open spec fn audio_branch_of(audio_enabled: bool) -> Seq<char> {
    if audio_enabled {
        "\n            src. ! application/x-rtp,media=audio !\n                queue ! decodebin ! audioconvert ! audioresample !\n                autoaudiosink\n        "@
    } else {
        ""@
    }
}

/// The pipeline description that plays the stream at `uri` over TCP into the paintable
/// sink named `sink`, with the audio branch where audio is enabled. Each `"` of the URI is
/// written `%22`, so that it cannot end the quoted location.
pub open spec fn pipeline_description_of(uri: Seq<char>, audio_enabled: bool) -> Seq<char> {
    "\n        rtspsrc name=src location=\""@ + replaced(uri, "\""@, "%22"@)
        + "\" protocols=tcp latency=100 drop-on-latency=true\n            src. ! application/x-rtp,media=video !\n                queue ! decodebin ! videoconvert !\n                gtk4paintablesink name=sink sync=false\n        "@
        + audio_branch_of(audio_enabled) + "\n        "@
}

/// The pipeline description for a camera (see `pipeline_description_of`).
pub fn pipeline_description(uri: &str, audio_enabled: bool) -> (r: String)
    ensures
        r@ == pipeline_description_of(uri@, audio_enabled),
{
    let quote = "\"";
    proof {
        reveal_strlit("\"");
    }
    let safe_uri = replace_all(uri, quote, "%22");
    let mut desc = String::from_str("\n        rtspsrc name=src location=\"");
    desc.append(safe_uri.as_str());
    desc.append(
        "\" protocols=tcp latency=100 drop-on-latency=true\n            src. ! application/x-rtp,media=video !\n                queue ! decodebin ! videoconvert !\n                gtk4paintablesink name=sink sync=false\n        ",
    );
    if audio_enabled {
        desc.append(
            "\n            src. ! application/x-rtp,media=audio !\n                queue ! decodebin ! audioconvert ! audioresample !\n                autoaudiosink\n        ",
        );
    } else {
        desc.append("");
    }
    desc.append("\n        ");
    desc
}


/// The start of every pipeline description, up to the opening quote of the location.
pub open spec fn pipeline_head() -> Seq<char> {
    "\n        rtspsrc name=src location=\""@
}

/// The rest of a pipeline description after the location's closing quote.
pub open spec fn pipeline_rest(audio_enabled: bool) -> Seq<char> {
    "\" protocols=tcp latency=100 drop-on-latency=true\n            src. ! application/x-rtp,media=video !\n                queue ! decodebin ! videoconvert !\n                gtk4paintablesink name=sink sync=false\n        "@
        + audio_branch_of(audio_enabled) + "\n        "@
}

/// For a URI without `"`, the location in the description is the URI itself, every
/// character kept.
pub proof fn law_pipeline_location_is_uri(uri: Seq<char>, audio_enabled: bool)
    requires
        forall|i: int| 0 <= i < uri.len() ==> #[trigger] uri[i] != '"',
    ensures
        pipeline_description_of(uri, audio_enabled) == pipeline_head() + uri + pipeline_rest(
            audio_enabled,
        ),
{
    reveal_strlit("\"");
    let pat = "\""@;
    assert(pat =~= seq!['"']);
    assert forall|i: int| 0 <= i && i + pat.len() <= uri.len() implies #[trigger] uri.subrange(
        i,
        i + pat.len(),
    ) != pat by {
        assert(uri.subrange(i, i + 1)[0] == uri[i]);
    }
    law_replaced_without_match(uri, pat, "%22"@);
    assert(pipeline_description_of(uri, audio_enabled) =~= pipeline_head() + uri
        + pipeline_rest(audio_enabled));
}

/// Whatever the URI, the location between the description's quotes holds no `"`, so the
/// URI cannot end it early: each `"` of the URI is written `%22`.
pub proof fn law_pipeline_location_has_no_quote(uri: Seq<char>, audio_enabled: bool)
    ensures
        pipeline_description_of(uri, audio_enabled) == pipeline_head() + replaced(
            uri,
            seq!['"'],
            "%22"@,
        ) + pipeline_rest(audio_enabled),
        forall|i: int|
            pipeline_head().len() <= i < pipeline_description_of(uri, audio_enabled).len()
                - pipeline_rest(audio_enabled).len() ==> #[trigger] pipeline_description_of(
                uri,
                audio_enabled,
            )[i] != '"',
{
    reveal_strlit("\"");
    reveal_strlit("%22");
    assert("\""@ =~= seq!['"']);
    let rep = "%22"@;
    assert(rep.len() == 3 && rep[0] == '%' && rep[1] == '2' && rep[2] == '2');
    law_replaced_removes_char(uri, '"', rep);
    let loc = replaced(uri, seq!['"'], rep);
    let d = pipeline_description_of(uri, audio_enabled);
    assert(d =~= pipeline_head() + loc + pipeline_rest(audio_enabled));
    assert forall|i: int|
        pipeline_head().len() <= i < d.len() - pipeline_rest(audio_enabled).len() implies #[trigger] d[i]
        != '"' by {
        assert(d[i] == loc[i - pipeline_head().len()]);
    }
}

/// The states a media pipeline reports.
#[derive(Debug, Clone, Copy, PartialEq, Eq, Structural)]
pub enum PipelineState {
    VoidPending,
    Null,
    Ready,
    Paused,
    Playing,
}

/// Whether the "Loading" overlay is hidden when the pipeline reports `state`: once it plays.
pub fn hides_overlay(state: PipelineState) -> (r: bool)
    ensures
        r == (state == PipelineState::Playing),
{
    match state {
        PipelineState::Playing => true,
        _ => false,
    }
}

// ---------------------------------------------------------------------------
// Window state
// ---------------------------------------------------------------------------

/// The overlay text while a camera loads.
pub open spec fn loading_text(label: Seq<char>) -> Seq<char> {
    "Loading "@ + label + "..."@
}


/// The loading text names the camera's label, after "Loading " and before "...".
pub proof fn law_loading_text_names_label(label: Seq<char>)
    ensures
        loading_text(label).len() == label.len() + 11,
        loading_text(label).take(8) == "Loading "@,
        loading_text(label).subrange(8, 8int + label.len()) == label,
        loading_text(label).skip(8int + label.len()) == "..."@,
{
    reveal_strlit("Loading ");
    reveal_strlit("...");
    let t = loading_text(label);
    assert(t.take(8) =~= "Loading "@);
    assert(t.subrange(8, 8int + label.len()) =~= label);
    assert(t.skip(8int + label.len()) =~= "..."@);
}

/// The label of the audio button.
pub open spec fn audio_button_label(audio_enabled: bool) -> Seq<char> {
    if audio_enabled {
        "Audio: On"@
    } else {
        "Audio: Muted"@
    }
}

/// A request to the window: show the loading text and play the camera at `url`.
pub struct Reload {
    pub overlay_text: String,
    pub url: String,
    pub audio_enabled: bool,
}

impl Reload {
    /// Whether this reload plays `camera` (key, label, URL) with the given audio setting.
    pub open spec fn plays(self, camera: (Seq<char>, Seq<char>, Seq<char>), audio: bool) -> bool {
        &&& self.overlay_text@ == loading_text(camera.1)
        &&& self.url@ == camera.2
        &&& self.audio_enabled == audio
    }
}

fn reload_for(camera: &Camera, audio_enabled: bool) -> (r: Reload)
    ensures
        r.plays(camera.view_triple(), audio_enabled),
{
    let mut text = String::from_str("Loading ");
    text.append(camera.label.as_str());
    text.append("...");
    Reload { overlay_text: text, url: camera.url.clone(), audio_enabled }
}

/// The abstract state of the window: its cameras (key, label, URL) in button order, the
/// one shown, and whether audio plays.
pub ghost struct ViewerView {
    pub cameras: Seq<(Seq<char>, Seq<char>, Seq<char>)>,
    pub current: int,
    pub audio_enabled: bool,
}

/// The index of the last camera with key `id`: the button that a detection for `id`
/// selects.
pub open spec fn button_for(cameras: Seq<(Seq<char>, Seq<char>, Seq<char>)>, id: Seq<char>) -> Option<int>
    decreases cameras.len(),
{
    if cameras.len() == 0 {
        None
    } else if cameras.last().0 == id {
        Some(cameras.len() - 1)
    } else {
        button_for(cameras.drop_last(), id)
    }
}

/// What a detection for a camera leads to: the button to select, if a camera has that key,
/// and the camera label that the actions speak of (the key itself where no camera has it).
pub struct CommandPlan {
    pub button: Option<usize>,
    pub camera_label: String,
}

/// The state of the viewer window; it always shows one of its cameras.
pub struct Viewer {
    cameras: Vec<Camera>,
    current: usize,
    audio_enabled: bool,
}

impl View for Viewer {
    type V = ViewerView;

    closed spec fn view(&self) -> ViewerView {
        ViewerView {
            cameras: cameras_view(self.cameras@),
            current: self.current as int,
            audio_enabled: self.audio_enabled,
        }
    }
}

impl Viewer {
    #[verifier::type_invariant]
    spec fn shows_a_camera(self) -> bool {
        self.current < self.cameras@.len()
    }

    /// The window for the given cameras, showing the first one muted, and the reload that
    /// starts it; nothing where there is no camera.
    pub fn new(cameras: Vec<Camera>) -> (r: Option<(Viewer, Reload)>)
        ensures
            r is None <==> cameras@.len() == 0,
            r matches Some((v, reload)) ==> {
                &&& v@.cameras == cameras_view(cameras@)
                &&& v@.current == 0
                &&& !v@.audio_enabled
                &&& reload.plays(v@.cameras[0], false)
            },
    {
        if cameras.len() == 0 {
            return None;
        }
        let reload = reload_for(&cameras[0], false);
        let v = Viewer { cameras, current: 0, audio_enabled: false };
        Some((v, reload))
    }

    /// A camera button was toggled. Turning button `index` on shows that camera, with the
    /// current audio setting, and asks for its reload; turning a button off, or a button
    /// that does not exist, changes nothing.
    pub fn camera_toggled(&mut self, index: usize, active: bool) -> (r: Option<Reload>)
        ensures
            final(self)@.cameras == old(self)@.cameras,
            final(self)@.audio_enabled == old(self)@.audio_enabled,
            0 <= final(self)@.current < final(self)@.cameras.len(),
            (active && index < old(self)@.cameras.len()) ==> {
                &&& final(self)@.current == index
                &&& r matches Some(reload) && reload.plays(
                    old(self)@.cameras[index as int],
                    old(self)@.audio_enabled,
                )
            },
            !(active && index < old(self)@.cameras.len()) ==> {
                &&& final(self)@.current == old(self)@.current
                &&& r is None
            },
    {
        proof {
            use_type_invariant(&*self);
        }
        if active && index < self.cameras.len() {
            self.current = index;
            let reload = reload_for(&self.cameras[index], self.audio_enabled);
            assert(cameras_view(self.cameras@)[index as int] == self.cameras@[index as int].view_triple());
            Some(reload)
        } else {
            None
        }
    }

    /// The audio button was toggled to `active`: audio follows it, the shown camera stays,
    /// and the camera is reloaded with the new setting. Also gives the button's new label.
    pub fn audio_toggled(&mut self, active: bool) -> (r: (String, Reload))
        ensures
            final(self)@.cameras == old(self)@.cameras,
            final(self)@.current == old(self)@.current,
            final(self)@.audio_enabled == active,
            0 <= final(self)@.current < final(self)@.cameras.len(),
            r.0@ == audio_button_label(active),
            r.1.plays(old(self)@.cameras[old(self)@.current], active),
    {
        proof {
            use_type_invariant(&*self);
        }
        self.audio_enabled = active;
        let label = if active {
            String::from_str("Audio: On")
        } else {
            String::from_str("Audio: Muted")
        };
        let reload = reload_for(&self.cameras[self.current], active);
        assert(cameras_view(self.cameras@)[self.current as int] == self.cameras@[self.current as int].view_triple());
        (label, reload)
    }

    /// What a detection for camera `camera_id` leads to (see `CommandPlan`).
    pub fn plan_command(&self, camera_id: &str) -> (r: CommandPlan)
        ensures
            r.button == (match button_for(self@.cameras, camera_id@) {
                Some(i) => Some(i as usize),
                None => None,
            }),
            r.camera_label@ == (match button_for(self@.cameras, camera_id@) {
                Some(i) => self@.cameras[i].1,
                None => camera_id@,
            }),
    {
        let ghost cs = cameras_view(self.cameras@);
        let mut i = self.cameras.len();
        assert(cs.take(i as int) =~= cs);
        while i > 0
            invariant
                i <= self.cameras@.len(),
                cs == cameras_view(self.cameras@),
                button_for(cs, camera_id@) == button_for(cs.take(i as int), camera_id@),
            decreases i,
        {
            let ghost p = cs.take(i as int);
            assert(p.last() == cs[i - 1]);
            assert(p.drop_last() =~= cs.take(i - 1));
            if text_eq(self.cameras[i - 1].id.as_str(), camera_id) {
                assert(cs[i - 1] == self.cameras@[i - 1].view_triple());
                let label = self.cameras[i - 1].label.clone();
                return CommandPlan { button: Some(i - 1), camera_label: label };
            }
            assert(cs[i - 1] == self.cameras@[i - 1].view_triple());
            i = i - 1;
        }
        CommandPlan { button: None, camera_label: String::from_str(camera_id) }
    }
}

proof fn lemma_button_for_names_camera(cameras: Seq<(Seq<char>, Seq<char>, Seq<char>)>, id: Seq<char>)
    ensures
        button_for(cameras, id) matches Some(i) ==> 0 <= i < cameras.len() && cameras[i].0 == id
            && forall|j: int| i < j < cameras.len() ==> #[trigger] cameras[j].0 != id,
        button_for(cameras, id) is None ==> forall|j: int|
            0 <= j < cameras.len() ==> #[trigger] cameras[j].0 != id,
    decreases cameras.len(),
{
    if cameras.len() > 0 {
        lemma_button_for_names_camera(cameras.drop_last(), id);
        if cameras.last().0 != id {
            assert forall|j: int| 0 <= j < cameras.len() - 1 implies #[trigger] cameras[j] == cameras.drop_last()[j] by {}
        }
    }
}

/// A detection selects a button exactly when some camera has its key; the button is the
/// last camera with that key, and selecting it shows a camera with that key.
pub proof fn law_detection_selects_its_camera(
    cameras: Seq<(Seq<char>, Seq<char>, Seq<char>)>,
    id: Seq<char>,
)
    ensures
        (button_for(cameras, id) is Some) <==> (exists|j: int|
            0 <= j < cameras.len() && #[trigger] cameras[j].0 == id),
        button_for(cameras, id) matches Some(i) ==> 0 <= i < cameras.len() && cameras[i].0 == id
            && forall|j: int| i < j < cameras.len() ==> #[trigger] cameras[j].0 != id,
{
    lemma_button_for_names_camera(cameras, id);
}

} // verus!
