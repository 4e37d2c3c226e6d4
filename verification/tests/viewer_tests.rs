use gcamview::camera::Camera;
use gcamview::viewer::{hides_overlay, pipeline_description, PipelineState, Viewer};

fn cam(id: &str, label: &str, url: &str) -> Camera {
    Camera { id: id.to_string(), label: label.to_string(), url: url.to_string() }
}

fn three() -> Vec<Camera> {
    vec![
        cam("driveway", "Driveway", "rtsp://d"),
        cam("front_door", "Front Door", "rtsp://f"),
        cam("stairs", "Stairs", "rtsp://s"),
    ]
}

fn expected_description(uri: &str, audio_enabled: bool) -> String {
    let safe_uri = uri.replace('"', "%22");
    let audio_branch = if audio_enabled {
        r#"
            src. ! application/x-rtp,media=audio !
                queue ! decodebin ! audioconvert ! audioresample !
                autoaudiosink
        "#
    } else {
        ""
    };
    format!(
        r#"
        rtspsrc name=src location="{safe_uri}" protocols=tcp latency=100 drop-on-latency=true
            src. ! application/x-rtp,media=video !
                queue ! decodebin ! videoconvert !
                gtk4paintablesink name=sink sync=false
        {audio_branch}
        "#
    )
}

#[test]
fn pipeline_description_matches_layout() {
    for uri in ["rtsp://cam.local/stream", "rtsp://x/\"evil\"", ""] {
        for audio in [false, true] {
            assert_eq!(pipeline_description(uri, audio), expected_description(uri, audio));
        }
    }
}

#[test]
fn pipeline_quotes_are_escaped() {
    let d = pipeline_description("a\"b", false);
    assert!(d.contains("location=\"a%22b\""));
}

#[test]
fn overlay_hidden_only_when_playing() {
    assert!(hides_overlay(PipelineState::Playing));
    assert!(!hides_overlay(PipelineState::Paused));
    assert!(!hides_overlay(PipelineState::Ready));
    assert!(!hides_overlay(PipelineState::Null));
    assert!(!hides_overlay(PipelineState::VoidPending));
}

#[test]
fn no_cameras_no_viewer() {
    assert!(Viewer::new(vec![]).is_none());
}

#[test]
fn viewer_starts_muted_on_first_camera() {
    let (v, reload) = Viewer::new(three()).unwrap();
    assert_eq!(v.plan_command("stairs").button, Some(2));
    assert_eq!(reload.overlay_text, "Loading Driveway...");
    assert_eq!(reload.url, "rtsp://d");
    assert!(!reload.audio_enabled);
}

#[test]
fn selecting_camera_keeps_audio() {
    let (mut v, _) = Viewer::new(three()).unwrap();
    let (label, r) = v.audio_toggled(true);
    assert_eq!(label, "Audio: On");
    assert_eq!(r.url, "rtsp://d");
    assert!(r.audio_enabled);
    let r = v.camera_toggled(2, true).unwrap();
    assert_eq!(r.overlay_text, "Loading Stairs...");
    assert_eq!(r.url, "rtsp://s");
    assert!(r.audio_enabled);
}

#[test]
fn audio_toggle_keeps_camera() {
    let (mut v, _) = Viewer::new(three()).unwrap();
    v.camera_toggled(1, true).unwrap();
    let (label, r) = v.audio_toggled(true);
    assert_eq!(label, "Audio: On");
    assert_eq!(r.overlay_text, "Loading Front Door...");
    assert_eq!(r.url, "rtsp://f");
    let (label, r) = v.audio_toggled(false);
    assert_eq!(label, "Audio: Muted");
    assert_eq!(r.url, "rtsp://f");
    assert!(!r.audio_enabled);
}

#[test]
fn untoggling_or_missing_button_changes_nothing() {
    let (mut v, _) = Viewer::new(three()).unwrap();
    assert!(v.camera_toggled(1, false).is_none());
    assert!(v.camera_toggled(7, true).is_none());
    let (_, r) = v.audio_toggled(false);
    assert_eq!(r.url, "rtsp://d");
}

#[test]
fn detection_selects_its_camera() {
    let (mut v, _) = Viewer::new(three()).unwrap();
    let plan = v.plan_command("front_door");
    assert_eq!(plan.button, Some(1));
    assert_eq!(plan.camera_label, "Front Door");
    let r = v.camera_toggled(plan.button.unwrap(), true).unwrap();
    assert_eq!(r.url, "rtsp://f");
}

#[test]
fn detection_for_unknown_camera_uses_its_key() {
    let (v, _) = Viewer::new(three()).unwrap();
    let plan = v.plan_command("garage");
    assert_eq!(plan.button, None);
    assert_eq!(plan.camera_label, "garage");
}

#[test]
fn duplicate_keys_select_the_last() {
    let cams = vec![cam("a", "First", "u1"), cam("a", "Second", "u2")];
    let (v, _) = Viewer::new(cams).unwrap();
    let plan = v.plan_command("a");
    assert_eq!(plan.button, Some(1));
    assert_eq!(plan.camera_label, "Second");
}
