use gcamview::camera::{camera_list, default_label, text_le_exec, Camera};
use gcamview::config::{ActionsConfig, AppConfig, CameraConfig, MqttConfig};

#[test]
fn default_label_splits_and_capitalises() {
    assert_eq!(default_label("front_door"), "Front Door");
    assert_eq!(default_label("back-yard"), "Back Yard");
    assert_eq!(default_label("cam"), "Cam");
    assert_eq!(default_label("a__b"), "A B");
    assert_eq!(default_label("_lead_and_trail_"), "Lead And Trail");
}

#[test]
fn default_label_strips_stream_suffix_once() {
    assert_eq!(default_label("driveway_rtsp_url"), "Driveway");
    assert_eq!(default_label("back-yard-rtsp-url"), "Back Yard");
    assert_eq!(default_label("x_rtsp_url_rtsp_url"), "X Rtsp Url");
    assert_eq!(default_label("x-rtsp-url_rtsp_url"), "X Rtsp Url");
}

#[test]
fn default_label_without_words_keeps_text() {
    assert_eq!(default_label("___"), "___");
    assert_eq!(default_label("-_-"), "-_-");
    assert_eq!(default_label(""), "");
    assert_eq!(default_label("_rtsp_url"), "");
    assert_eq!(default_label("__rtsp_url"), "_");
}

#[test]
fn default_label_has_no_separators() {
    for id in ["front_door", "a-b_c", "_x_", "porch_rtsp_url", "über_tür"] {
        let l = default_label(id);
        assert!(!l.contains('_') && !l.contains('-'), "{l}");
    }
    assert_eq!(default_label("über_tür"), "über Tür");
}

fn entry(id: &str, url: &str, label: Option<&str>) -> (String, CameraConfig) {
    (
        id.to_string(),
        CameraConfig { url: url.to_string(), label: label.map(|s| s.to_string()) },
    )
}

#[test]
fn camera_list_orders_by_key_and_fills_labels() {
    let cfg = AppConfig {
        cameras: vec![
            entry("stairs", "rtsp://s", None),
            entry("driveway_rtsp_url", "rtsp://d", Some("Drive")),
            entry("front_door", "rtsp://f", None),
        ],
        mqtt: MqttConfig::default(),
        actions: ActionsConfig::default(),
    };
    let cams = camera_list(&cfg);
    let ids: Vec<&str> = cams.iter().map(|c| c.id.as_str()).collect();
    assert_eq!(ids, vec!["driveway_rtsp_url", "front_door", "stairs"]);
    assert_eq!(cams[0].label, "Drive");
    assert_eq!(cams[0].url, "rtsp://d");
    assert_eq!(cams[1].label, "Front Door");
    assert_eq!(cams[2].label, "Stairs");
    assert_eq!(cams[2].url, "rtsp://s");
}

#[test]
fn camera_list_order_matches_string_order() {
    let keys = ["zeta", "Alpha", "alpha", "ä", "b", "", "ab", "a", "Z", "_x"];
    let cfg = AppConfig {
        cameras: keys.iter().map(|k| entry(k, "u", Some("l"))).collect(),
        mqtt: MqttConfig::default(),
        actions: ActionsConfig::default(),
    };
    let cams = camera_list(&cfg);
    let mut expected: Vec<String> = keys.iter().map(|k| k.to_string()).collect();
    expected.sort();
    let got: Vec<String> = cams.iter().map(|c| c.id.clone()).collect();
    assert_eq!(got, expected);
}

#[test]
fn camera_list_of_empty_config_is_empty() {
    let cfg = AppConfig {
        cameras: vec![],
        mqtt: MqttConfig::default(),
        actions: ActionsConfig::default(),
    };
    assert!(camera_list(&cfg).is_empty());
}

#[test]
fn text_order_is_total_and_transitive() {
    let xs = ["", "a", "ab", "b", "B", "é", "ba"];
    for a in xs {
        for b in xs {
            assert!(text_le_exec(a, b) || text_le_exec(b, a));
            assert_eq!(text_le_exec(a, b), a <= b);
            for c in xs {
                if text_le_exec(a, b) && text_le_exec(b, c) {
                    assert!(text_le_exec(a, c));
                }
            }
        }
    }
}

#[test]
fn into_label_url_gives_label_and_url() {
    let c = Camera { id: "x".to_string(), label: "X".to_string(), url: "rtsp://x".to_string() };
    assert_eq!(c.into_label_url(), ("X".to_string(), "rtsp://x".to_string()));
}
