use gcamview::config::{
    ActionsConfig, AppConfig, CameraConfig, MqttConfig, RawConfig, TtsConfig, WakeConfig,
};

fn raw(cameras: Vec<(String, CameraConfig)>, urls: Vec<(String, String)>) -> RawConfig {
    RawConfig {
        cameras,
        camera_urls: urls,
        mqtt: MqttConfig::default(),
        actions: ActionsConfig::default(),
    }
}

#[test]
fn mqtt_default_is_local_broker() {
    let m = MqttConfig::default();
    assert_eq!(m.host, "127.0.0.1");
    assert_eq!(m.port, 1883);
}

#[test]
fn wake_default_is_disabled_with_gnome_commands() {
    let w = WakeConfig::default();
    assert!(!w.enabled);
    assert_eq!(
        w.commands,
        vec![
            "gdbus call --session --dest org.gnome.ScreenSaver --object-path /org/gnome/ScreenSaver --method org.gnome.ScreenSaver.SimulateUserActivity".to_string(),
            "gdbus call --session --dest org.gnome.ScreenSaver --object-path /org/gnome/ScreenSaver --method org.gnome.ScreenSaver.SetActive false".to_string(),
            "loginctl unlock-session".to_string(),
        ]
    );
}

#[test]
fn tts_default_is_disabled_spd_say() {
    let t = TtsConfig::default();
    assert!(!t.enabled);
    assert_eq!(t.command, "spd-say {text}");
}

#[test]
fn actions_default_combines_defaults() {
    let a = ActionsConfig::default();
    assert!(!a.wake.enabled);
    assert_eq!(a.wake.commands.len(), 3);
    assert!(!a.tts.enabled);
    assert_eq!(a.tts.command, "spd-say {text}");
}

#[test]
fn camera_urls_used_when_cameras_empty() {
    let cfg = AppConfig::from_raw(raw(
        vec![],
        vec![
            ("front_door".to_string(), "rtsp://a".to_string()),
            ("stairs_rtsp_url".to_string(), "rtsp://b".to_string()),
        ],
    ));
    assert_eq!(cfg.cameras.len(), 2);
    assert_eq!(cfg.cameras[0].0, "front_door");
    assert_eq!(cfg.cameras[0].1.url, "rtsp://a");
    assert_eq!(cfg.cameras[0].1.label, None);
    assert_eq!(cfg.cameras[1].0, "stairs_rtsp_url");
    assert_eq!(cfg.cameras[1].1.url, "rtsp://b");
    assert_eq!(cfg.cameras[1].1.label, None);
}

#[test]
fn cameras_table_wins_over_camera_urls() {
    let cfg = AppConfig::from_raw(raw(
        vec![(
            "garage".to_string(),
            CameraConfig { url: "rtsp://g".to_string(), label: Some("Garage Cam".to_string()) },
        )],
        vec![("front_door".to_string(), "rtsp://a".to_string())],
    ));
    assert_eq!(cfg.cameras.len(), 1);
    assert_eq!(cfg.cameras[0].0, "garage");
    assert_eq!(cfg.cameras[0].1.label.as_deref(), Some("Garage Cam"));
}

#[test]
fn no_cameras_anywhere_gives_none() {
    let cfg = AppConfig::from_raw(raw(vec![], vec![]));
    assert!(cfg.cameras.is_empty());
    assert_eq!(cfg.mqtt.host, "127.0.0.1");
}

#[test]
fn broker_and_actions_taken_as_read() {
    let mut r = raw(vec![], vec![]);
    r.mqtt = MqttConfig { host: "broker.lan".to_string(), port: 8883 };
    r.actions.tts.enabled = true;
    let cfg = AppConfig::from_raw(r);
    assert_eq!(cfg.mqtt.host, "broker.lan");
    assert_eq!(cfg.mqtt.port, 8883);
    assert!(cfg.actions.tts.enabled);
}
