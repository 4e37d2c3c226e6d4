//! The viewer's configuration: cameras, the MQTT broker and the actions run on a
//! detection, with the defaults that apply where the configuration file is silent.
//!
//! Camera tables are held as lists of `(key, value)` pairs in the order they were read.
use vstd::prelude::*;
use vstd::string::*;

verus! {

/// One camera of the configuration file.
#[derive(Debug, Clone)]
pub struct CameraConfig {
    pub url: String,
    pub label: Option<String>,
}

/// Where the MQTT broker listens.
#[derive(Debug, Clone)]
pub struct MqttConfig {
    pub host: String,
    pub port: u16,
}

/// Commands run to wake the screen when a detection comes in.
#[derive(Debug, Clone)]
pub struct WakeConfig {
    pub enabled: bool,
    pub commands: Vec<String>,
}

/// A text-to-speech command; `{text}` in it stands for the spoken phrase.
#[derive(Debug, Clone)]
pub struct TtsConfig {
    pub enabled: bool,
    pub command: String,
}

/// What to do when a detection comes in.
#[derive(Debug, Clone)]
pub struct ActionsConfig {
    pub wake: WakeConfig,
    pub tts: TtsConfig,
}

/// The configuration the viewer runs with.
#[derive(Debug)]
pub struct AppConfig {
    pub cameras: Vec<(String, CameraConfig)>,
    pub mqtt: MqttConfig,
    pub actions: ActionsConfig,
}

/// The configuration file as read: cameras either as a full `cameras` table or, in the
/// older form, as a `camera_urls` table of key to URL.
#[derive(Debug)]
pub struct RawConfig {
    pub cameras: Vec<(String, CameraConfig)>,
    pub camera_urls: Vec<(String, String)>,
    pub mqtt: MqttConfig,
    pub actions: ActionsConfig,
}

/// The commands that wake the screen by default.
pub open spec fn default_wake_commands() -> Seq<Seq<char>> {
    seq![
        "gdbus call --session --dest org.gnome.ScreenSaver --object-path /org/gnome/ScreenSaver --method org.gnome.ScreenSaver.SimulateUserActivity"@,
        "gdbus call --session --dest org.gnome.ScreenSaver --object-path /org/gnome/ScreenSaver --method org.gnome.ScreenSaver.SetActive false"@,
        "loginctl unlock-session"@,
    ]
}

/// The views of a list of texts.
pub open spec fn texts_view(v: Seq<String>) -> Seq<Seq<char>> {
    v.map_values(|s: String| s@)
}

impl MqttConfig {
    pub open spec fn is_default(&self) -> bool {
        &&& self.host@ == "127.0.0.1"@
        &&& self.port == 1883
    }
}

impl WakeConfig {
    pub open spec fn is_default(&self) -> bool {
        &&& !self.enabled
        &&& texts_view(self.commands@) == default_wake_commands()
    }
}

impl TtsConfig {
    pub open spec fn is_default(&self) -> bool {
        &&& !self.enabled
        &&& self.command@ == "spd-say {text}"@
    }
}

impl ActionsConfig {
    pub open spec fn is_default(&self) -> bool {
        &&& self.wake.is_default()
        &&& self.tts.is_default()
    }
}

impl Default for MqttConfig {
    /// The broker on this machine at the standard MQTT port.
    fn default() -> (r: Self)
        ensures
            r.is_default(),
    {
        MqttConfig { host: String::from_str("127.0.0.1"), port: 1883 }
    }
}

impl Default for WakeConfig {
    /// Disabled, with the GNOME screen-saver and logind commands that wake the screen.
    fn default() -> (r: Self)
        ensures
            r.is_default(),
    {
        let commands = vec![
            String::from_str(
                "gdbus call --session --dest org.gnome.ScreenSaver --object-path /org/gnome/ScreenSaver --method org.gnome.ScreenSaver.SimulateUserActivity",
            ),
            String::from_str(
                "gdbus call --session --dest org.gnome.ScreenSaver --object-path /org/gnome/ScreenSaver --method org.gnome.ScreenSaver.SetActive false",
            ),
            String::from_str("loginctl unlock-session"),
        ];
        let r = WakeConfig { enabled: false, commands };
        assert(texts_view(r.commands@) =~= default_wake_commands());
        r
    }
}

impl Default for TtsConfig {
    /// Disabled, speaking through `spd-say`.
    fn default() -> (r: Self)
        ensures
            r.is_default(),
    {
        TtsConfig { enabled: false, command: String::from_str("spd-say {text}") }
    }
}

impl Default for ActionsConfig {
    /// Both actions at their defaults.
    fn default() -> (r: Self)
        ensures
            r.is_default(),
    {
        ActionsConfig { wake: WakeConfig::default(), tts: TtsConfig::default() }
    }
}

/// The cameras that a `camera_urls` table stands for: each key with its URL and no label.
pub open spec fn cameras_from_urls(
    urls: Seq<(String, String)>,
    cams: Seq<(String, CameraConfig)>,
) -> bool {
    &&& cams.len() == urls.len()
    &&& forall|i: int|
        0 <= i < urls.len() ==> {
            &&& (#[trigger] cams[i]).0 == urls[i].0
            &&& cams[i].1.url == urls[i].1
            &&& cams[i].1.label is None
        }
}

impl AppConfig {
    /// The configuration that a file's contents give: the `cameras` table where it has
    /// entries; otherwise, where `camera_urls` has entries, one unlabelled camera per URL;
    /// otherwise no cameras. The broker and actions are taken as they are.
    pub fn from_raw(raw: RawConfig) -> (r: AppConfig)
        ensures
            r.mqtt == raw.mqtt,
            r.actions == raw.actions,
            raw.cameras@.len() == 0 && raw.camera_urls@.len() > 0 ==> cameras_from_urls(
                raw.camera_urls@,
                r.cameras@,
            ),
            !(raw.cameras@.len() == 0 && raw.camera_urls@.len() > 0) ==> r.cameras == raw.cameras,
    {
        let RawConfig { cameras, camera_urls, mqtt, actions } = raw;
        if cameras.len() == 0 && camera_urls.len() > 0 {
            let mut converted: Vec<(String, CameraConfig)> = Vec::new();
            let n = camera_urls.len();
            let mut i: usize = 0;
            while i < n
                invariant
                    n == camera_urls@.len(),
                    i <= n,
                    cameras_from_urls(camera_urls@.take(i as int), converted@),
                decreases n - i,
            {
                let key = camera_urls[i].0.clone();
                let url = camera_urls[i].1.clone();
                converted.push((key, CameraConfig { url, label: None }));
                i = i + 1;
                assert(cameras_from_urls(camera_urls@.take(i as int), converted@)) by {
                    assert forall|j: int| 0 <= j < i implies {
                        &&& (#[trigger] converted@[j]).0 == camera_urls@.take(i as int)[j].0
                        &&& converted@[j].1.url == camera_urls@.take(i as int)[j].1
                        &&& converted@[j].1.label is None
                    } by {
                        if j < i - 1 {
                            assert(camera_urls@.take(i as int)[j] == camera_urls@.take(
                                (i - 1) as int,
                            )[j]);
                        }
                    }
                }
            }
            assert(camera_urls@.take(n as int) =~= camera_urls@);
            AppConfig { cameras: converted, mqtt, actions }
        } else {
            AppConfig { cameras, mqtt, actions }
        }
    }
}

} // verus!
