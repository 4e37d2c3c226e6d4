use gcamview::actions::{action_commands, tts_phrase};
use gcamview::config::{ActionsConfig, TtsConfig, WakeConfig};

#[test]
fn person_on_known_cameras_has_fixed_phrases() {
    assert_eq!(tts_phrase("driveway", "Driveway", "person"), "Person in driveway");
    assert_eq!(tts_phrase("stairs", "Stairs", "person"), "Person on stairs");
    assert_eq!(tts_phrase("front_door", "Front Door", "person"), "Person at front door");
}

#[test]
fn person_elsewhere_names_camera_label() {
    assert_eq!(tts_phrase("garage", "Garage", "person"), "Person at Garage");
}

#[test]
fn other_labels_are_capitalised() {
    assert_eq!(tts_phrase("garage", "Garage", "car"), "Car at Garage");
    assert_eq!(tts_phrase("driveway", "Driveway", "DOG"), "Dog at Driveway");
    assert_eq!(tts_phrase("x", "X", ""), " at X");
}

#[test]
fn phrase_ignores_label_case() {
    for (id, cl) in [("driveway", "Driveway"), ("garage", "Garage")] {
        for l in ["PERSON", "Person", "CaR"] {
            assert_eq!(tts_phrase(id, cl, l), tts_phrase(id, cl, &l.to_ascii_lowercase()));
        }
    }
}

fn actions(wake: bool, tts: bool, command: &str) -> ActionsConfig {
    ActionsConfig {
        wake: WakeConfig { enabled: wake, commands: vec!["wake1".to_string(), "wake2".to_string()] },
        tts: TtsConfig { enabled: tts, command: command.to_string() },
    }
}

#[test]
fn commands_wake_then_speak() {
    let cmds = action_commands(&actions(true, true, "spd-say {text}"), "garage", "Garage", "person");
    assert_eq!(cmds, vec!["wake1", "wake2", "spd-say 'Person at Garage'"]);
}

#[test]
fn commands_follow_enabled_flags() {
    assert!(action_commands(&actions(false, false, "say {text}"), "a", "A", "person").is_empty());
    assert_eq!(
        action_commands(&actions(true, false, "say {text}"), "a", "A", "person"),
        vec!["wake1", "wake2"]
    );
    assert_eq!(
        action_commands(&actions(false, true, "say {text}"), "driveway", "D", "Person"),
        vec!["say 'Person in driveway'"]
    );
}

#[test]
fn spoken_label_quote_is_escaped() {
    let cmds = action_commands(&actions(false, true, "say {text}"), "shed", "Bob's Shed", "cat");
    assert_eq!(cmds, vec!["say 'Cat at Bob'\\''s Shed'"]);
}

#[test]
fn command_without_placeholder_runs_unchanged() {
    let cmds = action_commands(&actions(false, true, "beep"), "a", "A", "person");
    assert_eq!(cmds, vec!["beep"]);
}

#[test]
fn every_placeholder_is_replaced() {
    let cmds = action_commands(&actions(false, true, "a {text} b {text}"), "g", "G", "car");
    assert_eq!(cmds, vec!["a 'Car at G' b 'Car at G'"]);
}
