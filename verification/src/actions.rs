//! The shell commands run when a detection is forwarded: the wake commands and a
//! text-to-speech command that speaks a phrase about the detection.
use vstd::prelude::*;
use vstd::string::*;

use crate::config::{texts_view, ActionsConfig};
use crate::text::{
    capitalize_first, capitalized, law_lowered_idempotent, lower_char, lowered, replace_all,
    replaced, shell_escape_single_quotes, single_quoted, text_eq, to_ascii_lowercase, upper_char,
};

verus! {

/// The phrase spoken for a detection of `label` on a camera. A person gets a fixed phrase
/// for the driveway, the stairs and the front door cameras, and "Person at <label>" on
/// any other; anything else is spoken as its lower-cased label, capitalised, followed by
/// " at <camera label>". The detection label is compared without regard to ASCII case.
pub open spec fn tts_phrase_of(
    camera_id: Seq<char>,
    camera_label: Seq<char>,
    label: Seq<char>,
) -> Seq<char> {
    let l = lowered(label);
    if l == "person"@ {
        if camera_id == "driveway"@ {
            "Person in driveway"@
        } else if camera_id == "stairs"@ {
            "Person on stairs"@
        } else if camera_id == "front_door"@ {
            "Person at front door"@
        } else {
            "Person at "@ + camera_label
        }
    } else {
        capitalized(l) + " at "@ + camera_label
    }
}

/// The text-to-speech command: the configured command with every `{text}` replaced by
/// the phrase as a single-quoted shell word.
pub open spec fn tts_command_of(command: Seq<char>, phrase: Seq<char>) -> Seq<char> {
    replaced(command, "{text}"@, single_quoted(phrase))
}

/// The commands run for a detection, in order: the wake commands if waking is enabled,
/// then the text-to-speech command if speech is enabled.
pub open spec fn commands_of(
    actions: ActionsConfig,
    camera_id: Seq<char>,
    camera_label: Seq<char>,
    label: Seq<char>,
) -> Seq<Seq<char>> {
    (if actions.wake.enabled {
        texts_view(actions.wake.commands@)
    } else {
        seq![]
    }) + (if actions.tts.enabled {
        seq![tts_command_of(actions.tts.command@, tts_phrase_of(camera_id, camera_label, label))]
    } else {
        seq![]
    })
}

/// The phrase does not depend on the ASCII case of the detection label.
pub proof fn law_tts_phrase_ignores_label_case(
    camera_id: Seq<char>,
    camera_label: Seq<char>,
    label: Seq<char>,
)
    ensures
        tts_phrase_of(camera_id, camera_label, label) == tts_phrase_of(
            camera_id,
            camera_label,
            lowered(label),
        ),
{
    law_lowered_idempotent(label);
}

/// The phrase for a detection (see `tts_phrase_of`).
pub fn tts_phrase(camera_id: &str, camera_label: &str, label: &str) -> (r: String)
    ensures
        r@ == tts_phrase_of(camera_id@, camera_label@, label@),
{
    let label = to_ascii_lowercase(label);
    if text_eq(label.as_str(), "person") {
        if text_eq(camera_id, "driveway") {
            String::from_str("Person in driveway")
        } else if text_eq(camera_id, "stairs") {
            String::from_str("Person on stairs")
        } else if text_eq(camera_id, "front_door") {
            String::from_str("Person at front door")
        } else {
            let mut r = String::from_str("Person at ");
            r.append(camera_label);
            r
        }
    } else {
        let mut r = capitalize_first(label.as_str());
        r.append(" at ");
        r.append(camera_label);
        r
    }
}

/// The commands to run for a detection (see `commands_of`).
pub fn action_commands(
    actions: &ActionsConfig,
    camera_id: &str,
    camera_label: &str,
    label: &str,
) -> (r: Vec<String>)
    ensures
        texts_view(r@) == commands_of(*actions, camera_id@, camera_label@, label@),
{
    let mut r: Vec<String> = Vec::new();
    if actions.wake.enabled {
        let cmds = &actions.wake.commands;
        let n = cmds.len();
        let mut i: usize = 0;
        while i < n
            invariant
                n == cmds@.len(),
                i <= n,
                r@.len() == i,
                texts_view(r@) == texts_view(cmds@.take(i as int)),
            decreases n - i,
        {
            let c = cmds[i].clone();
            let ghost old_r = r@;
            r.push(c);
            i = i + 1;
            assert forall|j: int| 0 <= j < i implies #[trigger] texts_view(r@)[j] == texts_view(
                cmds@.take(i as int),
            )[j] by {
                if j < i - 1 {
                    assert(r@[j] == old_r[j]);
                    assert(texts_view(old_r)[j] == texts_view(cmds@.take(i - 1))[j]);
                }
            }
            assert(texts_view(r@) =~= texts_view(cmds@.take(i as int)));
        }
        assert(cmds@.take(n as int) =~= cmds@);
    }
    let ghost wake_part = texts_view(r@);
    if actions.tts.enabled {
        let spoken = tts_phrase(camera_id, camera_label, label);
        let escaped = shell_escape_single_quotes(spoken.as_str());
        let placeholder = "{text}";
        proof {
            reveal_strlit("{text}");
        }
        let cmd = replace_all(actions.tts.command.as_str(), placeholder, escaped.as_str());
        r.push(cmd);
        assert(texts_view(r@) =~= wake_part + seq![
            tts_command_of(actions.tts.command@, tts_phrase_of(camera_id@, camera_label@, label@)),
        ]);
    } else {
        assert(texts_view(r@) =~= wake_part + Seq::<Seq<char>>::empty());
    }
    r
}


/// A person seen on any camera other than the driveway, the stairs and the front door is
/// spoken of as "Person at " and the camera label passed in, whatever the camera's key.
pub proof fn law_person_phrase_names_camera_label(
    camera_id: Seq<char>,
    camera_label: Seq<char>,
    label: Seq<char>,
)
    requires
        lowered(label) == "person"@,
        camera_id != "driveway"@,
        camera_id != "stairs"@,
        camera_id != "front_door"@,
    ensures
        tts_phrase_of(camera_id, camera_label, label) == "Person at "@ + camera_label,
{
}

/// A person on the driveway, the stairs or the front door camera gets its fixed phrase,
/// whatever the camera label.
pub proof fn law_person_fixed_phrases(camera_label: Seq<char>, label: Seq<char>)
    requires
        lowered(label) == "person"@,
    ensures
        tts_phrase_of("driveway"@, camera_label, label) == "Person in driveway"@,
        tts_phrase_of("stairs"@, camera_label, label) == "Person on stairs"@,
        tts_phrase_of("front_door"@, camera_label, label) == "Person at front door"@,
{
    reveal_strlit("driveway");
    reveal_strlit("stairs");
    reveal_strlit("front_door");
    assert("stairs"@.len() == 6);
    assert("driveway"@.len() == 8);
    assert("front_door"@.len() == 10);
    assert("stairs"@ != "driveway"@);
    assert("front_door"@ != "driveway"@);
    assert("front_door"@ != "stairs"@);
}

/// Anything but a person is spoken as its label, lower-cased with the first letter
/// upper-cased (ASCII), then " at " and the camera label.
pub proof fn law_other_label_phrase(camera_id: Seq<char>, camera_label: Seq<char>, label: Seq<char>)
    requires
        lowered(label) != "person"@,
    ensures
        tts_phrase_of(camera_id, camera_label, label).len() == label.len() + 4 + camera_label.len(),
        label.len() > 0 ==> tts_phrase_of(camera_id, camera_label, label)[0] == upper_char(
            lower_char(label[0]),
        ),
        forall|j: int|
            1 <= j < label.len() ==> #[trigger] tts_phrase_of(camera_id, camera_label, label)[j]
                == lower_char(label[j]),
        tts_phrase_of(camera_id, camera_label, label).skip(label.len() as int) == " at "@
            + camera_label,
{
    reveal_strlit(" at ");
    let l = lowered(label);
    let p = tts_phrase_of(camera_id, camera_label, label);
    assert(p == capitalized(l) + " at "@ + camera_label);
    assert(capitalized(l).len() == l.len());
    assert forall|j: int| 1 <= j < label.len() implies #[trigger] p[j] == lower_char(label[j]) by {
        assert(p[j] == capitalized(l)[j]);
        assert(capitalized(l)[j] == l.drop_first()[j - 1]);
    }
    if label.len() > 0 {
        assert(p[0] == capitalized(l)[0]);
    }
    assert(p.skip(label.len() as int) =~= " at "@ + camera_label);
}

/// The commands for a detection are every configured wake command, in order and each
/// once, where waking is enabled, followed by exactly one speech command where speech
/// is enabled: the configured command with each `{text}` replaced by the quoted phrase.
pub proof fn law_commands_wake_then_speech(
    actions: ActionsConfig,
    camera_id: Seq<char>,
    camera_label: Seq<char>,
    label: Seq<char>,
)
    ensures
        actions.wake.enabled ==> commands_of(actions, camera_id, camera_label, label).len()
            == actions.wake.commands@.len() + (if actions.tts.enabled { 1int } else { 0int }),
        !actions.wake.enabled ==> commands_of(actions, camera_id, camera_label, label).len() == (
        if actions.tts.enabled {
            1int
        } else {
            0int
        }),
        actions.wake.enabled ==> forall|i: int|
            0 <= i < actions.wake.commands@.len() ==> #[trigger] commands_of(
                actions,
                camera_id,
                camera_label,
                label,
            )[i] == actions.wake.commands@[i]@,
        actions.tts.enabled ==> commands_of(actions, camera_id, camera_label, label).last()
            == replaced(
            actions.tts.command@,
            "{text}"@,
            single_quoted(tts_phrase_of(camera_id, camera_label, label)),
        ),
{
}

} // verus!
