//! Start-up decisions: carrying settings over from the application's former
//! data directory, scrubbing a plaintext credential from those legacy
//! settings, and how the application reacts to window and protocol events.
use vstd::prelude::*;
use crate::json::{keys_sorted, lookup, members_view, object_remove, object_without, Json, JsonV};
use crate::text::{str_eq, texts_view};

verus! {

/// Whether the legacy `settings.json` is copied into the new data directory:
/// only when the directories differ, the old one exists, the new directory
/// has no settings yet and the old one has.
pub fn should_copy_legacy_settings(
    same_directory: bool,
    old_directory_exists: bool,
    new_settings_exist: bool,
    old_settings_exist: bool,
) -> (r: bool)
    ensures
        r == (!same_directory && old_directory_exists && !new_settings_exist && old_settings_exist),
{
    if same_directory || !old_directory_exists {
        return false;
    }
    !new_settings_exist && old_settings_exist
}

/// What scrubbing `key` from a legacy settings document gives: refused when
/// the document is not an object; nothing to write when it has no such
/// member; otherwise the document without it.
pub open spec fn scrubbed(root: JsonV, key: Seq<char>) -> Result<Option<JsonV>, Seq<char>> {
    match root {
        JsonV::Object(m) => if lookup(m, key) is None {
            Ok(None)
        } else {
            Ok(Some(JsonV::Object(object_without(m, key))))
        },
        _ => Err("Legacy settings root is not an object"@),
    }
}

/// Removes the member `key` from a legacy settings document (see
/// `scrubbed`); `Ok(None)` when there was nothing to remove.
pub fn scrub_key(root: Json, key: &str) -> (r: Result<Option<Json>, String>)
    requires
        root@ matches JsonV::Object(m) ==> keys_sorted(m),
    ensures
        match r {
            Ok(Some(j)) => scrubbed(root@, key@) == Ok::<Option<JsonV>, Seq<char>>(Some(j@)),
            Ok(None) => scrubbed(root@, key@) == Ok::<Option<JsonV>, Seq<char>>(None),
            Err(e) => scrubbed(root@, key@) == Err::<Option<JsonV>, Seq<char>>(e@),
        },
{
    match root {
        Json::Object(m) => {
            proof {
                crate::json::lemma_object_view(m);
            }
            let mut members = m;
            if crate::json::object_get(&members, key).is_none() {
                return Ok(None);
            }
            object_remove(&mut members, key);
            proof {
                crate::json::lemma_object_view(members);
            }
            Ok(Some(Json::Object(members)))
        },
        _ => Err(String::from_str("Legacy settings root is not an object")),
    }
}

/// What happened to a window, as far as the application cares.
#[derive(Debug, Clone, Copy, PartialEq, Eq, Structural)]
pub enum WindowEvent {
    Focused(bool),
    Resized,
    CloseRequested,
    Other,
}

/// What the application does about a window event.
#[derive(Debug, Clone, Copy, PartialEq, Eq, Structural)]
pub enum WindowReaction {
    /// The popup gained (`true`) or lost focus.
    PopupFocus(bool),
    /// The popup was resized.
    PopupResized,
    /// Keep the window and hide it instead of closing it.
    HideInsteadOfClose,
    Nothing,
}

/// The popup reacts to focus and size; the settings and changelog windows
/// hide instead of closing; everything else is left alone.
pub open spec fn reaction_to(label: Seq<char>, event: WindowEvent) -> WindowReaction {
    if label == "tray-popup"@ {
        match event {
            WindowEvent::Focused(f) => WindowReaction::PopupFocus(f),
            WindowEvent::Resized => WindowReaction::PopupResized,
            _ => WindowReaction::Nothing,
        }
    } else if label == "settings"@ || label == "changelog"@ {
        match event {
            WindowEvent::CloseRequested => WindowReaction::HideInsteadOfClose,
            _ => WindowReaction::Nothing,
        }
    } else {
        WindowReaction::Nothing
    }
}

/// How the application reacts to `event` on the window labelled `label`.
pub fn window_reaction(label: &str, event: WindowEvent) -> (r: WindowReaction)
    ensures
        r == reaction_to(label@, event),
{
    if str_eq(label, "tray-popup") {
        match event {
            WindowEvent::Focused(f) => WindowReaction::PopupFocus(f),
            WindowEvent::Resized => WindowReaction::PopupResized,
            _ => WindowReaction::Nothing,
        }
    } else if str_eq(label, "settings") || str_eq(label, "changelog") {
        match event {
            WindowEvent::CloseRequested => WindowReaction::HideInsteadOfClose,
            _ => WindowReaction::Nothing,
        }
    } else {
        WindowReaction::Nothing
    }
}

/// Whether protocol activations with these URL schemes surface the popup:
/// when one of them is the application's own scheme.
pub fn surfaces_popup(schemes: &Vec<String>) -> (r: bool)
    ensures
        r == texts_view(schemes@).contains("kimaitray"@),
{
    let mut i: usize = 0;
    while i < schemes.len()
        invariant
            i <= schemes@.len(),
            forall|k: int| 0 <= k < i ==> texts_view(schemes@)[k] != "kimaitray"@,
        decreases schemes@.len() - i,
    {
        if str_eq(schemes[i].as_str(), "kimaitray") {
            assert(texts_view(schemes@)[i as int] == "kimaitray"@);
            return true;
        }
        i += 1;
    }
    false
}

} // verus!
