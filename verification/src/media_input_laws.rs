//! What the keys and the controller do, and what changing that keeps.

use crate::media_input::{
    button_at_bit, chord, default_chord, default_keyboard, default_pad, default_pads, elapsed,
    filled_keyboard, filled_pad, fires_again, has_chord, has_input, hat_presses, migrated_keyboard,
    migrated_pad, rebound_chords, rebound_pad, ChordModel, HeldState, MediaAction, PadAxisCode,
    PadButtonCode, PadInput,
};
use vstd::prelude::*;

verus! {

/// Giving a chord to an action leaves every other action as it was, but for those that had the
/// chord, which have none then.
pub proof fn rebinding_a_chord_leaves_the_others(
    before: Map<MediaAction, ChordModel>,
    action: MediaAction,
    c: ChordModel,
    other: MediaAction,
)
    requires
        other != action,
    ensures
        ({
            let after = rebound_chords(before, action, c);
            &&& after.contains_key(action) && after[action] == c
            &&& before.contains_key(other) && before[other] != c ==> after.contains_key(other)
                && after[other] == before[other]
            &&& before.contains_key(other) && before[other] == c ==> !after.contains_key(other)
            &&& !before.contains_key(other) ==> !after.contains_key(other)
        }),
{
}

/// The same for the inputs of a controller.
pub proof fn rebinding_an_input_leaves_the_others(
    before: Map<MediaAction, PadInput>,
    action: MediaAction,
    p: PadInput,
    other: MediaAction,
)
    requires
        other != action,
    ensures
        ({
            let after = rebound_pad(before, action, p);
            &&& after.contains_key(action) && after[action] == p
            &&& before.contains_key(other) && before[other] != p ==> after.contains_key(other)
                && after[other] == before[other]
            &&& before.contains_key(other) && before[other] == p ==> !after.contains_key(other)
            &&& !before.contains_key(other) ==> !after.contains_key(other)
        }),
{
}

/// The chord of every action from the start: its key, and whether Ctrl, Shift and Alt are held.
pub proof fn keys_do_what_they_say(a: MediaAction)
    ensures
        default_keyboard().contains_key(a) && default_keyboard()[a] == default_chord(a),
        a is MoveLeft ==> default_chord(a) == (ChordModel { key: "ArrowLeft"@, ctrl: false, shift: false, alt: false }),
        a is MoveRight ==> default_chord(a) == (ChordModel { key: "ArrowRight"@, ctrl: false, shift: false, alt: false }),
        a is MoveUp ==> default_chord(a) == (ChordModel { key: "ArrowUp"@, ctrl: false, shift: false, alt: false }),
        a is MoveDown ==> default_chord(a) == (ChordModel { key: "ArrowDown"@, ctrl: false, shift: false, alt: false }),
        a is PageUp ==> default_chord(a) == (ChordModel { key: "PageUp"@, ctrl: false, shift: false, alt: false }),
        a is PageDown ==> default_chord(a) == (ChordModel { key: "PageDown"@, ctrl: false, shift: false, alt: false }),
        a is Home ==> default_chord(a) == (ChordModel { key: "Home"@, ctrl: false, shift: false, alt: false }),
        a is End ==> default_chord(a) == (ChordModel { key: "End"@, ctrl: false, shift: false, alt: false }),
        a is FolderUp ==> default_chord(a) == (ChordModel { key: "Backspace"@, ctrl: false, shift: false, alt: false }),
        a is FolderEnter ==> default_chord(a) == (ChordModel { key: "ArrowDown"@, ctrl: false, shift: false, alt: true }),
        a is FolderPrevSibling ==> default_chord(a) == (ChordModel { key: "ArrowLeft"@, ctrl: false, shift: false, alt: true }),
        a is FolderNextSibling ==> default_chord(a) == (ChordModel { key: "ArrowRight"@, ctrl: false, shift: false, alt: true }),
        a is ToggleFolderNavigator ==> default_chord(a) == (ChordModel { key: "G"@, ctrl: true, shift: false, alt: false }),
        a is OpenFile ==> default_chord(a) == (ChordModel { key: "Enter"@, ctrl: false, shift: false, alt: false }),
        a is OpenLocation ==> default_chord(a) == (ChordModel { key: "L"@, ctrl: true, shift: false, alt: false }),
        a is ToggleSelect ==> default_chord(a) == (ChordModel { key: "Space"@, ctrl: false, shift: false, alt: false }),
        a is SelectAll ==> default_chord(a) == (ChordModel { key: "A"@, ctrl: true, shift: false, alt: false }),
        a is SelectNone ==> default_chord(a) == (ChordModel { key: "A"@, ctrl: true, shift: true, alt: false }),
        a is InvertSelection ==> default_chord(a) == (ChordModel { key: "I"@, ctrl: true, shift: false, alt: false }),
        a is Delete ==> default_chord(a) == (ChordModel { key: "Delete"@, ctrl: false, shift: false, alt: false }),
        a is Copy ==> default_chord(a) == (ChordModel { key: "C"@, ctrl: true, shift: false, alt: false }),
        a is Cut ==> default_chord(a) == (ChordModel { key: "X"@, ctrl: true, shift: false, alt: false }),
        a is Paste ==> default_chord(a) == (ChordModel { key: "V"@, ctrl: true, shift: false, alt: false }),
        a is Rename ==> default_chord(a) == (ChordModel { key: "F2"@, ctrl: false, shift: false, alt: false }),
        a is ToggleFavoritesPanel ==> default_chord(a) == (ChordModel { key: "B"@, ctrl: true, shift: false, alt: false }),
        a is TogglePointerMode ==> default_chord(a) == (ChordModel { key: "M"@, ctrl: true, shift: false, alt: false }),
        a is ToggleSettingsPanel ==> default_chord(a) == (ChordModel { key: "P"@, ctrl: true, shift: false, alt: false }),
        a is ToggleViewMode ==> default_chord(a) == (ChordModel { key: "Tab"@, ctrl: false, shift: false, alt: false }),
        a is ToggleChromeHide ==> default_chord(a) == (ChordModel { key: "F"@, ctrl: true, shift: false, alt: false }),
        a is ThumbZoomIn ==> default_chord(a) == (ChordModel { key: "Equals"@, ctrl: true, shift: false, alt: false }),
        a is ThumbZoomOut ==> default_chord(a) == (ChordModel { key: "Minus"@, ctrl: true, shift: false, alt: false }),
        a is FocusSearch ==> default_chord(a) == (ChordModel { key: "K"@, ctrl: true, shift: false, alt: false }),
        a is Refresh ==> default_chord(a) == (ChordModel { key: "F5"@, ctrl: false, shift: false, alt: false }),
        a is VideoSeekBack ==> default_chord(a) == (ChordModel { key: "J"@, ctrl: false, shift: false, alt: false }),
        a is VideoSeekForward ==> default_chord(a) == (ChordModel { key: "L"@, ctrl: false, shift: false, alt: false }),
        a is VideoVolumeDown ==> default_chord(a) == (ChordModel { key: "ArrowDown"@, ctrl: true, shift: false, alt: false }),
        a is VideoVolumeUp ==> default_chord(a) == (ChordModel { key: "ArrowUp"@, ctrl: true, shift: false, alt: false }),
        a is DeletePermanent ==> default_chord(a) == (ChordModel { key: "Delete"@, ctrl: false, shift: true, alt: false }),
{
}

/// The input of every action from the start. The others have none, and the menu button is free.
pub proof fn controllers_do_what_they_say(a: MediaAction)
    ensures
        default_pads().contains_key(a) == default_pad(a) is Some,
        default_pad(a) is Some ==> default_pads()[a] == default_pad(a)->0,
        default_pad(a) != Some(PadInput::Button(PadButtonCode::Start)),
        a is MoveLeft ==> default_pad(a) == Some(PadInput::Button(PadButtonCode::DPadLeft)),
        a is MoveRight ==> default_pad(a) == Some(PadInput::Button(PadButtonCode::DPadRight)),
        a is MoveUp ==> default_pad(a) == Some(PadInput::Button(PadButtonCode::DPadUp)),
        a is MoveDown ==> default_pad(a) == Some(PadInput::Button(PadButtonCode::DPadDown)),
        a is OpenFile ==> default_pad(a) == Some(PadInput::Button(PadButtonCode::South)),
        a is FolderUp ==> default_pad(a) == Some(PadInput::Button(PadButtonCode::East)),
        a is ToggleSelect ==> default_pad(a) == Some(PadInput::Button(PadButtonCode::West)),
        a is ToggleViewMode ==> default_pad(a) == Some(PadInput::Button(PadButtonCode::North)),
        a is FolderPrevSibling ==> default_pad(a) == Some(PadInput::Button(PadButtonCode::LeftBumper)),
        a is FolderNextSibling ==> default_pad(a) == Some(PadInput::Button(PadButtonCode::RightBumper)),
        a is ThumbZoomOut ==> default_pad(a) == Some(PadInput::Button(PadButtonCode::LeftTrigger)),
        a is ThumbZoomIn ==> default_pad(a) == Some(PadInput::Button(PadButtonCode::RightTrigger)),
        a is TogglePointerMode ==> default_pad(a) == Some(PadInput::Button(PadButtonCode::RightThumb)),
        a is ToggleChromeHide ==> default_pad(a) == Some(PadInput::Button(PadButtonCode::LeftThumb)),
        a is FocusSearch ==> default_pad(a) == Some(PadInput::AxisPos(PadAxisCode::LeftStickX)),
        a is ToggleFolderNavigator ==> default_pad(a) == Some(PadInput::Button(PadButtonCode::Select)),
        a is VideoSeekBack ==> default_pad(a) == Some(PadInput::AxisNeg(PadAxisCode::RightStickX)),
        a is VideoSeekForward ==> default_pad(a) == Some(PadInput::AxisPos(PadAxisCode::RightStickX)),
        a is VideoVolumeDown ==> default_pad(a) == Some(PadInput::AxisNeg(PadAxisCode::RightStickY)),
        a is VideoVolumeUp ==> default_pad(a) == Some(PadInput::AxisPos(PadAxisCode::RightStickY)),
        !(a is MoveLeft || a is MoveRight || a is MoveUp || a is MoveDown || a is OpenFile || a is FolderUp || a is ToggleSelect || a is ToggleViewMode || a is FolderPrevSibling || a is FolderNextSibling || a is ThumbZoomOut || a is ThumbZoomIn || a is TogglePointerMode || a is ToggleChromeHide || a is FocusSearch || a is ToggleFolderNavigator || a is VideoSeekBack || a is VideoSeekForward || a is VideoVolumeDown || a is VideoVolumeUp) ==> default_pad(a) is None,
{
}

/// Loading stored chords keeps every one that was stored, but that favorites on Ctrl+F and the full
/// screen on F11, from before the second version, become Ctrl+B and Ctrl+F together; and gives each
/// action without one the chord from the start.
pub proof fn stored_chords_are_kept(version: u32, k: Map<MediaAction, ChordModel>, a: MediaAction)
    ensures
        ({
            let r = filled_keyboard(migrated_keyboard(version, k));
            let old = version < 2 && has_chord(
                k,
                MediaAction::ToggleFavoritesPanel,
                chord("F"@, true, false, false),
            ) && has_chord(
                k,
                MediaAction::ToggleChromeHide,
                chord("F11"@, false, false, false),
            );
            &&& r.contains_key(a)
            &&& !old && k.contains_key(a) ==> r[a] == k[a]
            &&& !k.contains_key(a) ==> r[a] == default_chord(a)
            &&& old && a != MediaAction::ToggleFavoritesPanel && a != MediaAction::ToggleChromeHide
                && k.contains_key(a) ==> r[a] == k[a]
            &&& old ==> r[MediaAction::ToggleFavoritesPanel] == chord("B"@, true, false, false)
                && r[MediaAction::ToggleChromeHide] == chord("F"@, true, false, false)
        }),
{
}

/// Loading stored inputs keeps every one that was stored, but for the three defaults of older
/// versions that have moved on; and gives each action without one the input from the start, unless
/// another action uses it.
pub proof fn stored_inputs_are_kept(version: u32, p: Map<MediaAction, PadInput>, a: MediaAction)
    ensures
        ({
            let m = migrated_pad(version, p);
            let r = filled_pad(m);
            let select = PadInput::Button(PadButtonCode::Select);
            let start = PadInput::Button(PadButtonCode::Start);
            let thumb = PadInput::Button(PadButtonCode::RightThumb);
            &&& version >= 5 ==> m == p
            &&& a != MediaAction::OpenLocation && a != MediaAction::ToggleFolderNavigator && a
                != MediaAction::ToggleSettingsPanel && a != MediaAction::ToggleFavoritesPanel && a
                != MediaAction::TogglePointerMode ==> m.contains_key(a) == p.contains_key(a) && m[a]
                == p[a]
            &&& version < 3 && has_input(p, MediaAction::OpenLocation, select) ==> !m.contains_key(
                MediaAction::OpenLocation,
            ) && has_input(m, MediaAction::ToggleFolderNavigator, select)
            &&& version < 4 && has_input(p, MediaAction::ToggleSettingsPanel, start)
                ==> !m.contains_key(MediaAction::ToggleSettingsPanel)
            &&& version < 5 && has_input(p, MediaAction::ToggleFavoritesPanel, thumb)
                ==> !m.contains_key(MediaAction::ToggleFavoritesPanel) && has_input(
                m,
                MediaAction::TogglePointerMode,
                thumb,
            )
            &&& p.contains_key(MediaAction::OpenLocation) && p[MediaAction::OpenLocation] != select
                ==> has_input(m, MediaAction::OpenLocation, p[MediaAction::OpenLocation])
            &&& p.contains_key(MediaAction::ToggleSettingsPanel)
                && p[MediaAction::ToggleSettingsPanel] != start ==> has_input(
                m,
                MediaAction::ToggleSettingsPanel,
                p[MediaAction::ToggleSettingsPanel],
            )
            &&& p.contains_key(MediaAction::ToggleFavoritesPanel)
                && p[MediaAction::ToggleFavoritesPanel] != thumb ==> has_input(
                m,
                MediaAction::ToggleFavoritesPanel,
                p[MediaAction::ToggleFavoritesPanel],
            )
            &&& m.contains_key(a) ==> has_input(r, a, m[a])
            &&& !m.contains_key(a) && default_pad(a) is Some && (forall|b: MediaAction|
                !(#[trigger] m.contains_key(b) && m[b] == default_pad(a)->0)) ==> has_input(
                r,
                a,
                default_pad(a)->0,
            )
            &&& !m.contains_key(a) && (default_pad(a) is None || exists|b: MediaAction|
                #[trigger] m.contains_key(b) && m[b] == default_pad(a)->0) ==> !r.contains_key(a)
        }),
{
}

/// Moving, paging and zooming repeat while their input is held; nothing else does.
pub proof fn only_moving_and_zooming_repeat(a: MediaAction)
    ensures
        a.is_repeated() <==> a is MoveLeft || a is MoveRight || a is MoveUp || a is MoveDown || a
            is PageUp || a is PageDown || a is ThumbZoomIn || a is ThumbZoomOut,
        !(a is Delete && a.is_repeated()) && !(a is DeletePermanent && a.is_repeated()),
{
}

/// A held input fires again from 350 milliseconds after it was pressed on, and 90 milliseconds after
/// it last fired, unless it is silent.
pub proof fn held_inputs_fire_in_their_time(s: HeldState, now: u64)
    ensures
        fires_again(s, now) <==> !s.silent && now >= s.pressed_at + 350 && now >= s.last_fire + 90,
        now >= s.pressed_at ==> elapsed(s.pressed_at, now) == now - s.pressed_at,
        now < s.pressed_at ==> elapsed(s.pressed_at, now) == 0,
{
}

/// How far two directions lie apart, in hundredths of a degree.
pub open spec fn apart(a: int, b: int) -> int {
    let d = if a >= b {
        a - b
    } else {
        b - a
    };
    if d <= 18_000 {
        d
    } else {
        36_000 - d
    }
}

/// The hat presses a direction of the pad where it points within an eighth of a turn of it, so that
/// it presses two of them on a diagonal; at rest it presses none, and it presses no other button.
pub proof fn hats_press_where_they_point(pov: u32, b: PadButtonCode)
    ensures
        pov < 36_000 ==> {
            &&& hat_presses(pov, PadButtonCode::DPadUp) <==> apart(pov as int, 0) <= 4_500
            &&& hat_presses(pov, PadButtonCode::DPadRight) <==> apart(pov as int, 9_000) <= 4_500
            &&& hat_presses(pov, PadButtonCode::DPadDown) <==> apart(pov as int, 18_000) <= 4_500
            &&& hat_presses(pov, PadButtonCode::DPadLeft) <==> apart(pov as int, 27_000) <= 4_500
        },
        !hat_presses(0xffff, b),
        !(b is DPadUp || b is DPadRight || b is DPadDown || b is DPadLeft) ==> !hat_presses(pov, b),
{
}

/// The buttons of a joystick, by their bit.
pub proof fn joystick_bits_are_buttons(i: int)
    requires
        0 <= i < 12,
    ensures
        ({
            let b = button_at_bit(i);
            &&& b is West <==> i == 0
            &&& b is South <==> i == 1
            &&& b is East <==> i == 2
            &&& b is North <==> i == 3
            &&& b is LeftBumper <==> i == 4
            &&& b is RightBumper <==> i == 5
            &&& b is LeftTrigger <==> i == 6
            &&& b is RightTrigger <==> i == 7
            &&& b is Select <==> i == 8
            &&& b is Start <==> i == 9
            &&& b is LeftThumb <==> i == 10
            &&& b is RightThumb <==> i == 11
        }),
{
}

} // verus!
