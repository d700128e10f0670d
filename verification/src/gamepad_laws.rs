//! What the controls of a gamepad stand for.

use crate::gamepad::{axis_of, button_of};
use crate::media_input::{PadAxisCode, PadButtonCode};
use vstd::prelude::*;

verus! {

/// The side of the pad that a control lies on: -1 for the left, 1 for the right.
pub open spec fn side_of(code: PadButtonCode) -> int {
    match code {
        PadButtonCode::LeftBumper => -1,
        PadButtonCode::LeftTrigger => -1,
        PadButtonCode::LeftThumb => -1,
        PadButtonCode::RightBumper => 1,
        PadButtonCode::RightTrigger => 1,
        PadButtonCode::RightThumb => 1,
        _ => 0,
    }
}

/// A control stands for a button of its own name, on its own side. The bumpers are the upper
/// triggers of the pad, and the triggers its lower ones.
pub proof fn controls_stand_for_their_buttons(code: PadButtonCode)
    ensures
        ({
            let b = button_of(code);
            &&& side_of(code) == -1 <==> b is LeftTrigger || b is LeftTrigger2 || b is LeftThumb
            &&& side_of(code) == 1 <==> b is RightTrigger || b is RightTrigger2 || b is RightThumb
            &&& code is LeftBumper || code is RightBumper <==> b is LeftTrigger || b is RightTrigger
            &&& code is LeftTrigger || code is RightTrigger <==> b is LeftTrigger2 || b
                is RightTrigger2
            &&& code is LeftThumb || code is RightThumb <==> b is LeftThumb || b is RightThumb
            &&& code is South <==> b is South
            &&& code is East <==> b is East
            &&& code is North <==> b is North
            &&& code is West <==> b is West
            &&& code is Select <==> b is Select
            &&& code is Start <==> b is Start
            &&& code is DPadUp <==> b is DPadUp
            &&& code is DPadDown <==> b is DPadDown
            &&& code is DPadLeft <==> b is DPadLeft
            &&& code is DPadRight <==> b is DPadRight
        }),
{
}

/// A stick moves along the axis of its own side and direction.
pub proof fn sticks_stand_for_their_axes(code: PadAxisCode)
    ensures
        ({
            let a = axis_of(code);
            &&& a is LeftStickX || a is LeftStickY <==> code is LeftStickX || code is LeftStickY
            &&& a is LeftStickX || a is RightStickX <==> code is LeftStickX || code is RightStickX
            &&& a is RightStickX || a is RightStickY <==> code is RightStickX || code is RightStickY
        }),
{
}

} // verus!
