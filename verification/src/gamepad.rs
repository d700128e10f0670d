//! The buttons and axes of a gamepad as a driver names them, and the controls that they are here.

use crate::media_input::{ControllerSnapshot, PadAxisCode, PadButtonCode};
use vstd::prelude::*;

verus! {

/// The buttons that a gamepad can have. A driver counts the bumpers as the first pair of triggers.
#[derive(Clone, Copy, PartialEq, Eq, Debug, Structural)]
pub enum GamepadButton {
    South,
    East,
    North,
    West,
    C,
    Z,
    LeftTrigger,
    LeftTrigger2,
    RightTrigger,
    RightTrigger2,
    Select,
    Start,
    Mode,
    LeftThumb,
    RightThumb,
    DPadUp,
    DPadDown,
    DPadLeft,
    DPadRight,
    Unknown,
}

/// The axes that a gamepad can have.
#[derive(Clone, Copy, PartialEq, Eq, Debug, Structural)]
pub enum GamepadAxis {
    LeftStickX,
    LeftStickY,
    LeftZ,
    RightStickX,
    RightStickY,
    RightZ,
    DPadX,
    DPadY,
    Unknown,
}

/// The button of a gamepad that a control stands for.
pub open spec fn button_of(code: PadButtonCode) -> GamepadButton {
    match code {
        PadButtonCode::South => GamepadButton::South,
        PadButtonCode::East => GamepadButton::East,
        PadButtonCode::North => GamepadButton::North,
        PadButtonCode::West => GamepadButton::West,
        PadButtonCode::LeftBumper => GamepadButton::LeftTrigger,
        PadButtonCode::RightBumper => GamepadButton::RightTrigger,
        PadButtonCode::LeftTrigger => GamepadButton::LeftTrigger2,
        PadButtonCode::RightTrigger => GamepadButton::RightTrigger2,
        PadButtonCode::Select => GamepadButton::Select,
        PadButtonCode::Start => GamepadButton::Start,
        PadButtonCode::LeftThumb => GamepadButton::LeftThumb,
        PadButtonCode::RightThumb => GamepadButton::RightThumb,
        PadButtonCode::DPadUp => GamepadButton::DPadUp,
        PadButtonCode::DPadDown => GamepadButton::DPadDown,
        PadButtonCode::DPadLeft => GamepadButton::DPadLeft,
        PadButtonCode::DPadRight => GamepadButton::DPadRight,
    }
}

/// The axis of a gamepad that a control stands for.
pub open spec fn axis_of(code: PadAxisCode) -> GamepadAxis {
    match code {
        PadAxisCode::LeftStickX => GamepadAxis::LeftStickX,
        PadAxisCode::LeftStickY => GamepadAxis::LeftStickY,
        PadAxisCode::RightStickX => GamepadAxis::RightStickX,
        PadAxisCode::RightStickY => GamepadAxis::RightStickY,
    }
}

impl PadButtonCode {
    /// The control that a button of a gamepad is, if it is one.
    pub fn from_gilrs(b: GamepadButton) -> (r: Option<Self>)
        ensures
            match r {
                Some(code) => button_of(code) == b,
                None => forall|code: PadButtonCode| #[trigger] button_of(code) != b,
            },
    {
        match b {
            GamepadButton::South => Some(PadButtonCode::South),
            GamepadButton::East => Some(PadButtonCode::East),
            GamepadButton::North => Some(PadButtonCode::North),
            GamepadButton::West => Some(PadButtonCode::West),
            GamepadButton::LeftTrigger => Some(PadButtonCode::LeftBumper),
            GamepadButton::RightTrigger => Some(PadButtonCode::RightBumper),
            GamepadButton::LeftTrigger2 => Some(PadButtonCode::LeftTrigger),
            GamepadButton::RightTrigger2 => Some(PadButtonCode::RightTrigger),
            GamepadButton::Select => Some(PadButtonCode::Select),
            GamepadButton::Start => Some(PadButtonCode::Start),
            GamepadButton::LeftThumb => Some(PadButtonCode::LeftThumb),
            GamepadButton::RightThumb => Some(PadButtonCode::RightThumb),
            GamepadButton::DPadUp => Some(PadButtonCode::DPadUp),
            GamepadButton::DPadDown => Some(PadButtonCode::DPadDown),
            GamepadButton::DPadLeft => Some(PadButtonCode::DPadLeft),
            GamepadButton::DPadRight => Some(PadButtonCode::DPadRight),
            GamepadButton::C | GamepadButton::Z | GamepadButton::Mode | GamepadButton::Unknown => None,
        }
    }

    /// The button of a gamepad that the control stands for.
    pub fn to_gilrs(self) -> (r: GamepadButton)
        ensures
            r == button_of(self),
    {
        match self {
            PadButtonCode::South => GamepadButton::South,
            PadButtonCode::East => GamepadButton::East,
            PadButtonCode::North => GamepadButton::North,
            PadButtonCode::West => GamepadButton::West,
            PadButtonCode::LeftBumper => GamepadButton::LeftTrigger,
            PadButtonCode::RightBumper => GamepadButton::RightTrigger,
            PadButtonCode::LeftTrigger => GamepadButton::LeftTrigger2,
            PadButtonCode::RightTrigger => GamepadButton::RightTrigger2,
            PadButtonCode::Select => GamepadButton::Select,
            PadButtonCode::Start => GamepadButton::Start,
            PadButtonCode::LeftThumb => GamepadButton::LeftThumb,
            PadButtonCode::RightThumb => GamepadButton::RightThumb,
            PadButtonCode::DPadUp => GamepadButton::DPadUp,
            PadButtonCode::DPadDown => GamepadButton::DPadDown,
            PadButtonCode::DPadLeft => GamepadButton::DPadLeft,
            PadButtonCode::DPadRight => GamepadButton::DPadRight,
        }
    }
}

impl PadAxisCode {
    /// The control that an axis of a gamepad is, if it is one.
    pub fn from_gilrs(a: GamepadAxis) -> (r: Option<Self>)
        ensures
            match r {
                Some(code) => axis_of(code) == a,
                None => forall|code: PadAxisCode| #[trigger] axis_of(code) != a,
            },
    {
        match a {
            GamepadAxis::LeftStickX => Some(PadAxisCode::LeftStickX),
            GamepadAxis::LeftStickY => Some(PadAxisCode::LeftStickY),
            GamepadAxis::RightStickX => Some(PadAxisCode::RightStickX),
            GamepadAxis::RightStickY => Some(PadAxisCode::RightStickY),
            GamepadAxis::LeftZ
            | GamepadAxis::RightZ
            | GamepadAxis::DPadX
            | GamepadAxis::DPadY
            | GamepadAxis::Unknown => None,
        }
    }

    /// The axis of a gamepad that the control stands for.
    pub fn to_gilrs(self) -> (r: GamepadAxis)
        ensures
            r == axis_of(self),
    {
        match self {
            PadAxisCode::LeftStickX => GamepadAxis::LeftStickX,
            PadAxisCode::LeftStickY => GamepadAxis::LeftStickY,
            PadAxisCode::RightStickX => GamepadAxis::RightStickX,
            PadAxisCode::RightStickY => GamepadAxis::RightStickY,
        }
    }
}

/// Different controls stand for different buttons and axes, so that each is told from its button or
/// axis.
pub proof fn controls_are_told_apart(a: PadButtonCode, b: PadButtonCode, x: PadAxisCode, y: PadAxisCode)
    ensures
        button_of(a) == button_of(b) ==> a == b,
        axis_of(x) == axis_of(y) ==> x == y,
{
}

fn is_held(held: &Vec<GamepadButton>, button: GamepadButton) -> (r: bool)
    ensures
        r == held@.contains(button),
{
    let n: usize = held.len();
    let mut i: usize = 0;
    while i < n
        invariant
            i <= n,
            n == held@.len(),
            forall|j: int| 0 <= j < i ==> held@[j] != button,
        decreases n - i,
    {
        if held[i] == button {
            return true;
        }
        i += 1;
    }
    false
}

impl ControllerSnapshot {
    /// The snapshot of a gamepad, given the buttons that are held on it.
    pub fn from_gilrs(device_id: String, device_name: String, held: &Vec<GamepadButton>) -> (r: Self)
        ensures
            r.source@ == "gilrs-wgi"@,
            r.device_id == device_id,
            r.device_name == device_name,
            r.vendor_id is None,
            r.product_id is None,
            forall|b: PadButtonCode| #[trigger]
                r.buttons@.contains(b) <==> held@.contains(button_of(b)),
            r.guide_pressed == held@.contains(GamepadButton::Mode),
    {
        let all = PadButtonCode::all();
        let mut buttons: Vec<PadButtonCode> = Vec::new();
        let mut i: usize = 0;
        while i < 16
            invariant
                i <= 16,
                all@.len() == 16,
                forall|k: int| 0 <= k < all@.len() ==> (#[trigger] all@[k]).place() == k,
                forall|b: PadButtonCode| #[trigger]
                    buttons@.contains(b) <==> b.place() < i && held@.contains(button_of(b)),
            decreases 16 - i,
        {
            let code = all[i];
            let ghost before = buttons@;
            if is_held(held, code.to_gilrs()) {
                buttons.push(code);
            }
            proof {
                assert forall|b: PadButtonCode| #[trigger] buttons@.contains(b) <==> b.place() < i
                    + 1 && held@.contains(button_of(b)) by {
                    assert(before.contains(b) <==> b.place() < i && held@.contains(button_of(b)));
                    if before.contains(b) {
                        let j = before.index_of(b);
                        assert(buttons@[j] == b);
                    }
                    if b.place() == i {
                        assert(b == code);
                        if buttons@.len() > before.len() {
                            assert(buttons@[before.len() as int] == b);
                        }
                    } else if buttons@.contains(b) {
                        let j = buttons@.index_of(b);
                        assert(buttons@[j] == b);
                        assert(before[j] == b);
                    }
                }
            }
            i += 1;
        }
        proof {
            assert forall|b: PadButtonCode| b.place() < 16 by {}
        }
        ControllerSnapshot {
            source: "gilrs-wgi".to_owned(),
            device_id,
            device_name,
            vendor_id: None,
            product_id: None,
            buttons,
            guide_pressed: is_held(held, GamepadButton::Mode),
        }
    }
}

} // verus!
