//! Actions of the media surface and what triggers them: key chords and controller inputs.

use crate::number::{decimal, decimal_text};
use crate::text::{cat, str_eq};
use vstd::prelude::*;

verus! {

/// The version of the default bindings; stored tables of an older one are brought up to it.
pub const BINDINGS_VERSION: u32 = 8;

/// The setting under which the bindings are stored.
pub const BINDINGS_SETTING_KEY: &'static str = "media_bindings_v1";

/// Everything the media surface can do from keyboard or controller.
#[derive(Clone, Copy, PartialEq, Eq, Hash, Debug, PartialOrd, Ord, Structural)]
pub enum MediaAction {
    MoveLeft,
    MoveRight,
    MoveUp,
    MoveDown,
    PageUp,
    PageDown,
    Home,
    End,
    FolderUp,
    FolderEnter,
    FolderPrevSibling,
    FolderNextSibling,
    ToggleFolderNavigator,
    OpenFile,
    OpenLocation,
    ToggleSelect,
    SelectAll,
    SelectNone,
    InvertSelection,
    Delete,
    DeletePermanent,
    Copy,
    Cut,
    Paste,
    Rename,
    ToggleFavoritesPanel,
    TogglePointerMode,
    ToggleSettingsPanel,
    ToggleViewMode,
    ToggleChromeHide,
    ThumbZoomIn,
    ThumbZoomOut,
    FocusSearch,
    Refresh,
    VideoSeekBack,
    VideoSeekForward,
    VideoVolumeDown,
    VideoVolumeUp,
}

/// How many actions there are.
pub const ACTION_COUNT: usize = 38;

impl MediaAction {
    /// The place of the action in the order of all actions.
    pub open spec fn place(self) -> int {
        match self {
            MediaAction::MoveLeft => 0,
            MediaAction::MoveRight => 1,
            MediaAction::MoveUp => 2,
            MediaAction::MoveDown => 3,
            MediaAction::PageUp => 4,
            MediaAction::PageDown => 5,
            MediaAction::Home => 6,
            MediaAction::End => 7,
            MediaAction::FolderUp => 8,
            MediaAction::FolderEnter => 9,
            MediaAction::FolderPrevSibling => 10,
            MediaAction::FolderNextSibling => 11,
            MediaAction::ToggleFolderNavigator => 12,
            MediaAction::OpenFile => 13,
            MediaAction::OpenLocation => 14,
            MediaAction::ToggleSelect => 15,
            MediaAction::SelectAll => 16,
            MediaAction::SelectNone => 17,
            MediaAction::InvertSelection => 18,
            MediaAction::Delete => 19,
            MediaAction::DeletePermanent => 20,
            MediaAction::Copy => 21,
            MediaAction::Cut => 22,
            MediaAction::Paste => 23,
            MediaAction::Rename => 24,
            MediaAction::ToggleFavoritesPanel => 25,
            MediaAction::TogglePointerMode => 26,
            MediaAction::ToggleSettingsPanel => 27,
            MediaAction::ToggleViewMode => 28,
            MediaAction::ToggleChromeHide => 29,
            MediaAction::ThumbZoomIn => 30,
            MediaAction::ThumbZoomOut => 31,
            MediaAction::FocusSearch => 32,
            MediaAction::Refresh => 33,
            MediaAction::VideoSeekBack => 34,
            MediaAction::VideoSeekForward => 35,
            MediaAction::VideoVolumeDown => 36,
            MediaAction::VideoVolumeUp => 37,
        }
    }

    pub fn index(self) -> (r: usize)
        ensures
            r == self.place(),
            r < ACTION_COUNT,
    {
        match self {
            MediaAction::MoveLeft => 0,
            MediaAction::MoveRight => 1,
            MediaAction::MoveUp => 2,
            MediaAction::MoveDown => 3,
            MediaAction::PageUp => 4,
            MediaAction::PageDown => 5,
            MediaAction::Home => 6,
            MediaAction::End => 7,
            MediaAction::FolderUp => 8,
            MediaAction::FolderEnter => 9,
            MediaAction::FolderPrevSibling => 10,
            MediaAction::FolderNextSibling => 11,
            MediaAction::ToggleFolderNavigator => 12,
            MediaAction::OpenFile => 13,
            MediaAction::OpenLocation => 14,
            MediaAction::ToggleSelect => 15,
            MediaAction::SelectAll => 16,
            MediaAction::SelectNone => 17,
            MediaAction::InvertSelection => 18,
            MediaAction::Delete => 19,
            MediaAction::DeletePermanent => 20,
            MediaAction::Copy => 21,
            MediaAction::Cut => 22,
            MediaAction::Paste => 23,
            MediaAction::Rename => 24,
            MediaAction::ToggleFavoritesPanel => 25,
            MediaAction::TogglePointerMode => 26,
            MediaAction::ToggleSettingsPanel => 27,
            MediaAction::ToggleViewMode => 28,
            MediaAction::ToggleChromeHide => 29,
            MediaAction::ThumbZoomIn => 30,
            MediaAction::ThumbZoomOut => 31,
            MediaAction::FocusSearch => 32,
            MediaAction::Refresh => 33,
            MediaAction::VideoSeekBack => 34,
            MediaAction::VideoSeekForward => 35,
            MediaAction::VideoVolumeDown => 36,
            MediaAction::VideoVolumeUp => 37,
        }
    }

    /// All actions, in order.
    pub fn all() -> (r: Vec<MediaAction>)
        ensures
            r@.len() == ACTION_COUNT,
            forall|i: int| 0 <= i < r@.len() ==> (#[trigger] r@[i]).place() == i,
    {
        vec![
            MediaAction::MoveLeft,
            MediaAction::MoveRight,
            MediaAction::MoveUp,
            MediaAction::MoveDown,
            MediaAction::PageUp,
            MediaAction::PageDown,
            MediaAction::Home,
            MediaAction::End,
            MediaAction::FolderUp,
            MediaAction::FolderEnter,
            MediaAction::FolderPrevSibling,
            MediaAction::FolderNextSibling,
            MediaAction::ToggleFolderNavigator,
            MediaAction::OpenFile,
            MediaAction::OpenLocation,
            MediaAction::ToggleSelect,
            MediaAction::SelectAll,
            MediaAction::SelectNone,
            MediaAction::InvertSelection,
            MediaAction::Delete,
            MediaAction::DeletePermanent,
            MediaAction::Copy,
            MediaAction::Cut,
            MediaAction::Paste,
            MediaAction::Rename,
            MediaAction::ToggleFavoritesPanel,
            MediaAction::TogglePointerMode,
            MediaAction::ToggleSettingsPanel,
            MediaAction::ToggleViewMode,
            MediaAction::ToggleChromeHide,
            MediaAction::ThumbZoomIn,
            MediaAction::ThumbZoomOut,
            MediaAction::FocusSearch,
            MediaAction::Refresh,
            MediaAction::VideoSeekBack,
            MediaAction::VideoSeekForward,
            MediaAction::VideoVolumeDown,
            MediaAction::VideoVolumeUp,
        ]
    }

    pub open spec fn name(self) -> Seq<char> {
        match self {
            MediaAction::MoveLeft => "Move left"@,
            MediaAction::MoveRight => "Move right"@,
            MediaAction::MoveUp => "Move up"@,
            MediaAction::MoveDown => "Move down"@,
            MediaAction::PageUp => "Page up"@,
            MediaAction::PageDown => "Page down"@,
            MediaAction::Home => "First item"@,
            MediaAction::End => "Last item"@,
            MediaAction::FolderUp => "Parent folder"@,
            MediaAction::FolderEnter => "Enter first subfolder"@,
            MediaAction::FolderPrevSibling => "Previous sibling folder"@,
            MediaAction::FolderNextSibling => "Next sibling folder"@,
            MediaAction::ToggleFolderNavigator => "Large folder navigator"@,
            MediaAction::OpenFile => "Open file"@,
            MediaAction::OpenLocation => "Open file location"@,
            MediaAction::ToggleSelect => "Toggle selection"@,
            MediaAction::SelectAll => "Select all"@,
            MediaAction::SelectNone => "Select none"@,
            MediaAction::InvertSelection => "Invert selection"@,
            MediaAction::Delete => "Delete"@,
            MediaAction::DeletePermanent => "Delete permanently"@,
            MediaAction::Copy => "Copy"@,
            MediaAction::Cut => "Cut"@,
            MediaAction::Paste => "Paste"@,
            MediaAction::Rename => "Rename"@,
            MediaAction::ToggleFavoritesPanel => "Favorites panel"@,
            MediaAction::TogglePointerMode => "Controller cursor mode"@,
            MediaAction::ToggleSettingsPanel => "Settings panel"@,
            MediaAction::ToggleViewMode => "Toggle view mode"@,
            MediaAction::ToggleChromeHide => "Fullscreen"@,
            MediaAction::ThumbZoomIn => "Zoom thumbnails in"@,
            MediaAction::ThumbZoomOut => "Zoom thumbnails out"@,
            MediaAction::FocusSearch => "Focus search"@,
            MediaAction::Refresh => "Refresh folder"@,
            MediaAction::VideoSeekBack => "Video seek back 10s"@,
            MediaAction::VideoSeekForward => "Video seek forward 10s"@,
            MediaAction::VideoVolumeDown => "Video volume down"@,
            MediaAction::VideoVolumeUp => "Video volume up"@,
        }
    }

    pub fn label(self) -> (r: &'static str)
        ensures
            r@ == self.name(),
    {
        match self {
            MediaAction::MoveLeft => "Move left",
            MediaAction::MoveRight => "Move right",
            MediaAction::MoveUp => "Move up",
            MediaAction::MoveDown => "Move down",
            MediaAction::PageUp => "Page up",
            MediaAction::PageDown => "Page down",
            MediaAction::Home => "First item",
            MediaAction::End => "Last item",
            MediaAction::FolderUp => "Parent folder",
            MediaAction::FolderEnter => "Enter first subfolder",
            MediaAction::FolderPrevSibling => "Previous sibling folder",
            MediaAction::FolderNextSibling => "Next sibling folder",
            MediaAction::ToggleFolderNavigator => "Large folder navigator",
            MediaAction::OpenFile => "Open file",
            MediaAction::OpenLocation => "Open file location",
            MediaAction::ToggleSelect => "Toggle selection",
            MediaAction::SelectAll => "Select all",
            MediaAction::SelectNone => "Select none",
            MediaAction::InvertSelection => "Invert selection",
            MediaAction::Delete => "Delete",
            MediaAction::DeletePermanent => "Delete permanently",
            MediaAction::Copy => "Copy",
            MediaAction::Cut => "Cut",
            MediaAction::Paste => "Paste",
            MediaAction::Rename => "Rename",
            MediaAction::ToggleFavoritesPanel => "Favorites panel",
            MediaAction::TogglePointerMode => "Controller cursor mode",
            MediaAction::ToggleSettingsPanel => "Settings panel",
            MediaAction::ToggleViewMode => "Toggle view mode",
            MediaAction::ToggleChromeHide => "Fullscreen",
            MediaAction::ThumbZoomIn => "Zoom thumbnails in",
            MediaAction::ThumbZoomOut => "Zoom thumbnails out",
            MediaAction::FocusSearch => "Focus search",
            MediaAction::Refresh => "Refresh folder",
            MediaAction::VideoSeekBack => "Video seek back 10s",
            MediaAction::VideoSeekForward => "Video seek forward 10s",
            MediaAction::VideoVolumeDown => "Video volume down",
            MediaAction::VideoVolumeUp => "Video volume up",
        }
    }

    pub open spec fn is_repeated(self) -> bool {
            ||| self == MediaAction::MoveLeft
            ||| self == MediaAction::MoveRight
            ||| self == MediaAction::MoveUp
            ||| self == MediaAction::MoveDown
            ||| self == MediaAction::PageUp
            ||| self == MediaAction::PageDown
            ||| self == MediaAction::ThumbZoomIn
            ||| self == MediaAction::ThumbZoomOut
    }

    /// Whether the action repeats while its input is held.
    pub fn repeats(self) -> (r: bool)
        ensures
            r == self.is_repeated(),
    {
        matches!(
            self,
            MediaAction::MoveLeft
            | MediaAction::MoveRight
            | MediaAction::MoveUp
            | MediaAction::MoveDown
            | MediaAction::PageUp
            | MediaAction::PageDown
            | MediaAction::ThumbZoomIn
            | MediaAction::ThumbZoomOut
        )
    }
}

/// Two actions at one place are the same.
pub proof fn places_are_distinct(a: MediaAction, b: MediaAction)
    ensures
        a.place() == b.place() ==> a == b,
        0 <= a.place() < ACTION_COUNT,
{
}

/// A key with its modifiers.
#[derive(PartialEq, Eq, Hash, Debug)]
pub struct KeyChord {
    pub key: String,
    pub ctrl: bool,
    pub shift: bool,
    pub alt: bool,
}

#[verifier::ext_equal]
pub ghost struct ChordModel {
    pub key: Seq<char>,
    pub ctrl: bool,
    pub shift: bool,
    pub alt: bool,
}

impl View for KeyChord {
    type V = ChordModel;

    open spec fn view(&self) -> ChordModel {
        ChordModel { key: self.key@, ctrl: self.ctrl, shift: self.shift, alt: self.alt }
    }
}

impl Clone for KeyChord {
    fn clone(&self) -> (r: Self)
        ensures
            r@ == self@,
    {
        KeyChord { key: self.key.clone(), ctrl: self.ctrl, shift: self.shift, alt: self.alt }
    }
}

pub open spec fn chord(key: Seq<char>, ctrl: bool, shift: bool, alt: bool) -> ChordModel {
    ChordModel { key, ctrl, shift, alt }
}

pub open spec fn text_if(given: bool, text: Seq<char>) -> Seq<char> {
    if given {
        text
    } else {
        Seq::empty()
    }
}

impl KeyChord {
    pub fn new(key: &str, ctrl: bool, shift: bool, alt: bool) -> (r: Self)
        ensures
            r@ == chord(key@, ctrl, shift, alt),
    {
        KeyChord { key: key.to_owned(), ctrl, shift, alt }
    }

    pub fn same(&self, other: &KeyChord) -> (r: bool)
        ensures
            r == (self@ == other@),
    {
        str_eq(self.key.as_str(), other.key.as_str()) && self.ctrl == other.ctrl && self.shift
            == other.shift && self.alt == other.alt
    }

    /// The chord as it is shown: the modifiers, then the key.
    pub fn display(&self) -> (r: String)
        ensures
            r@ == text_if(self.ctrl, "Ctrl+"@) + text_if(self.shift, "Shift+"@) + text_if(
                self.alt,
                "Alt+"@,
            ) + self.key@,
    {
        let mut s = String::new();
        assert(s@ =~= Seq::<char>::empty());
        if self.ctrl {
            s.append("Ctrl+");
        }
        assert(s@ =~= text_if(self.ctrl, "Ctrl+"@));
        if self.shift {
            s.append("Shift+");
        }
        assert(s@ =~= text_if(self.ctrl, "Ctrl+"@) + text_if(self.shift, "Shift+"@));
        if self.alt {
            s.append("Alt+");
        }
        assert(s@ =~= text_if(self.ctrl, "Ctrl+"@) + text_if(self.shift, "Shift+"@) + text_if(
            self.alt,
            "Alt+"@,
        ));
        s.append(self.key.as_str());
        s
    }
}

#[derive(Clone, Copy, PartialEq, Eq, Hash, Debug, Structural)]
pub enum PadButtonCode {
    South,
    East,
    North,
    West,
    LeftBumper,
    RightBumper,
    LeftTrigger,
    RightTrigger,
    Select,
    Start,
    LeftThumb,
    RightThumb,
    DPadUp,
    DPadDown,
    DPadLeft,
    DPadRight,
}

#[derive(Clone, Copy, PartialEq, Eq, Hash, Debug, Structural)]
pub enum PadAxisCode {
    LeftStickX,
    LeftStickY,
    RightStickX,
    RightStickY,
}

/// A controller input: a button, or a direction of an axis.
#[derive(Clone, Copy, PartialEq, Eq, Hash, Debug, Structural)]
pub enum PadInput {
    Button(PadButtonCode),
    AxisPos(PadAxisCode),
    AxisNeg(PadAxisCode),
}

impl PadButtonCode {
    pub open spec fn place(self) -> int {
        match self {
            PadButtonCode::South => 0,
            PadButtonCode::East => 1,
            PadButtonCode::North => 2,
            PadButtonCode::West => 3,
            PadButtonCode::LeftBumper => 4,
            PadButtonCode::RightBumper => 5,
            PadButtonCode::LeftTrigger => 6,
            PadButtonCode::RightTrigger => 7,
            PadButtonCode::Select => 8,
            PadButtonCode::Start => 9,
            PadButtonCode::LeftThumb => 10,
            PadButtonCode::RightThumb => 11,
            PadButtonCode::DPadUp => 12,
            PadButtonCode::DPadDown => 13,
            PadButtonCode::DPadLeft => 14,
            PadButtonCode::DPadRight => 15,
        }
    }

    pub fn index(self) -> (r: usize)
        ensures
            r == self.place(),
            r < 16,
    {
        match self {
            PadButtonCode::South => 0,
            PadButtonCode::East => 1,
            PadButtonCode::North => 2,
            PadButtonCode::West => 3,
            PadButtonCode::LeftBumper => 4,
            PadButtonCode::RightBumper => 5,
            PadButtonCode::LeftTrigger => 6,
            PadButtonCode::RightTrigger => 7,
            PadButtonCode::Select => 8,
            PadButtonCode::Start => 9,
            PadButtonCode::LeftThumb => 10,
            PadButtonCode::RightThumb => 11,
            PadButtonCode::DPadUp => 12,
            PadButtonCode::DPadDown => 13,
            PadButtonCode::DPadLeft => 14,
            PadButtonCode::DPadRight => 15,
        }
    }

    /// All buttons, in order.
    pub fn all() -> (r: Vec<PadButtonCode>)
        ensures
            r@.len() == 16,
            forall|i: int| 0 <= i < r@.len() ==> (#[trigger] r@[i]).place() == i,
    {
        vec![
            PadButtonCode::South,
            PadButtonCode::East,
            PadButtonCode::North,
            PadButtonCode::West,
            PadButtonCode::LeftBumper,
            PadButtonCode::RightBumper,
            PadButtonCode::LeftTrigger,
            PadButtonCode::RightTrigger,
            PadButtonCode::Select,
            PadButtonCode::Start,
            PadButtonCode::LeftThumb,
            PadButtonCode::RightThumb,
            PadButtonCode::DPadUp,
            PadButtonCode::DPadDown,
            PadButtonCode::DPadLeft,
            PadButtonCode::DPadRight,
        ]
    }

    pub open spec fn name(self) -> Seq<char> {
        match self {
            PadButtonCode::South => "A / Cross"@,
            PadButtonCode::East => "B / Circle"@,
            PadButtonCode::North => "Y / Triangle"@,
            PadButtonCode::West => "X / Square"@,
            PadButtonCode::LeftBumper => "LB"@,
            PadButtonCode::RightBumper => "RB"@,
            PadButtonCode::LeftTrigger => "LT"@,
            PadButtonCode::RightTrigger => "RT"@,
            PadButtonCode::Select => "Select / Back"@,
            PadButtonCode::Start => "Start / Menu"@,
            PadButtonCode::LeftThumb => "L3"@,
            PadButtonCode::RightThumb => "R3"@,
            PadButtonCode::DPadUp => "D-pad up"@,
            PadButtonCode::DPadDown => "D-pad down"@,
            PadButtonCode::DPadLeft => "D-pad left"@,
            PadButtonCode::DPadRight => "D-pad right"@,
        }
    }

    pub fn label(self) -> (r: &'static str)
        ensures
            r@ == self.name(),
    {
        match self {
            PadButtonCode::South => "A / Cross",
            PadButtonCode::East => "B / Circle",
            PadButtonCode::North => "Y / Triangle",
            PadButtonCode::West => "X / Square",
            PadButtonCode::LeftBumper => "LB",
            PadButtonCode::RightBumper => "RB",
            PadButtonCode::LeftTrigger => "LT",
            PadButtonCode::RightTrigger => "RT",
            PadButtonCode::Select => "Select / Back",
            PadButtonCode::Start => "Start / Menu",
            PadButtonCode::LeftThumb => "L3",
            PadButtonCode::RightThumb => "R3",
            PadButtonCode::DPadUp => "D-pad up",
            PadButtonCode::DPadDown => "D-pad down",
            PadButtonCode::DPadLeft => "D-pad left",
            PadButtonCode::DPadRight => "D-pad right",
        }
    }
}

impl PadAxisCode {
    pub open spec fn place(self) -> int {
        match self {
            PadAxisCode::LeftStickX => 0,
            PadAxisCode::LeftStickY => 1,
            PadAxisCode::RightStickX => 2,
            PadAxisCode::RightStickY => 3,
        }
    }

    pub fn index(self) -> (r: usize)
        ensures
            r == self.place(),
            r < 4,
    {
        match self {
            PadAxisCode::LeftStickX => 0,
            PadAxisCode::LeftStickY => 1,
            PadAxisCode::RightStickX => 2,
            PadAxisCode::RightStickY => 3,
        }
    }

    pub open spec fn name(self) -> Seq<char> {
        match self {
            PadAxisCode::LeftStickX => "LeftStickX"@,
            PadAxisCode::LeftStickY => "LeftStickY"@,
            PadAxisCode::RightStickX => "RightStickX"@,
            PadAxisCode::RightStickY => "RightStickY"@,
        }
    }

    pub fn label(self) -> (r: &'static str)
        ensures
            r@ == self.name(),
    {
        match self {
            PadAxisCode::LeftStickX => "LeftStickX",
            PadAxisCode::LeftStickY => "LeftStickY",
            PadAxisCode::RightStickX => "RightStickX",
            PadAxisCode::RightStickY => "RightStickY",
        }
    }
}

/// How many controller inputs there are.
pub const PAD_INPUT_COUNT: usize = 24;

impl PadInput {
    pub open spec fn place(self) -> int {
        match self {
            PadInput::Button(b) => b.place(),
            PadInput::AxisPos(a) => 16 + a.place(),
            PadInput::AxisNeg(a) => 20 + a.place(),
        }
    }

    pub fn index(self) -> (r: usize)
        ensures
            r == self.place(),
            r < PAD_INPUT_COUNT,
    {
        match self {
            PadInput::Button(b) => b.index(),
            PadInput::AxisPos(a) => 16 + a.index(),
            PadInput::AxisNeg(a) => 20 + a.index(),
        }
    }

    /// The input as it is shown.
    pub fn display(&self) -> (r: String)
        ensures
            r@ == match *self {
                PadInput::Button(b) => b.name(),
                PadInput::AxisPos(a) => a.name() + "+"@,
                PadInput::AxisNeg(a) => a.name() + "-"@,
            },
    {
        match self {
            PadInput::Button(b) => b.label().to_owned(),
            PadInput::AxisPos(a) => cat(a.label(), "+"),
            PadInput::AxisNeg(a) => cat(a.label(), "-"),
        }
    }
}

pub proof fn input_places_are_distinct(a: PadInput, b: PadInput)
    ensures
        a.place() == b.place() ==> a == b,
        0 <= a.place() < PAD_INPUT_COUNT,
{
}

/// A value for some of the actions.
#[derive(PartialEq, Eq, Debug)]
pub struct ActionMap<V> {
    cells: Vec<Option<V>>,
}

impl<V> View for ActionMap<V> {
    type V = Map<MediaAction, V>;

    closed spec fn view(&self) -> Map<MediaAction, V> {
        cells_map(self.cells@)
    }
}

pub open spec fn cells_map<V>(cells: Seq<Option<V>>) -> Map<MediaAction, V> {
    Map::new(|a: MediaAction| cells[a.place()] is Some, |a: MediaAction| cells[a.place()]->0)
}

impl<V> ActionMap<V> {
    #[verifier::type_invariant]
    spec fn has_all_cells(self) -> bool {
        self.cells@.len() == ACTION_COUNT
    }

    pub fn new() -> (r: Self)
        ensures
            r@ == Map::<MediaAction, V>::empty(),
    {
        let mut cells: Vec<Option<V>> = Vec::new();
        let mut i: usize = 0;
        while i < ACTION_COUNT
            invariant
                i <= ACTION_COUNT,
                cells@.len() == i,
                forall|j: int| 0 <= j < i ==> #[trigger] cells@[j] is None,
            decreases ACTION_COUNT - i,
        {
            cells.push(None);
            i += 1;
        }
        proof {
            assert forall|a: MediaAction| cells@[a.place()] is None by {
                places_are_distinct(a, a);
            }
            assert(cells_map(cells@) =~= Map::<MediaAction, V>::empty());
        }
        ActionMap { cells }
    }

    pub fn contains_key(&self, action: &MediaAction) -> (r: bool)
        ensures
            r == self@.contains_key(*action),
    {
        proof {
            use_type_invariant(self);
        }
        self.cells[action.index()].is_some()
    }

    pub fn get(&self, action: &MediaAction) -> (r: Option<&V>)
        ensures
            match r {
                Some(v) => self@.contains_key(*action) && *v == self@[*action],
                None => !self@.contains_key(*action),
            },
    {
        proof {
            use_type_invariant(self);
        }
        match &self.cells[action.index()] {
            Some(v) => Some(v),
            None => None,
        }
    }

    fn set_cell(&mut self, action: MediaAction, value: Option<V>)
        ensures
            final(self)@ == match value {
                Some(v) => old(self)@.insert(action, v),
                None => old(self)@.remove(action),
            },
    {
        proof {
            use_type_invariant(&*self);
        }
        let mut other = ActionMap::<V>::new();
        std::mem::swap(self, &mut other);
        proof {
            use_type_invariant(&other);
        }
        let mut cells = other.cells;
        let ghost before = cells@;
        cells.set(action.index(), value);
        proof {
            assert forall|a: MediaAction| a != action implies #[trigger] cells@[a.place()]
                == before[a.place()] by {
                places_are_distinct(a, action);
            }
            places_are_distinct(action, action);
            if value is Some {
                assert(cells_map(cells@) =~= cells_map(before).insert(action, value->0));
            } else {
                assert(cells_map(cells@) =~= cells_map(before).remove(action));
            }
        }
        *self = ActionMap { cells };
    }

    pub fn insert(&mut self, action: MediaAction, value: V)
        ensures
            final(self)@ == old(self)@.insert(action, value),
    {
        self.set_cell(action, Some(value));
    }

    pub fn remove(&mut self, action: &MediaAction)
        ensures
            final(self)@ == old(self)@.remove(*action),
    {
        self.set_cell(*action, None);
    }
}

pub open spec fn chords_of(m: Map<MediaAction, KeyChord>) -> Map<MediaAction, ChordModel> {
    m.map_values(|c: KeyChord| c@)
}

/// For each action a key chord and a controller input, as far as it has them.
#[derive(Debug)]
pub struct BindingTable {
    pub version: u32,
    pub keyboard: ActionMap<KeyChord>,
    pub pad: ActionMap<PadInput>,
}

/// The key chord that an action has from the start.
pub open spec fn default_chord(a: MediaAction) -> ChordModel {
    match a {
        MediaAction::MoveLeft => chord("ArrowLeft"@, false, false, false),
        MediaAction::MoveRight => chord("ArrowRight"@, false, false, false),
        MediaAction::MoveUp => chord("ArrowUp"@, false, false, false),
        MediaAction::MoveDown => chord("ArrowDown"@, false, false, false),
        MediaAction::PageUp => chord("PageUp"@, false, false, false),
        MediaAction::PageDown => chord("PageDown"@, false, false, false),
        MediaAction::Home => chord("Home"@, false, false, false),
        MediaAction::End => chord("End"@, false, false, false),
        MediaAction::FolderUp => chord("Backspace"@, false, false, false),
        MediaAction::FolderEnter => chord("ArrowDown"@, false, false, true),
        MediaAction::FolderPrevSibling => chord("ArrowLeft"@, false, false, true),
        MediaAction::FolderNextSibling => chord("ArrowRight"@, false, false, true),
        MediaAction::ToggleFolderNavigator => chord("G"@, true, false, false),
        MediaAction::OpenFile => chord("Enter"@, false, false, false),
        MediaAction::OpenLocation => chord("L"@, true, false, false),
        MediaAction::ToggleSelect => chord("Space"@, false, false, false),
        MediaAction::SelectAll => chord("A"@, true, false, false),
        MediaAction::SelectNone => chord("A"@, true, true, false),
        MediaAction::InvertSelection => chord("I"@, true, false, false),
        MediaAction::Delete => chord("Delete"@, false, false, false),
        MediaAction::DeletePermanent => chord("Delete"@, false, true, false),
        MediaAction::Copy => chord("C"@, true, false, false),
        MediaAction::Cut => chord("X"@, true, false, false),
        MediaAction::Paste => chord("V"@, true, false, false),
        MediaAction::Rename => chord("F2"@, false, false, false),
        MediaAction::ToggleFavoritesPanel => chord("B"@, true, false, false),
        MediaAction::TogglePointerMode => chord("M"@, true, false, false),
        MediaAction::ToggleSettingsPanel => chord("P"@, true, false, false),
        MediaAction::ToggleViewMode => chord("Tab"@, false, false, false),
        MediaAction::ToggleChromeHide => chord("F"@, true, false, false),
        MediaAction::ThumbZoomIn => chord("Equals"@, true, false, false),
        MediaAction::ThumbZoomOut => chord("Minus"@, true, false, false),
        MediaAction::FocusSearch => chord("K"@, true, false, false),
        MediaAction::Refresh => chord("F5"@, false, false, false),
        MediaAction::VideoSeekBack => chord("J"@, false, false, false),
        MediaAction::VideoSeekForward => chord("L"@, false, false, false),
        MediaAction::VideoVolumeDown => chord("ArrowDown"@, true, false, false),
        MediaAction::VideoVolumeUp => chord("ArrowUp"@, true, false, false),
    }
}

/// The controller input that an action has from the start. The menu button stays free: with the
/// guide button it switches windows on the desktop.
pub open spec fn default_pad(a: MediaAction) -> Option<PadInput> {
    match a {
        MediaAction::MoveLeft => Some(PadInput::Button(PadButtonCode::DPadLeft)),
        MediaAction::MoveRight => Some(PadInput::Button(PadButtonCode::DPadRight)),
        MediaAction::MoveUp => Some(PadInput::Button(PadButtonCode::DPadUp)),
        MediaAction::MoveDown => Some(PadInput::Button(PadButtonCode::DPadDown)),
        MediaAction::FolderUp => Some(PadInput::Button(PadButtonCode::East)),
        MediaAction::FolderPrevSibling => Some(PadInput::Button(PadButtonCode::LeftBumper)),
        MediaAction::FolderNextSibling => Some(PadInput::Button(PadButtonCode::RightBumper)),
        MediaAction::ToggleFolderNavigator => Some(PadInput::Button(PadButtonCode::Select)),
        MediaAction::OpenFile => Some(PadInput::Button(PadButtonCode::South)),
        MediaAction::ToggleSelect => Some(PadInput::Button(PadButtonCode::West)),
        MediaAction::TogglePointerMode => Some(PadInput::Button(PadButtonCode::RightThumb)),
        MediaAction::ToggleViewMode => Some(PadInput::Button(PadButtonCode::North)),
        MediaAction::ToggleChromeHide => Some(PadInput::Button(PadButtonCode::LeftThumb)),
        MediaAction::ThumbZoomIn => Some(PadInput::Button(PadButtonCode::RightTrigger)),
        MediaAction::ThumbZoomOut => Some(PadInput::Button(PadButtonCode::LeftTrigger)),
        MediaAction::FocusSearch => Some(PadInput::AxisPos(PadAxisCode::LeftStickX)),
        MediaAction::VideoSeekBack => Some(PadInput::AxisNeg(PadAxisCode::RightStickX)),
        MediaAction::VideoSeekForward => Some(PadInput::AxisPos(PadAxisCode::RightStickX)),
        MediaAction::VideoVolumeDown => Some(PadInput::AxisNeg(PadAxisCode::RightStickY)),
        MediaAction::VideoVolumeUp => Some(PadInput::AxisPos(PadAxisCode::RightStickY)),
        _ => None,
    }
}

fn initial_chord(a: MediaAction) -> (r: KeyChord)
    ensures
        r@ == default_chord(a),
{
    match a {
        MediaAction::MoveLeft => KeyChord::new("ArrowLeft", false, false, false),
        MediaAction::MoveRight => KeyChord::new("ArrowRight", false, false, false),
        MediaAction::MoveUp => KeyChord::new("ArrowUp", false, false, false),
        MediaAction::MoveDown => KeyChord::new("ArrowDown", false, false, false),
        MediaAction::PageUp => KeyChord::new("PageUp", false, false, false),
        MediaAction::PageDown => KeyChord::new("PageDown", false, false, false),
        MediaAction::Home => KeyChord::new("Home", false, false, false),
        MediaAction::End => KeyChord::new("End", false, false, false),
        MediaAction::FolderUp => KeyChord::new("Backspace", false, false, false),
        MediaAction::FolderEnter => KeyChord::new("ArrowDown", false, false, true),
        MediaAction::FolderPrevSibling => KeyChord::new("ArrowLeft", false, false, true),
        MediaAction::FolderNextSibling => KeyChord::new("ArrowRight", false, false, true),
        MediaAction::ToggleFolderNavigator => KeyChord::new("G", true, false, false),
        MediaAction::OpenFile => KeyChord::new("Enter", false, false, false),
        MediaAction::OpenLocation => KeyChord::new("L", true, false, false),
        MediaAction::ToggleSelect => KeyChord::new("Space", false, false, false),
        MediaAction::SelectAll => KeyChord::new("A", true, false, false),
        MediaAction::SelectNone => KeyChord::new("A", true, true, false),
        MediaAction::InvertSelection => KeyChord::new("I", true, false, false),
        MediaAction::Delete => KeyChord::new("Delete", false, false, false),
        MediaAction::DeletePermanent => KeyChord::new("Delete", false, true, false),
        MediaAction::Copy => KeyChord::new("C", true, false, false),
        MediaAction::Cut => KeyChord::new("X", true, false, false),
        MediaAction::Paste => KeyChord::new("V", true, false, false),
        MediaAction::Rename => KeyChord::new("F2", false, false, false),
        MediaAction::ToggleFavoritesPanel => KeyChord::new("B", true, false, false),
        MediaAction::TogglePointerMode => KeyChord::new("M", true, false, false),
        MediaAction::ToggleSettingsPanel => KeyChord::new("P", true, false, false),
        MediaAction::ToggleViewMode => KeyChord::new("Tab", false, false, false),
        MediaAction::ToggleChromeHide => KeyChord::new("F", true, false, false),
        MediaAction::ThumbZoomIn => KeyChord::new("Equals", true, false, false),
        MediaAction::ThumbZoomOut => KeyChord::new("Minus", true, false, false),
        MediaAction::FocusSearch => KeyChord::new("K", true, false, false),
        MediaAction::Refresh => KeyChord::new("F5", false, false, false),
        MediaAction::VideoSeekBack => KeyChord::new("J", false, false, false),
        MediaAction::VideoSeekForward => KeyChord::new("L", false, false, false),
        MediaAction::VideoVolumeDown => KeyChord::new("ArrowDown", true, false, false),
        MediaAction::VideoVolumeUp => KeyChord::new("ArrowUp", true, false, false),
    }
}

fn initial_pad(a: MediaAction) -> (r: Option<PadInput>)
    ensures
        r == default_pad(a),
{
    match a {
        MediaAction::MoveLeft => Some(PadInput::Button(PadButtonCode::DPadLeft)),
        MediaAction::MoveRight => Some(PadInput::Button(PadButtonCode::DPadRight)),
        MediaAction::MoveUp => Some(PadInput::Button(PadButtonCode::DPadUp)),
        MediaAction::MoveDown => Some(PadInput::Button(PadButtonCode::DPadDown)),
        MediaAction::FolderUp => Some(PadInput::Button(PadButtonCode::East)),
        MediaAction::FolderPrevSibling => Some(PadInput::Button(PadButtonCode::LeftBumper)),
        MediaAction::FolderNextSibling => Some(PadInput::Button(PadButtonCode::RightBumper)),
        MediaAction::ToggleFolderNavigator => Some(PadInput::Button(PadButtonCode::Select)),
        MediaAction::OpenFile => Some(PadInput::Button(PadButtonCode::South)),
        MediaAction::ToggleSelect => Some(PadInput::Button(PadButtonCode::West)),
        MediaAction::TogglePointerMode => Some(PadInput::Button(PadButtonCode::RightThumb)),
        MediaAction::ToggleViewMode => Some(PadInput::Button(PadButtonCode::North)),
        MediaAction::ToggleChromeHide => Some(PadInput::Button(PadButtonCode::LeftThumb)),
        MediaAction::ThumbZoomIn => Some(PadInput::Button(PadButtonCode::RightTrigger)),
        MediaAction::ThumbZoomOut => Some(PadInput::Button(PadButtonCode::LeftTrigger)),
        MediaAction::FocusSearch => Some(PadInput::AxisPos(PadAxisCode::LeftStickX)),
        MediaAction::VideoSeekBack => Some(PadInput::AxisNeg(PadAxisCode::RightStickX)),
        MediaAction::VideoSeekForward => Some(PadInput::AxisPos(PadAxisCode::RightStickX)),
        MediaAction::VideoVolumeDown => Some(PadInput::AxisNeg(PadAxisCode::RightStickY)),
        MediaAction::VideoVolumeUp => Some(PadInput::AxisPos(PadAxisCode::RightStickY)),
        _ => None,
    }
}

pub open spec fn default_keyboard() -> Map<MediaAction, ChordModel> {
    Map::new(|a: MediaAction| true, |a: MediaAction| default_chord(a))
}

pub open spec fn default_pads() -> Map<MediaAction, PadInput> {
    Map::new(|a: MediaAction| default_pad(a) is Some, |a: MediaAction| default_pad(a)->0)
}

/// No controller input triggers two actions from the start.
pub proof fn default_pads_are_distinct(a: MediaAction, b: MediaAction)
    requires
        default_pad(a) is Some,
        default_pad(a) == default_pad(b),
    ensures
        a == b,
{
}

impl Default for BindingTable {
    fn default() -> (r: Self)
        ensures
            r.version == BINDINGS_VERSION,
            chords_of(r.keyboard@) == default_keyboard(),
            r.pad@ == default_pads(),
    {
        let all = MediaAction::all();
        let mut keyboard: ActionMap<KeyChord> = ActionMap::new();
        let mut pad: ActionMap<PadInput> = ActionMap::new();
        let mut i: usize = 0;
        while i < ACTION_COUNT
            invariant
                i <= ACTION_COUNT,
                all@.len() == ACTION_COUNT,
                forall|j: int| 0 <= j < all@.len() ==> (#[trigger] all@[j]).place() == j,
                forall|a: MediaAction| #[trigger] keyboard@.contains_key(a) <==> a.place() < i,
                forall|a: MediaAction| #[trigger]
                    keyboard@.contains_key(a) ==> keyboard@[a]@ == default_chord(a),
                forall|a: MediaAction| #[trigger]
                    pad@.contains_key(a) <==> a.place() < i && default_pad(a) is Some,
                forall|a: MediaAction| #[trigger]
                    pad@.contains_key(a) ==> Some(pad@[a]) == default_pad(a),
            decreases ACTION_COUNT - i,
        {
            let action = all[i];
            let ghost k0 = keyboard@;
            let ghost p0 = pad@;
            let first = initial_chord(action);
            keyboard.insert(action, first);
            if let Some(input) = initial_pad(action) {
                pad.insert(action, input);
            }
            proof {
                assert forall|a: MediaAction| #[trigger] keyboard@.contains_key(a) <==> a.place()
                    < i + 1 by {
                    places_are_distinct(a, action);
                    assert(k0.contains_key(a) <==> a.place() < i);
                }
                assert forall|a: MediaAction| #[trigger]
                    pad@.contains_key(a) <==> a.place() < i + 1 && default_pad(a) is Some by {
                    places_are_distinct(a, action);
                    assert(p0.contains_key(a) <==> a.place() < i && default_pad(a) is Some);
                }
                assert forall|a: MediaAction| #[trigger] keyboard@.contains_key(a) implies keyboard@[a]@
                    == default_chord(a) by {
                    if a != action {
                        assert(k0.contains_key(a));
                    }
                }
                assert forall|a: MediaAction| #[trigger] pad@.contains_key(a) implies Some(pad@[a])
                    == default_pad(a) by {
                    if a != action {
                        assert(p0.contains_key(a));
                    }
                }
            }
            i += 1;
        }
        proof {
            assert forall|a: MediaAction| #[trigger] keyboard@.contains_key(a) by {
                places_are_distinct(a, a);
            }
            assert(chords_of(keyboard@) =~= default_keyboard());
            assert forall|a: MediaAction| #[trigger] pad@.contains_key(a) <==> default_pads().contains_key(a) by {
                places_are_distinct(a, a);
            }
            assert(pad@ =~= default_pads());
        }
        BindingTable { version: BINDINGS_VERSION, keyboard, pad }
    }
}

/// Whether an action has exactly this chord.
pub open spec fn has_chord(
    keyboard: Map<MediaAction, ChordModel>,
    a: MediaAction,
    c: ChordModel,
) -> bool {
    keyboard.contains_key(a) && keyboard[a] == c
}

/// Whether an action has exactly this input.
pub open spec fn has_input(pad: Map<MediaAction, PadInput>, a: MediaAction, p: PadInput) -> bool {
    pad.contains_key(a) && pad[a] == p
}

/// Whether some action has this input.
pub open spec fn is_used(pad: Map<MediaAction, PadInput>, p: PadInput) -> bool {
    exists|a: MediaAction| #[trigger] pad.contains_key(a) && pad[a] == p
}

/// The first defaults had favorites on Ctrl+F and the full screen on F11; where both are as they
/// were, they become Ctrl+B and Ctrl+F.
pub open spec fn moved_favorites(k: Map<MediaAction, ChordModel>) -> Map<MediaAction, ChordModel> {
    if has_chord(k, MediaAction::ToggleFavoritesPanel, chord("F"@, true, false, false))
        && has_chord(k, MediaAction::ToggleChromeHide, chord("F11"@, false, false, false)) {
        k.insert(MediaAction::ToggleFavoritesPanel, chord("B"@, true, false, false)).insert(
            MediaAction::ToggleChromeHide,
            chord("F"@, true, false, false),
        )
    } else {
        k
    }
}

/// An input that was the default of one action and now belongs to another moves there.
pub open spec fn moved_input(
    pad: Map<MediaAction, PadInput>,
    from: MediaAction,
    to: MediaAction,
    p: PadInput,
) -> Map<MediaAction, PadInput> {
    if has_input(pad, from, p) {
        pad.remove(from).insert(to, p)
    } else {
        pad
    }
}

/// The default that put the settings on the menu button goes.
pub open spec fn freed_menu(pad: Map<MediaAction, PadInput>) -> Map<MediaAction, PadInput> {
    if has_input(pad, MediaAction::ToggleSettingsPanel, PadInput::Button(PadButtonCode::Start)) {
        pad.remove(MediaAction::ToggleSettingsPanel)
    } else {
        pad
    }
}

pub open spec fn migrated_keyboard(version: u32, k: Map<MediaAction, ChordModel>) -> Map<
    MediaAction,
    ChordModel,
> {
    if version < 2 {
        moved_favorites(k)
    } else {
        k
    }
}

pub open spec fn migrated_pad(version: u32, p: Map<MediaAction, PadInput>) -> Map<
    MediaAction,
    PadInput,
> {
    let p1 = if version < 3 {
        moved_input(
            p,
            MediaAction::OpenLocation,
            MediaAction::ToggleFolderNavigator,
            PadInput::Button(PadButtonCode::Select),
        )
    } else {
        p
    };
    let p2 = if version < 4 {
        freed_menu(p1)
    } else {
        p1
    };
    if version < 5 {
        moved_input(
            p2,
            MediaAction::ToggleFavoritesPanel,
            MediaAction::TogglePointerMode,
            PadInput::Button(PadButtonCode::RightThumb),
        )
    } else {
        p2
    }
}

/// Every action that has no chord gets the one that it has from the start.
pub open spec fn filled_keyboard(k: Map<MediaAction, ChordModel>) -> Map<MediaAction, ChordModel> {
    Map::new(
        |a: MediaAction| true,
        |a: MediaAction|
            if k.contains_key(a) {
                k[a]
            } else {
                default_chord(a)
            },
    )
}

/// Every action that has no input gets the one that it has from the start, unless that is used.
pub open spec fn filled_pad(p: Map<MediaAction, PadInput>) -> Map<MediaAction, PadInput> {
    Map::new(
        |a: MediaAction|
            p.contains_key(a) || (default_pad(a) is Some && !is_used(p, default_pad(a)->0)),
        |a: MediaAction|
            if p.contains_key(a) {
                p[a]
            } else {
                default_pad(a)->0
            },
    )
}

/// The places below `n` of the filled table, the rest as it was.
spec fn filled_below(p: Map<MediaAction, PadInput>, n: int) -> Map<MediaAction, PadInput> {
    Map::new(
        |a: MediaAction| p.contains_key(a) || (a.place() < n && filled_pad(p).contains_key(a)),
        |a: MediaAction| filled_pad(p)[a],
    )
}

proof fn lemma_used_below(p: Map<MediaAction, PadInput>, n: int, action: MediaAction)
    requires
        action.place() == n,
        default_pad(action) is Some,
    ensures
        is_used(filled_below(p, n), default_pad(action)->0) == is_used(p, default_pad(action)->0),
{
    let d = default_pad(action)->0;
    let q = filled_below(p, n);
    if is_used(p, d) {
        let a = choose|a: MediaAction| #[trigger] p.contains_key(a) && p[a] == d;
        assert(q.contains_key(a) && q[a] == d);
    }
    if is_used(q, d) {
        let a = choose|a: MediaAction| #[trigger] q.contains_key(a) && q[a] == d;
        if !p.contains_key(a) {
            assert(default_pad(a) == Some(d));
            default_pads_are_distinct(action, a);
        } else {
            assert(p[a] == d);
        }
    }
}

impl BindingTable {
    pub open spec fn chords(&self) -> Map<MediaAction, ChordModel> {
        chords_of(self.keyboard@)
    }

    fn has_exact_chord(&self, action: MediaAction, c: &KeyChord) -> (r: bool)
        ensures
            r == has_chord(self.chords(), action, c@),
    {
        match self.keyboard.get(&action) {
            Some(bound) => bound.same(c),
            None => false,
        }
    }

    fn has_exact_input(&self, action: MediaAction, p: PadInput) -> (r: bool)
        ensures
            r == has_input(self.pad@, action, p),
    {
        match self.pad.get(&action) {
            Some(bound) => *bound == p,
            None => false,
        }
    }

    /// The first action in order from place `from` on that has this input.
    fn first_with_input(&self, p: PadInput, except: Option<MediaAction>) -> (r: Option<MediaAction>)
        ensures
            match r {
                Some(a) => {
                    &&& has_input(self.pad@, a, p)
                    &&& except != Some(a)
                    &&& forall|b: MediaAction|
                        b.place() < a.place() && except != Some(b) ==> !#[trigger] has_input(
                            self.pad@,
                            b,
                            p,
                        )
                },
                None => forall|b: MediaAction|
                    except != Some(b) ==> !#[trigger] has_input(self.pad@, b, p),
            },
    {
        let all = MediaAction::all();
        let mut i: usize = 0;
        while i < ACTION_COUNT
            invariant
                i <= ACTION_COUNT,
                all@.len() == ACTION_COUNT,
                forall|j: int| 0 <= j < all@.len() ==> (#[trigger] all@[j]).place() == j,
                forall|b: MediaAction|
                    b.place() < i && except != Some(b) ==> !#[trigger] has_input(self.pad@, b, p),
            decreases ACTION_COUNT - i,
        {
            let action = all[i];
            if self.has_exact_input(action, p) && !(match except {
                Some(e) => e == action,
                None => false,
            }) {
                return Some(action);
            }
            proof {
                assert forall|b: MediaAction|
                    b.place() < i + 1 && except != Some(b) implies !#[trigger] has_input(
                    self.pad@,
                    b,
                    p,
                ) by {
                    places_are_distinct(b, action);
                }
            }
            i += 1;
        }
        proof {
            assert forall|b: MediaAction| except != Some(b) implies !#[trigger] has_input(
                self.pad@,
                b,
                p,
            ) by {
                places_are_distinct(b, b);
            }
        }
        None
    }

    fn first_with_chord(&self, c: &KeyChord, except: Option<MediaAction>) -> (r: Option<MediaAction>)
        ensures
            match r {
                Some(a) => {
                    &&& has_chord(self.chords(), a, c@)
                    &&& except != Some(a)
                    &&& forall|b: MediaAction|
                        b.place() < a.place() && except != Some(b) ==> !#[trigger] has_chord(
                            self.chords(),
                            b,
                            c@,
                        )
                },
                None => forall|b: MediaAction|
                    except != Some(b) ==> !#[trigger] has_chord(self.chords(), b, c@),
            },
    {
        let all = MediaAction::all();
        let mut i: usize = 0;
        while i < ACTION_COUNT
            invariant
                i <= ACTION_COUNT,
                all@.len() == ACTION_COUNT,
                forall|j: int| 0 <= j < all@.len() ==> (#[trigger] all@[j]).place() == j,
                forall|b: MediaAction|
                    b.place() < i && except != Some(b) ==> !#[trigger] has_chord(
                        self.chords(),
                        b,
                        c@,
                    ),
            decreases ACTION_COUNT - i,
        {
            let action = all[i];
            if self.has_exact_chord(action, c) && !(match except {
                Some(e) => e == action,
                None => false,
            }) {
                return Some(action);
            }
            proof {
                assert forall|b: MediaAction|
                    b.place() < i + 1 && except != Some(b) implies !#[trigger] has_chord(
                    self.chords(),
                    b,
                    c@,
                ) by {
                    places_are_distinct(b, action);
                }
            }
            i += 1;
        }
        proof {
            assert forall|b: MediaAction| except != Some(b) implies !#[trigger] has_chord(
                self.chords(),
                b,
                c@,
            ) by {
                places_are_distinct(b, b);
            }
        }
        None
    }

    fn bind_key(&mut self, action: MediaAction, c: KeyChord)
        ensures
            final(self).chords() == old(self).chords().insert(action, c@),
            final(self).pad == old(self).pad,
            final(self).version == old(self).version,
    {
        let ghost m = self.keyboard@;
        self.keyboard.insert(action, c);
        assert(chords_of(m.insert(action, c)) =~= chords_of(m).insert(action, c@));
    }

    /// Brings a stored table up to date: defaults that have moved since move, bindings that were
    /// chosen stay, and actions without a binding get their default. What cannot be read counts
    /// as the default table.
    pub fn from_stored(stored: Option<BindingTable>) -> (r: Self)
        ensures
            r.version == BINDINGS_VERSION,
            match stored {
                Some(t) => {
                    &&& r.chords() == filled_keyboard(migrated_keyboard(t.version, t.chords()))
                    &&& r.pad@ == filled_pad(migrated_pad(t.version, t.pad@))
                },
                None => r.chords() == default_keyboard() && r.pad@ == default_pads(),
            },
    {
        let mut t = match stored {
            Some(t) => t,
            None => return BindingTable::default(),
        };
        let ghost k0 = t.chords();
        let ghost p0 = t.pad@;
        let version: u32 = t.version;
        if version < 2 {
            let ctrl_f = KeyChord::new("F", true, false, false);
            let f11 = KeyChord::new("F11", false, false, false);
            if t.has_exact_chord(MediaAction::ToggleFavoritesPanel, &ctrl_f) && t.has_exact_chord(
                MediaAction::ToggleChromeHide,
                &f11,
            ) {
                t.bind_key(
                    MediaAction::ToggleFavoritesPanel,
                    KeyChord::new("B", true, false, false),
                );
                t.bind_key(MediaAction::ToggleChromeHide, ctrl_f);
            }
        }
        if version < 3 {
            let select = PadInput::Button(PadButtonCode::Select);
            if t.has_exact_input(MediaAction::OpenLocation, select) {
                t.pad.remove(&MediaAction::OpenLocation);
                t.pad.insert(MediaAction::ToggleFolderNavigator, select);
            }
        }
        if version < 4 {
            let start = PadInput::Button(PadButtonCode::Start);
            if t.has_exact_input(MediaAction::ToggleSettingsPanel, start) {
                t.pad.remove(&MediaAction::ToggleSettingsPanel);
            }
        }
        if version < 5 {
            let r3 = PadInput::Button(PadButtonCode::RightThumb);
            if t.has_exact_input(MediaAction::ToggleFavoritesPanel, r3) {
                t.pad.remove(&MediaAction::ToggleFavoritesPanel);
                t.pad.insert(MediaAction::TogglePointerMode, r3);
            }
        }
        let ghost k1 = t.chords();
        let ghost p1 = t.pad@;
        assert(k1 == migrated_keyboard(version, k0));
        assert(p1 == migrated_pad(version, p0));
        let all = MediaAction::all();
        let mut i: usize = 0;
        assert(t.pad@ =~= filled_below(p1, 0)) by {
            assert forall|a: MediaAction| a.place() >= 0 by {
                places_are_distinct(a, a);
            }
        }
        while i < ACTION_COUNT
            invariant
                i <= ACTION_COUNT,
                all@.len() == ACTION_COUNT,
                forall|j: int| 0 <= j < all@.len() ==> (#[trigger] all@[j]).place() == j,
                forall|a: MediaAction| #[trigger]
                    t.chords().contains_key(a) <==> k1.contains_key(a) || a.place() < i,
                forall|a: MediaAction| #[trigger]
                    t.chords().contains_key(a) ==> t.chords()[a] == filled_keyboard(k1)[a],
                t.pad@ == filled_below(p1, i as int),
            decreases ACTION_COUNT - i,
        {
            let action = all[i];
            let ghost before = t.chords();
            if !t.keyboard.contains_key(&action) {
                t.bind_key(action, initial_chord(action));
            }
            proof {
                assert forall|a: MediaAction| #[trigger]
                    t.chords().contains_key(a) <==> k1.contains_key(a) || a.place() < i + 1 by {
                    places_are_distinct(a, action);
                    assert(before.contains_key(a) <==> k1.contains_key(a) || a.place() < i);
                }
                assert forall|a: MediaAction| #[trigger]
                    t.chords().contains_key(a) implies t.chords()[a] == filled_keyboard(k1)[a] by {
                    if before.contains_key(a) {
                        assert(before[a] == filled_keyboard(k1)[a]);
                    }
                }
            }
            let ghost q = t.pad@;
            if let Some(d) = initial_pad(action) {
                let used = t.first_with_input(d, None);
                proof {
                    lemma_used_below(p1, i as int, action);
                    if let Some(a) = used {
                        assert(q.contains_key(a) && q[a] == d);
                    } else {
                        assert forall|a: MediaAction| !(#[trigger] q.contains_key(a) && q[a] == d) by {
                            assert(!has_input(q, a, d));
                        }
                    }
                    assert(used is Some == is_used(p1, d));
                }
                if used.is_none() && !t.pad.contains_key(&action) {
                    t.pad.insert(action, d);
                }
            }
            proof {
                assert forall|a: MediaAction| #[trigger]
                    t.pad@.contains_key(a) <==> filled_below(p1, i + 1).contains_key(a) by {
                    places_are_distinct(a, action);
                    assert(q.contains_key(a) <==> filled_below(p1, i as int).contains_key(a));
                }
                assert(t.pad@ =~= filled_below(p1, i + 1));
            }
            i += 1;
        }
        proof {
            assert forall|a: MediaAction| 0 <= #[trigger] a.place() < ACTION_COUNT by {
                places_are_distinct(a, a);
            }
            assert(t.chords() =~= filled_keyboard(k1));
            assert(t.pad@ =~= filled_pad(p1));
        }
        t.version = BINDINGS_VERSION;
        t
    }

    /// The first action that a chord triggers.
    pub fn action_for_chord(&self, chord: &KeyChord) -> (r: Option<MediaAction>)
        ensures
            match r {
                Some(a) => has_chord(self.chords(), a, chord@) && forall|b: MediaAction|
                    b.place() < a.place() ==> !#[trigger] has_chord(self.chords(), b, chord@),
                None => forall|b: MediaAction| !#[trigger] has_chord(self.chords(), b, chord@),
            },
    {
        self.first_with_chord(chord, None)
    }

    /// The first action that a controller input triggers.
    pub fn action_for_pad(&self, input: PadInput) -> (r: Option<MediaAction>)
        ensures
            match r {
                Some(a) => has_input(self.pad@, a, input) && forall|b: MediaAction|
                    b.place() < a.place() ==> !#[trigger] has_input(self.pad@, b, input),
                None => forall|b: MediaAction| !#[trigger] has_input(self.pad@, b, input),
            },
    {
        self.first_with_input(input, None)
    }

    /// The first other action that has the chord already.
    pub fn keyboard_conflict(&self, chord: &KeyChord, for_action: MediaAction) -> (r: Option<
        MediaAction,
    >)
        ensures
            match r {
                Some(a) => a != for_action && has_chord(self.chords(), a, chord@) && forall|
                    b: MediaAction,
                |
                    b != for_action && b.place() < a.place() ==> !#[trigger] has_chord(
                        self.chords(),
                        b,
                        chord@,
                    ),
                None => forall|b: MediaAction|
                    b != for_action ==> !#[trigger] has_chord(self.chords(), b, chord@),
            },
    {
        self.first_with_chord(chord, Some(for_action))
    }

    /// The first other action that has the input already.
    pub fn pad_conflict(&self, input: PadInput, for_action: MediaAction) -> (r: Option<MediaAction>)
        ensures
            match r {
                Some(a) => a != for_action && has_input(self.pad@, a, input) && forall|
                    b: MediaAction,
                |
                    b != for_action && b.place() < a.place() ==> !#[trigger] has_input(
                        self.pad@,
                        b,
                        input,
                    ),
                None => forall|b: MediaAction|
                    b != for_action ==> !#[trigger] has_input(self.pad@, b, input),
            },
    {
        self.first_with_input(input, Some(for_action))
    }

    /// Gives a chord to an action, and takes it from every other one that has it. Those keep no
    /// chord.
    pub fn rebind_keyboard(&mut self, action: MediaAction, chord: KeyChord)
        ensures
            final(self).version == old(self).version,
            final(self).pad == old(self).pad,
            final(self).chords() == rebound_chords(old(self).chords(), action, chord@),
    {
        let all = MediaAction::all();
        let n: usize = all.len();
        let mut i: usize = 0;
        let ghost before = self.chords();
        assert(before =~= without_chord(before, action, chord@, 0));
        while i < n
            invariant
                i <= n,
                n == all@.len(),
                n == ACTION_COUNT,
                forall|j: int| 0 <= j < n ==> (#[trigger] all@[j]).place() == j,
                before == old(self).chords(),
                self.version == old(self).version,
                self.pad == old(self).pad,
                self.chords() == without_chord(before, action, chord@, i as int),
            decreases n - i,
        {
            let other: MediaAction = all[i];
            let ghost m = self.keyboard@;
            if other != action && self.has_exact_chord(other, &chord) {
                self.keyboard.remove(&other);
                assert(chords_of(m.remove(other)) =~= chords_of(m).remove(other));
            }
            proof {
                assert forall|b: MediaAction| b.place() == i implies b == other by {
                    places_are_distinct(b, other);
                }
                assert(self.chords() =~= without_chord(before, action, chord@, i + 1));
            }
            i += 1;
        }
        proof {
            assert forall|b: MediaAction| b.place() < n by {
                places_are_distinct(b, b);
            }
            assert(self.chords().insert(action, chord@) =~= rebound_chords(
                before,
                action,
                chord@,
            ));
        }
        self.bind_key(action, chord);
    }

    /// Gives a controller input to an action, and takes it from every other one that has it.
    /// Those keep no input.
    pub fn rebind_pad(&mut self, action: MediaAction, input: PadInput)
        ensures
            final(self).version == old(self).version,
            final(self).keyboard == old(self).keyboard,
            final(self).pad@ == rebound_pad(old(self).pad@, action, input),
    {
        let all = MediaAction::all();
        let n: usize = all.len();
        let mut i: usize = 0;
        let ghost before = self.pad@;
        assert(before =~= without_input(before, action, input, 0));
        while i < n
            invariant
                i <= n,
                n == all@.len(),
                n == ACTION_COUNT,
                forall|j: int| 0 <= j < n ==> (#[trigger] all@[j]).place() == j,
                before == old(self).pad@,
                self.version == old(self).version,
                self.keyboard == old(self).keyboard,
                self.pad@ == without_input(before, action, input, i as int),
            decreases n - i,
        {
            let other: MediaAction = all[i];
            if other != action && self.has_exact_input(other, input) {
                self.pad.remove(&other);
            }
            proof {
                assert forall|b: MediaAction| b.place() == i implies b == other by {
                    places_are_distinct(b, other);
                }
                assert(self.pad@ =~= without_input(before, action, input, i + 1));
            }
            i += 1;
        }
        proof {
            assert forall|b: MediaAction| b.place() < n by {
                places_are_distinct(b, b);
            }
            assert(self.pad@.insert(action, input) =~= rebound_pad(before, action, input));
        }
        self.pad.insert(action, input);
    }
}

/// The chords without those of the first `n` actions, other than the given one, that are the given
/// chord.
spec fn without_chord(
    before: Map<MediaAction, ChordModel>,
    action: MediaAction,
    c: ChordModel,
    n: int,
) -> Map<MediaAction, ChordModel> {
    Map::new(
        |b: MediaAction|
            before.contains_key(b) && !(b != action && b.place() < n && has_chord(before, b, c)),
        |b: MediaAction| before[b],
    )
}

/// The inputs without those of the first `n` actions, other than the given one, that are the given
/// input.
spec fn without_input(
    before: Map<MediaAction, PadInput>,
    action: MediaAction,
    p: PadInput,
    n: int,
) -> Map<MediaAction, PadInput> {
    Map::new(
        |b: MediaAction|
            before.contains_key(b) && !(b != action && b.place() < n && has_input(before, b, p)),
        |b: MediaAction| before[b],
    )
}

/// What giving a chord to an action comes to: every other action that has it loses it.
pub open spec fn rebound_chords(
    before: Map<MediaAction, ChordModel>,
    action: MediaAction,
    c: ChordModel,
) -> Map<MediaAction, ChordModel> {
    Map::new(
        |b: MediaAction| before.contains_key(b) && !has_chord(before, b, c),
        |b: MediaAction| before[b],
    ).insert(action, c)
}

/// What giving an input to an action comes to: every other action that has it loses it.
pub open spec fn rebound_pad(
    before: Map<MediaAction, PadInput>,
    action: MediaAction,
    p: PadInput,
) -> Map<MediaAction, PadInput> {
    Map::new(
        |b: MediaAction| before.contains_key(b) && !has_input(before, b, p),
        |b: MediaAction| before[b],
    ).insert(action, p)
}

/// Whether no chord triggers two actions.
pub open spec fn chords_distinct(k: Map<MediaAction, ChordModel>) -> bool {
    forall|a: MediaAction, b: MediaAction|
        #![trigger k.contains_key(a), k.contains_key(b)]
        k.contains_key(a) && k.contains_key(b) && k[a] == k[b] ==> a == b
}

/// Whether no input triggers two actions.
pub open spec fn inputs_distinct(p: Map<MediaAction, PadInput>) -> bool {
    forall|a: MediaAction, b: MediaAction|
        #![trigger p.contains_key(a), p.contains_key(b)]
        p.contains_key(a) && p.contains_key(b) && p[a] == p[b] ==> a == b
}

/// After a chord was given to an action, that action alone has it, whatever the table held before.
pub proof fn rebound_chord_is_the_actions_own(
    before: Map<MediaAction, ChordModel>,
    action: MediaAction,
    c: ChordModel,
    other: MediaAction,
)
    ensures
        has_chord(rebound_chords(before, action, c), other, c) <==> other == action,
        other != action && !has_chord(before, other, c) ==> rebound_chords(
            before,
            action,
            c,
        ).contains_key(other) == before.contains_key(other) && (before.contains_key(other)
            ==> rebound_chords(before, action, c)[other] == before[other]),
{
}

/// After an input was given to an action, that action alone has it, whatever the table held
/// before.
pub proof fn rebound_input_is_the_actions_own(
    before: Map<MediaAction, PadInput>,
    action: MediaAction,
    p: PadInput,
    other: MediaAction,
)
    ensures
        has_input(rebound_pad(before, action, p), other, p) <==> other == action,
        other != action && !has_input(before, other, p) ==> rebound_pad(
            before,
            action,
            p,
        ).contains_key(other) == before.contains_key(other) && (before.contains_key(other)
            ==> rebound_pad(before, action, p)[other] == before[other]),
{
}

/// Rebinding keeps chords free of conflicts, and the action has the chord afterwards.
pub proof fn rebinding_keeps_chords_distinct(
    before: Map<MediaAction, ChordModel>,
    action: MediaAction,
    c: ChordModel,
)
    requires
        chords_distinct(before),
    ensures
        chords_distinct(rebound_chords(before, action, c)),
        has_chord(rebound_chords(before, action, c), action, c),
{
    let after = rebound_chords(before, action, c);
    assert forall|a: MediaAction, b: MediaAction|
        #![trigger after.contains_key(a), after.contains_key(b)]
        after.contains_key(a) && after.contains_key(b) && after[a] == after[b] implies a == b by {
        assert(has_chord(before, a, c) == (before.contains_key(a) && before[a] == c));
        assert(has_chord(before, b, c) == (before.contains_key(b) && before[b] == c));
        if a != action && b != action {
            assert(before.contains_key(a) && before.contains_key(b));
        }
    }
}

/// Rebinding keeps inputs free of conflicts, and the action has the input afterwards.
pub proof fn rebinding_keeps_inputs_distinct(
    before: Map<MediaAction, PadInput>,
    action: MediaAction,
    p: PadInput,
)
    requires
        inputs_distinct(before),
    ensures
        inputs_distinct(rebound_pad(before, action, p)),
        has_input(rebound_pad(before, action, p), action, p),
{
    let after = rebound_pad(before, action, p);
    assert forall|a: MediaAction, b: MediaAction|
        #![trigger after.contains_key(a), after.contains_key(b)]
        after.contains_key(a) && after.contains_key(b) && after[a] == after[b] implies a == b by {
        assert(has_input(before, a, p) == (before.contains_key(a) && before[a] == p));
        assert(has_input(before, b, p) == (before.contains_key(b) && before[b] == p));
        if a != action && b != action {
            assert(before.contains_key(a) && before.contains_key(b));
        }
    }
}

/// No chord triggers two actions from the start.
pub proof fn default_chords_are_distinct(a: MediaAction, b: MediaAction)
    requires
        default_chord(a) == default_chord(b),
    ensures
        a == b,
{
    reveal_strlit("A");
    reveal_strlit("ArrowDown");
    reveal_strlit("ArrowLeft");
    reveal_strlit("ArrowRight");
    reveal_strlit("ArrowUp");
    reveal_strlit("B");
    reveal_strlit("Backspace");
    reveal_strlit("C");
    reveal_strlit("Delete");
    reveal_strlit("End");
    reveal_strlit("Enter");
    reveal_strlit("Equals");
    reveal_strlit("F");
    reveal_strlit("F2");
    reveal_strlit("F5");
    reveal_strlit("G");
    reveal_strlit("Home");
    reveal_strlit("I");
    reveal_strlit("J");
    reveal_strlit("K");
    reveal_strlit("L");
    reveal_strlit("M");
    reveal_strlit("Minus");
    reveal_strlit("P");
    reveal_strlit("PageDown");
    reveal_strlit("PageUp");
    reveal_strlit("Space");
    reveal_strlit("Tab");
    reveal_strlit("V");
    reveal_strlit("X");
    let x = default_chord(a).key;
    let y = default_chord(b).key;
    assert(x.len() == y.len());
    assert(x[0] == y[0]);
    assert(x[x.len() - 1] == y[y.len() - 1]);
}

/// The default tables are free of conflicts.
pub proof fn defaults_are_distinct()
    ensures
        chords_distinct(default_keyboard()),
        inputs_distinct(default_pads()),
{
    assert forall|a: MediaAction, b: MediaAction|
        #![trigger default_keyboard().contains_key(a), default_keyboard().contains_key(b)]
        default_keyboard()[a] == default_keyboard()[b] implies a == b by {
        default_chords_are_distinct(a, b);
    }
}

/// Bringing a table up to date twice is the same as doing it once.
pub proof fn upgrading_is_idempotent(
    k: Map<MediaAction, ChordModel>,
    p: Map<MediaAction, PadInput>,
)
    ensures
        filled_keyboard(migrated_keyboard(BINDINGS_VERSION, filled_keyboard(k))) == filled_keyboard(
            k,
        ),
        filled_pad(migrated_pad(BINDINGS_VERSION, filled_pad(p))) == filled_pad(p),
{
    assert(filled_keyboard(filled_keyboard(k)) =~= filled_keyboard(k));
    let q = filled_pad(p);
    assert forall|a: MediaAction| #[trigger] filled_pad(q).contains_key(a) implies q.contains_key(
        a,
    ) by {
        if !q.contains_key(a) {
            let d = default_pad(a)->0;
            assert(is_used(p, d));
            let b = choose|b: MediaAction| #[trigger] p.contains_key(b) && p[b] == d;
            assert(q.contains_key(b) && q[b] == d);
        }
    }
    assert(filled_pad(q) =~= q);
}

/// The default table is up to date: it stays as it is.
pub proof fn defaults_stay()
    ensures
        filled_keyboard(migrated_keyboard(BINDINGS_VERSION, default_keyboard()))
            == default_keyboard(),
        filled_pad(migrated_pad(BINDINGS_VERSION, default_pads())) == default_pads(),
{
    assert(filled_keyboard(default_keyboard()) =~= default_keyboard());
    let q = default_pads();
    assert forall|a: MediaAction| #[trigger] filled_pad(q).contains_key(a) implies q.contains_key(
        a,
    ) by {}
    assert(filled_pad(q) =~= q);
}

pub const REPEAT_INITIAL_MS: u64 = 350;

pub const REPEAT_INTERVAL_MS: u64 = 90;

#[derive(Clone, Copy, Debug, PartialEq, Eq, Structural)]
pub struct HeldState {
    pub pressed_at: u64,
    pub last_fire: u64,
    /// Whether the input stays silent until it is released.
    pub silent: bool,
}

/// Which inputs are held, since when, and when they last fired. The time is handed in, in
/// milliseconds.
#[derive(Debug)]
pub struct RepeatClock {
    cells: Vec<Option<HeldState>>,
}

pub open spec fn held_map(cells: Seq<Option<HeldState>>) -> Map<PadInput, HeldState> {
    Map::new(|p: PadInput| cells[p.place()] is Some, |p: PadInput| cells[p.place()]->0)
}

impl View for RepeatClock {
    type V = Map<PadInput, HeldState>;

    closed spec fn view(&self) -> Map<PadInput, HeldState> {
        held_map(self.cells@)
    }
}

pub open spec fn elapsed(since: u64, now: u64) -> int {
    if now >= since {
        now - since
    } else {
        0
    }
}

/// Whether a held input fires again.
pub open spec fn fires_again(s: HeldState, now: u64) -> bool {
    !s.silent && elapsed(s.pressed_at, now) >= REPEAT_INITIAL_MS && elapsed(s.last_fire, now)
        >= REPEAT_INTERVAL_MS
}

impl Default for RepeatClock {
    fn default() -> (r: Self)
        ensures
            r@ == Map::<PadInput, HeldState>::empty(),
    {
        RepeatClock { cells: empty_cells() }
    }
}

fn empty_cells() -> (cells: Vec<Option<HeldState>>)
    ensures
        cells@.len() == PAD_INPUT_COUNT,
        held_map(cells@) == Map::<PadInput, HeldState>::empty(),
{
    let mut cells: Vec<Option<HeldState>> = Vec::new();
    let mut i: usize = 0;
    while i < PAD_INPUT_COUNT
        invariant
            i <= PAD_INPUT_COUNT,
            cells@.len() == i,
            forall|j: int| 0 <= j < i ==> #[trigger] cells@[j] is None,
        decreases PAD_INPUT_COUNT - i,
    {
        cells.push(None);
        i += 1;
    }
    proof {
        assert forall|p: PadInput| cells@[p.place()] is None by {
            input_places_are_distinct(p, p);
        }
        assert(held_map(cells@) =~= Map::<PadInput, HeldState>::empty());
    }
    cells
}

impl RepeatClock {
    #[verifier::type_invariant]
    spec fn has_all_cells(self) -> bool {
        self.cells@.len() == PAD_INPUT_COUNT
    }

    fn set_cell(&mut self, input: PadInput, value: Option<HeldState>)
        ensures
            final(self)@ == match value {
                Some(s) => old(self)@.insert(input, s),
                None => old(self)@.remove(input),
            },
    {
        let mut other = RepeatClock::default();
        std::mem::swap(self, &mut other);
        proof {
            use_type_invariant(&other);
        }
        let mut cells = other.cells;
        let ghost before = cells@;
        cells.set(input.index(), value);
        proof {
            assert forall|p: PadInput| p != input implies #[trigger] cells@[p.place()]
                == before[p.place()] by {
                input_places_are_distinct(p, input);
            }
            input_places_are_distinct(input, input);
            match value {
                Some(s) => {
                    assert(held_map(cells@) =~= held_map(before).insert(input, s));
                },
                None => {
                    assert(held_map(cells@) =~= held_map(before).remove(input));
                },
            }
        }
        *self = RepeatClock { cells };
    }

    fn cell(&self, input: PadInput) -> (r: Option<HeldState>)
        ensures
            match r {
                Some(s) => self@.contains_key(input) && self@[input] == s,
                None => !self@.contains_key(input),
            },
    {
        proof {
            use_type_invariant(self);
        }
        self.cells[input.index()]
    }

    /// Takes one look at an input: whether its action fires now. It fires when it is pressed, and
    /// again while it is held where the action repeats.
    pub fn should_fire(&mut self, input: PadInput, is_down: bool, now_ms: u64, repeats: bool) -> (r:
        bool)
        ensures
            !is_down ==> !r && !final(self)@.contains_key(input),
            is_down ==> final(self)@.contains_key(input),
            is_down && !old(self)@.contains_key(input) ==> r,
            r ==> final(self)@[input].last_fire == now_ms,
            old(self)@.contains_key(input) && !repeats ==> !r,
            forall|other: PadInput|
                other != input ==> (#[trigger] final(self)@.contains_key(other)
                    <==> old(self)@.contains_key(other)) && final(self)@[other]
                    == old(self)@[other],
            if !is_down {
                !r && final(self)@ == old(self)@.remove(input)
            } else if !old(self)@.contains_key(input) {
                r && final(self)@ == old(self)@.insert(
                    input,
                    HeldState { pressed_at: now_ms, last_fire: now_ms, silent: false },
                )
            } else if repeats && fires_again(old(self)@[input], now_ms) {
                r && final(self)@ == old(self)@.insert(
                    input,
                    HeldState { last_fire: now_ms, ..old(self)@[input] },
                )
            } else {
                !r && final(self)@ == old(self)@
            },
    {
        if !is_down {
            self.set_cell(input, None);
            return false;
        }
        match self.cell(input) {
            None => {
                self.set_cell(input, Some(HeldState { pressed_at: now_ms, last_fire: now_ms, silent: false }));
                true
            },
            Some(state) => {
                let since_press: u64 = now_ms.saturating_sub(state.pressed_at);
                let since_fire: u64 = now_ms.saturating_sub(state.last_fire);
                if repeats && !state.silent && since_press >= REPEAT_INITIAL_MS && since_fire
                    >= REPEAT_INTERVAL_MS {
                    self.set_cell(
                        input,
                        Some(
                            HeldState {
                                pressed_at: state.pressed_at,
                                last_fire: now_ms,
                                silent: false,
                            },
                        ),
                    );
                    true
                } else {
                    false
                }
            },
        }
    }

    /// Forgets all inputs.
    pub fn clear(&mut self)
        ensures
            final(self)@ == Map::<PadInput, HeldState>::empty(),
    {
        *self = RepeatClock::default();
    }

    /// Takes an input as held without firing, as after it was pressed to be bound. It stays silent
    /// until it is released.
    pub fn suppress(&mut self, input: PadInput, now_ms: u64)
        ensures
            final(self)@ == old(self)@.insert(
                input,
                HeldState { pressed_at: now_ms, last_fire: now_ms, silent: true },
            ),
    {
        self.set_cell(
            input,
            Some(HeldState { pressed_at: now_ms, last_fire: now_ms, silent: true }),
        );
    }
}

/// An input that is taken as held without firing does not fire until it is released, at no time.
pub proof fn suppressed_inputs_stay_silent(s: HeldState, now: u64)
    requires
        s.silent,
    ensures
        !fires_again(s, now),
{
}

/// Between two firings of a held input lies at least the interval.
pub proof fn repeats_keep_their_distance(s: HeldState, first: u64, second: u64)
    requires
        fires_again(s, first),
        first <= second,
        fires_again(HeldState { last_fire: first, ..s }, second),
    ensures
        second - first >= REPEAT_INTERVAL_MS,
{
}

/// Which binding waits for an input.
#[derive(Clone, Copy, PartialEq, Eq, Debug, Structural)]
pub enum CaptureSlot {
    Keyboard(MediaAction),
    Pad(MediaAction),
}

/// A binding that waits for the next input.
#[derive(Debug)]
pub struct Capture {
    pub slot: CaptureSlot,
    pub armed_at_ms: u64,
}

pub const CAPTURE_TIMEOUT_MS: u64 = 5000;

impl Capture {
    /// Whether the wait is over.
    pub fn expired(&self, now_ms: u64) -> (r: bool)
        ensures
            r == (elapsed(self.armed_at_ms, now_ms) > CAPTURE_TIMEOUT_MS),
    {
        let waited: u64 = now_ms.saturating_sub(self.armed_at_ms);
        waited > CAPTURE_TIMEOUT_MS
    }
}

/// Whether controller inputs are ignored: while the window is in the background, and while the
/// guide button is held, whose chords belong to the desktop.
pub fn suppress_controller_actions(app_focused: bool, guide_pressed: bool) -> (r: bool)
    ensures
        r == (!app_focused || guide_pressed),
{
    !app_focused || guide_pressed
}

/// Whether the general controller backend is started: only where controllers are wanted and none
/// was found on the direct path.
pub fn should_initialize_gilrs(input_enabled: bool, legacy_acquired: bool) -> (r: bool)
    ensures
        r == (input_enabled && !legacy_acquired),
{
    input_enabled && !legacy_acquired
}

/// Whether the menu button was just pressed in the focused window.
pub fn reserved_app_switch_edge(app_focused: bool, start_down: bool, start_was_down: bool) -> (r: bool)
    ensures
        r == (app_focused && start_down && !start_was_down),
{
    app_focused && start_down && !start_was_down
}

/// Whether the menu button switches windows now. The guide button owns its chords.
pub fn reserved_app_switch_edge_with_guide(
    app_focused: bool,
    guide_down: bool,
    start_down: bool,
    start_was_down: bool,
) -> (r: bool)
    ensures
        r == (app_focused && !guide_down && start_down && !start_was_down),
{
    !suppress_controller_actions(app_focused, guide_down) && reserved_app_switch_edge(
        app_focused,
        start_down,
        start_was_down,
    )
}

/// Button layouts of a controller whose Windows identity is not in the general database.
pub const NACON_REVOLUTION_5_PRO_MAPPINGS: &'static str = "03008a4785320000170d000000000000,REVOLUTION 5 PRO (PS4 Mode),a:b1,b:b2,x:b0,y:b3,back:b8,guide:b12,start:b9,leftshoulder:b4,rightshoulder:b5,leftstick:b10,rightstick:b11,dpup:h0.1,dpleft:h0.8,dpdown:h0.4,dpright:h0.2,-leftx:-a0,+leftx:+a0,-lefty:-a1,+lefty:+a1,-rightx:-a2,+rightx:+a2,righty:a5,lefttrigger:b6,righttrigger:b7,platform:Windows,\n03008a4785320000190d000000000000,REVOLUTION 5 PRO (PS5 Mode),a:b1,b:b2,x:b0,y:b3,back:b8,guide:b12,start:b9,leftshoulder:b4,rightshoulder:b5,leftstick:b10,rightstick:b11,dpup:h0.1,dpleft:h0.8,dpdown:h0.4,dpright:h0.2,-leftx:-a0,+leftx:+a0,-lefty:-a1,+lefty:+a1,-rightx:-a2,+rightx:+a2,righty:a5,lefttrigger:b6,righttrigger:b7,platform:Windows,";

/// The buttons that a controller has pressed. The axes, which are fractions, are kept by the
/// caller.
#[derive(Debug)]
pub struct ControllerSnapshot {
    pub source: String,
    pub device_id: String,
    pub device_name: String,
    pub vendor_id: Option<u16>,
    pub product_id: Option<u16>,
    pub buttons: Vec<PadButtonCode>,
    pub guide_pressed: bool,
}

/// The button at a bit of the joystick state.
pub open spec fn button_at_bit(i: int) -> PadButtonCode {
    if i == 0 {
        PadButtonCode::West
    } else if i == 1 {
        PadButtonCode::South
    } else if i == 2 {
        PadButtonCode::East
    } else if i == 3 {
        PadButtonCode::North
    } else if i == 4 {
        PadButtonCode::LeftBumper
    } else if i == 5 {
        PadButtonCode::RightBumper
    } else if i == 6 {
        PadButtonCode::LeftTrigger
    } else if i == 7 {
        PadButtonCode::RightTrigger
    } else if i == 8 {
        PadButtonCode::Select
    } else if i == 9 {
        PadButtonCode::Start
    } else if i == 10 {
        PadButtonCode::LeftThumb
    } else {
        PadButtonCode::RightThumb
    }
}

/// Whether a bit of the joystick state is set.
pub open spec fn bit_set(raw: u32, i: u32) -> bool {
    raw & (1u32 << i) != 0
}

/// Whether the direction of the hat, in hundredths of a degree, presses a button of the pad.
pub open spec fn hat_presses(pov: u32, b: PadButtonCode) -> bool {
    pov != 0xffff && match b {
        PadButtonCode::DPadUp => pov >= 31_500 || pov <= 4_500,
        PadButtonCode::DPadRight => 4_500 <= pov <= 13_500,
        PadButtonCode::DPadDown => 13_500 <= pov <= 22_500,
        PadButtonCode::DPadLeft => 22_500 <= pov <= 31_500,
        _ => false,
    }
}

/// Whether a joystick state has a button pressed.
pub open spec fn joystick_presses(raw: u32, pov: u32, b: PadButtonCode) -> bool {
    hat_presses(pov, b) || exists|i: u32| i < 12 && b == button_at_bit(i as int) && #[trigger] bit_set(raw, i)
}

fn button_of_bit(i: u32) -> (r: PadButtonCode)
    requires
        i < 12,
    ensures
        r == button_at_bit(i as int),
{
    if i == 0 {
        PadButtonCode::West
    } else if i == 1 {
        PadButtonCode::South
    } else if i == 2 {
        PadButtonCode::East
    } else if i == 3 {
        PadButtonCode::North
    } else if i == 4 {
        PadButtonCode::LeftBumper
    } else if i == 5 {
        PadButtonCode::RightBumper
    } else if i == 6 {
        PadButtonCode::LeftTrigger
    } else if i == 7 {
        PadButtonCode::RightTrigger
    } else if i == 8 {
        PadButtonCode::Select
    } else if i == 9 {
        PadButtonCode::Start
    } else if i == 10 {
        PadButtonCode::LeftThumb
    } else {
        PadButtonCode::RightThumb
    }
}

/// The buttons that a joystick state has pressed.
fn joystick_buttons(raw: u32, pov: u32) -> (r: Vec<PadButtonCode>)
    ensures
        forall|b: PadButtonCode| #[trigger] r@.contains(b) <==> joystick_presses(raw, pov, b),
{
    let mut out: Vec<PadButtonCode> = Vec::new();
    let mut i: u32 = 0;
    while i < 12
        invariant
            i <= 12,
            forall|b: PadButtonCode| #[trigger]
                out@.contains(b) <==> exists|j: u32|
                    j < i && b == button_at_bit(j as int) && #[trigger] bit_set(raw, j),
        decreases 12 - i,
    {
        let ghost before = out@;
        let ghost here = button_at_bit(i as int);
        let set = raw & (1u32 << i) != 0;
        if set {
            out.push(button_of_bit(i));
        }
        proof {
            assert(set == bit_set(raw, i));
            assert forall|b: PadButtonCode| #[trigger]
                out@.contains(b) <==> exists|j: u32|
                    j < i + 1 && b == button_at_bit(j as int) && #[trigger] bit_set(raw, j) by {
                if before.contains(b) {
                    assert(out@[before.index_of(b)] == b);
                    let j = choose|j: u32|
                        j < i && b == button_at_bit(j as int) && #[trigger] bit_set(raw, j);
                    assert(bit_set(raw, j));
                }
                if b == here && set {
                    assert(out@[before.len() as int] == b);
                }
                if out@.contains(b) && !before.contains(b) {
                    let k = out@.index_of(b);
                    if k < before.len() {
                        assert(before[k] == b);
                    }
                }
            }
        }
        i += 1;
    }
    let ghost base = out@;
    let all = PadButtonCode::all();
    let mut k: usize = 0;
    while k < 16
        invariant
            k <= 16,
            all@.len() == 16,
            forall|j: int| 0 <= j < all@.len() ==> (#[trigger] all@[j]).place() == j,
            forall|b: PadButtonCode| #[trigger]
                out@.contains(b) <==> base.contains(b) || (b.place() < k && hat_presses(pov, b)),
        decreases 16 - k,
    {
        let b0 = all[k];
        let ghost before = out@;
        let pressed = pov != 0xffff && match b0 {
            PadButtonCode::DPadUp => pov >= 31_500 || pov <= 4_500,
            PadButtonCode::DPadRight => 4_500 <= pov && pov <= 13_500,
            PadButtonCode::DPadDown => 13_500 <= pov && pov <= 22_500,
            PadButtonCode::DPadLeft => 22_500 <= pov && pov <= 31_500,
            _ => false,
        };
        if pressed {
            out.push(b0);
        }
        proof {
            assert forall|b: PadButtonCode| #[trigger]
                out@.contains(b) <==> base.contains(b) || (b.place() < k + 1 && hat_presses(
                    pov,
                    b,
                )) by {
                assert(before.contains(b) <==> base.contains(b) || (b.place() < k && hat_presses(
                    pov,
                    b,
                )));
                input_places_are_distinct(PadInput::Button(b), PadInput::Button(b0));
                if before.contains(b) {
                    assert(out@[before.index_of(b)] == b);
                }
                if b == b0 && pressed {
                    assert(out@[before.len() as int] == b);
                }
                if out@.contains(b) && !before.contains(b) {
                    let j = out@.index_of(b);
                    if j < before.len() {
                        assert(before[j] == b);
                    }
                }
            }
        }
        k += 1;
    }
    proof {
        assert forall|b: PadButtonCode| b.place() < 16 by {
            input_places_are_distinct(PadInput::Button(b), PadInput::Button(b));
        }
    }
    out
}

/// The snapshot of a joystick.
pub fn controller_snapshot_from_legacy_values(
    id: u32,
    device_name: String,
    vendor_id: Option<u16>,
    product_id: Option<u16>,
    raw_buttons: u32,
    pov: u32,
) -> (r: ControllerSnapshot)
    ensures
        r.source@ == "winmm-directinput-fallback"@,
        r.device_id@ == "joy-"@ + decimal(id as nat),
        r.device_name == device_name,
        r.vendor_id == vendor_id,
        r.product_id == product_id,
        forall|b: PadButtonCode| #[trigger]
            r.buttons@.contains(b) <==> joystick_presses(raw_buttons, pov, b),
        r.guide_pressed == bit_set(raw_buttons, 12),
{
    let digits = decimal_text(id as u64);
    ControllerSnapshot {
        source: "winmm-directinput-fallback".to_owned(),
        device_id: cat("joy-", digits.as_str()),
        device_name,
        vendor_id,
        product_id,
        buttons: joystick_buttons(raw_buttons, pov),
        guide_pressed: raw_buttons & (1u32 << 12u32) != 0,
    }
}

impl ControllerSnapshot {
    pub fn pressed(&self, button: PadButtonCode) -> (r: bool)
        ensures
            r == self.buttons@.contains(button),
    {
        let n: usize = self.buttons.len();
        let mut i: usize = 0;
        while i < n
            invariant
                i <= n,
                n == self.buttons@.len(),
                forall|j: int| 0 <= j < i ==> self.buttons@[j] != button,
            decreases n - i,
        {
            if self.buttons[i] == button {
                return true;
            }
            i += 1;
        }
        false
    }
}

pub open spec fn upper_hex_digit(d: nat) -> char {
    if d < 10 {
        (48 + d) as char
    } else {
        (55 + d) as char
    }
}

/// A number of sixteen bits as four hexadecimal digits, as identities of devices are shown.
pub fn device_number_text(value: u16) -> (r: String)
    ensures
        r@ == seq![
            upper_hex_digit((value / 4096) as nat),
            upper_hex_digit(((value / 256) % 16) as nat),
            upper_hex_digit(((value / 16) % 16) as nat),
            upper_hex_digit((value % 16) as nat),
        ],
{
    let mut s = String::new();
    assert(s@ =~= Seq::<char>::empty());
    s.push(hex_upper((value / 4096) as u8));
    s.push(hex_upper(((value / 256) % 16) as u8));
    s.push(hex_upper(((value / 16) % 16) as u8));
    s.push(hex_upper((value % 16) as u8));
    assert(s@ =~= seq![
        upper_hex_digit((value / 4096) as nat),
        upper_hex_digit(((value / 256) % 16) as nat),
        upper_hex_digit(((value / 16) % 16) as nat),
        upper_hex_digit((value % 16) as nat),
    ]);
    s
}

fn hex_upper(d: u8) -> (r: char)
    requires
        d < 16,
    ensures
        r == upper_hex_digit(d as nat),
{
    if d < 10 {
        (48 + d) as char
    } else {
        (55 + d) as char
    }
}

/// The joystick that was found last, which is asked first.
#[derive(Debug)]
pub struct LegacyController {
    pub active_id: Option<u32>,
}

/// How many joysticks are asked at most.
pub const JOYSTICK_LIMIT: u32 = 32;

impl Default for LegacyController {
    fn default() -> (r: Self)
        ensures
            r.active_id is None,
    {
        LegacyController { active_id: None }
    }
}

pub open spec fn joystick_count(count: u32) -> int {
    if count < JOYSTICK_LIMIT {
        count as int
    } else {
        JOYSTICK_LIMIT as int
    }
}

impl LegacyController {
    /// The joysticks to ask, in order: the one found last, then the others by number.
    pub fn candidates(&self, count: u32) -> (r: Vec<u32>)
        ensures
            self.active_id is Some ==> r@.len() > 0 && r@[0] == self.active_id->0,
            r@.no_duplicates(),
            forall|id: u32| #[trigger]
                r@.contains(id) <==> self.active_id == Some(id) || id < joystick_count(count),
            forall|i: int, j: int|
                (if self.active_id is Some {
                    1
                } else {
                    0int
                }) <= i < j < r@.len() ==> #[trigger] r@[i] < #[trigger] r@[j],
    {
        let limit: u32 = if count < JOYSTICK_LIMIT {
            count
        } else {
            JOYSTICK_LIMIT
        };
        let mut out: Vec<u32> = Vec::new();
        if let Some(id) = self.active_id {
            out.push(id);
            assert(out@.contains(out@[0]));
        }
        let ghost first = if self.active_id is Some {
            1
        } else {
            0int
        };
        let mut id: u32 = 0;
        while id < limit
            invariant
                id <= limit,
                first == (if self.active_id is Some {
                    1
                } else {
                    0int
                }),
                first <= out@.len(),
                self.active_id is Some ==> out@[0] == self.active_id->0,
                forall|k: u32| #[trigger]
                    out@.contains(k) <==> self.active_id == Some(k) || k < id,
                forall|i: int| first <= i < out@.len() ==> #[trigger] out@[i] < id,
                forall|i: int| first <= i < out@.len() ==> self.active_id != Some(#[trigger] out@[i]),
                forall|i: int, j: int|
                    first <= i < j < out@.len() ==> #[trigger] out@[i] < #[trigger] out@[j],
            decreases limit - id,
        {
            let ghost before = out@;
            let skip = match self.active_id {
                Some(a) => a == id,
                None => false,
            };
            if !skip {
                out.push(id);
            }
            proof {
                assert forall|k: u32| #[trigger]
                    out@.contains(k) <==> self.active_id == Some(k) || k < id + 1 by {
                    assert(before.contains(k) <==> self.active_id == Some(k) || k < id);
                    if before.contains(k) {
                        assert(out@[before.index_of(k)] == k);
                    }
                    if k == id && !skip {
                        assert(out@[before.len() as int] == k);
                    }
                    if out@.contains(k) && !before.contains(k) {
                        let j = out@.index_of(k);
                        if j < before.len() {
                            assert(before[j] == k);
                        }
                    }
                }
            }
            id += 1;
        }
        out
    }

    /// Keeps the joystick that was found, or that none was.
    pub fn settle(&mut self, found: Option<u32>)
        ensures
            final(self).active_id == found,
    {
        self.active_id = found;
    }
}

} // verus!
