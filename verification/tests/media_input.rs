use facial::gamepad::{GamepadAxis, GamepadButton};
use facial::media_input::{
    controller_snapshot_from_legacy_values, device_number_text, reserved_app_switch_edge,
    reserved_app_switch_edge_with_guide, should_initialize_gilrs, suppress_controller_actions,
    ActionMap, BindingTable, Capture, CaptureSlot, ControllerSnapshot, KeyChord, LegacyController, MediaAction,
    PadAxisCode, PadButtonCode, PadInput, RepeatClock, BINDINGS_SETTING_KEY, BINDINGS_VERSION,
    NACON_REVOLUTION_5_PRO_MAPPINGS,
};

fn reload(table: BindingTable) -> BindingTable {
    BindingTable::from_stored(Some(table))
}

fn same_tables(a: &BindingTable, b: &BindingTable) -> bool {
    a.keyboard == b.keyboard && a.pad == b.pad
}

#[test]
fn default_table_covers_every_action_on_keyboard() {
    let table = BindingTable::default();
    for action in MediaAction::all() {
        assert!(
            table.keyboard.contains_key(&action),
            "keyboard default missing for {action:?}"
        );
    }
    assert_eq!(
        table.pad.get(&MediaAction::TogglePointerMode),
        Some(&PadInput::Button(PadButtonCode::RightThumb)),
        "R3 cursor-mode default"
    );
    assert!(table.pad.contains_key(&MediaAction::FolderUp));
    assert!(table.pad.contains_key(&MediaAction::MoveDown));
    assert_eq!(
        table.action_for_pad(PadInput::Button(PadButtonCode::Select)),
        Some(MediaAction::ToggleFolderNavigator)
    );
    assert!(!table.pad.contains_key(&MediaAction::OpenLocation));
    assert!(!table.pad.contains_key(&MediaAction::ToggleSettingsPanel));
    assert_eq!(
        table.action_for_pad(PadInput::Button(PadButtonCode::Start)),
        None,
        "Start is reserved by the focus-gated app-switch path"
    );
}

#[test]
fn bindings_serialize_round_trip_and_merge_defaults() {
    let table = BindingTable::default();
    let restored = reload(BindingTable::default());
    assert_eq!(restored.keyboard, table.keyboard);
    assert_eq!(restored.pad, table.pad);
    let mut trimmed = BindingTable::default();
    trimmed.keyboard.remove(&MediaAction::Refresh);
    trimmed.pad.remove(&MediaAction::OpenFile);
    let merged = reload(trimmed);
    assert!(merged.keyboard.contains_key(&MediaAction::Refresh));
    assert!(merged.pad.contains_key(&MediaAction::OpenFile));
    assert_eq!(
        table.pad.get(&MediaAction::VideoSeekForward),
        Some(&PadInput::AxisPos(PadAxisCode::RightStickX))
    );
    assert_eq!(
        table.pad.get(&MediaAction::VideoVolumeDown),
        Some(&PadInput::AxisNeg(PadAxisCode::RightStickY))
    );
    assert_eq!(
        table.pad.get(&MediaAction::FocusSearch),
        Some(&PadInput::AxisPos(PadAxisCode::LeftStickX))
    );
    let fallback = BindingTable::from_stored(None);
    assert_eq!(fallback.keyboard, BindingTable::default().keyboard);
}

#[test]
fn v7_table_gains_delete_permanent_without_touching_custom_bindings() {
    let mut legacy = BindingTable::default();
    legacy.version = 7;
    legacy.keyboard.remove(&MediaAction::DeletePermanent);
    let custom_delete = KeyChord::new("X", false, false, true);
    legacy.keyboard.insert(MediaAction::Delete, custom_delete.clone());
    let migrated = reload(legacy);
    assert_eq!(migrated.version, BINDINGS_VERSION);
    assert_eq!(
        migrated.keyboard.get(&MediaAction::DeletePermanent),
        Some(&KeyChord::new("Delete", false, true, false)),
        "forward-merge back-fills the new default chord"
    );
    assert_eq!(
        migrated.keyboard.get(&MediaAction::Delete),
        Some(&custom_delete),
        "existing custom bindings stay untouched"
    );
}

#[test]
fn v1_default_shortcuts_migrate_to_ctrl_f_fullscreen() {
    let mut legacy = BindingTable::default();
    legacy.version = 1;
    legacy
        .keyboard
        .insert(MediaAction::ToggleFavoritesPanel, KeyChord::new("F", true, false, false));
    legacy
        .keyboard
        .insert(MediaAction::ToggleChromeHide, KeyChord::new("F11", false, false, false));
    let migrated = reload(legacy);
    assert_eq!(migrated.version, BINDINGS_VERSION);
    assert_eq!(
        migrated.keyboard.get(&MediaAction::ToggleChromeHide),
        Some(&KeyChord::new("F", true, false, false))
    );
    assert_eq!(
        migrated.keyboard.get(&MediaAction::ToggleFavoritesPanel),
        Some(&KeyChord::new("B", true, false, false))
    );
}

fn second_version() -> BindingTable {
    let mut legacy = BindingTable::default();
    legacy.version = 2;
    legacy.pad.remove(&MediaAction::ToggleFolderNavigator);
    legacy.pad.insert(MediaAction::OpenLocation, PadInput::Button(PadButtonCode::Select));
    legacy
}

#[test]
fn v2_select_default_migrates_to_large_folder_navigator() {
    let migrated = reload(second_version());
    assert_eq!(migrated.version, BINDINGS_VERSION);
    assert_eq!(
        migrated.pad.get(&MediaAction::ToggleFolderNavigator),
        Some(&PadInput::Button(PadButtonCode::Select))
    );
    assert!(!migrated.pad.contains_key(&MediaAction::OpenLocation));

    let mut custom = second_version();
    custom.pad.insert(MediaAction::OpenLocation, PadInput::Button(PadButtonCode::RightThumb));
    custom
        .pad
        .insert(MediaAction::ToggleFavoritesPanel, PadInput::Button(PadButtonCode::Select));
    let preserved = reload(custom);
    assert_eq!(
        preserved.pad.get(&MediaAction::ToggleFavoritesPanel),
        Some(&PadInput::Button(PadButtonCode::Select))
    );
    assert!(!preserved.pad.contains_key(&MediaAction::ToggleFolderNavigator));
}

#[test]
fn v3_start_settings_default_is_removed_for_steam_alt_tab() {
    let mut legacy = BindingTable::default();
    legacy.version = 3;
    legacy
        .pad
        .insert(MediaAction::ToggleSettingsPanel, PadInput::Button(PadButtonCode::Start));
    let migrated = reload(legacy);
    assert_eq!(migrated.version, BINDINGS_VERSION);
    assert!(!migrated.pad.contains_key(&MediaAction::ToggleSettingsPanel));

    let mut custom = BindingTable::default();
    custom.version = 3;
    custom
        .pad
        .insert(MediaAction::ToggleSettingsPanel, PadInput::Button(PadButtonCode::RightThumb));
    let preserved = reload(custom);
    assert_eq!(
        preserved.pad.get(&MediaAction::ToggleSettingsPanel),
        Some(&PadInput::Button(PadButtonCode::RightThumb))
    );
}

#[test]
fn steam_guide_and_background_always_suppress_controller_actions() {
    assert!(!suppress_controller_actions(true, false));
    assert!(suppress_controller_actions(true, true));
    assert!(suppress_controller_actions(false, false));
    assert!(suppress_controller_actions(false, true));
}

#[test]
fn reserved_start_switch_is_focus_gated_and_rising_edge_only() {
    assert!(reserved_app_switch_edge(true, true, false));
    assert!(!reserved_app_switch_edge(true, true, true));
    assert!(!reserved_app_switch_edge(true, false, false));
    assert!(!reserved_app_switch_edge(false, true, false));
}

#[test]
fn direct_joystick_acquisition_prevents_redundant_wgi_initialization() {
    assert!(!should_initialize_gilrs(false, false));
    assert!(!should_initialize_gilrs(true, true));
    assert!(should_initialize_gilrs(true, false));
}

#[test]
fn reserved_start_switch_never_fires_under_guide_or_after_guide_release_while_held() {
    assert!(!reserved_app_switch_edge_with_guide(true, true, true, false));
    assert!(!reserved_app_switch_edge_with_guide(true, false, true, true));
    assert!(reserved_app_switch_edge_with_guide(true, false, true, false));
    assert!(!reserved_app_switch_edge_with_guide(false, false, true, false));
}

#[test]
fn legacy_fallback_maps_nacon_button_pov_and_axis_layout() {
    let snapshot = controller_snapshot_from_legacy_values(
        0,
        "REVOLUTION 5 PRO".to_string(),
        Some(0x3285),
        Some(0x0d19),
        (1 << 1) | (1 << 9),
        9_000,
    );
    assert_eq!(snapshot.device_name, "REVOLUTION 5 PRO");
    assert_eq!(snapshot.vendor_id, Some(0x3285));
    assert_eq!(snapshot.product_id, Some(0x0d19));
    assert!(snapshot.pressed(PadButtonCode::South));
    assert!(snapshot.pressed(PadButtonCode::Start));
    assert!(snapshot.pressed(PadButtonCode::DPadRight));
    assert!(!snapshot.pressed(PadButtonCode::North));
    assert!(!snapshot.guide_pressed);
}

#[test]
fn built_in_nacon_mappings_cover_ps4_and_ps5_windows_ids() {
    assert!(NACON_REVOLUTION_5_PRO_MAPPINGS.contains("85320000170d"));
    assert!(NACON_REVOLUTION_5_PRO_MAPPINGS.contains("85320000190d"));
    assert!(NACON_REVOLUTION_5_PRO_MAPPINGS.contains("start:b9"));
    assert!(NACON_REVOLUTION_5_PRO_MAPPINGS.contains("guide:b12"));
    assert!(NACON_REVOLUTION_5_PRO_MAPPINGS
        .lines()
        .all(|mapping| mapping.ends_with("platform:Windows,")));
}

#[test]
fn v4_r3_favorites_default_migrates_to_pointer_mode() {
    let mut legacy = BindingTable::default();
    legacy.version = 4;
    legacy.pad.remove(&MediaAction::TogglePointerMode);
    legacy
        .pad
        .insert(MediaAction::ToggleFavoritesPanel, PadInput::Button(PadButtonCode::RightThumb));
    let migrated = reload(legacy);
    assert_eq!(migrated.version, BINDINGS_VERSION);
    assert!(!migrated.pad.contains_key(&MediaAction::ToggleFavoritesPanel));
    assert_eq!(
        migrated.pad.get(&MediaAction::TogglePointerMode),
        Some(&PadInput::Button(PadButtonCode::RightThumb))
    );
}

#[test]
fn rebind_steals_conflicting_binding() {
    let mut table = BindingTable::default();
    let chord = KeyChord::new("Delete", false, false, false);
    assert_eq!(
        table.keyboard_conflict(&chord, MediaAction::Copy),
        Some(MediaAction::Delete)
    );
    table.rebind_keyboard(MediaAction::Copy, chord.clone());
    assert_eq!(table.action_for_chord(&chord), Some(MediaAction::Copy));
    assert!(!table.keyboard.contains_key(&MediaAction::Delete), "stolen");
    let r3 = PadInput::Button(PadButtonCode::RightThumb);
    table.rebind_pad(MediaAction::OpenFile, r3);
    assert_eq!(table.action_for_pad(r3), Some(MediaAction::OpenFile));
    assert!(!table.pad.contains_key(&MediaAction::TogglePointerMode));
}

#[test]
fn repeat_clock_edge_then_delayed_repeats() {
    let mut clock = RepeatClock::default();
    let input = PadInput::Button(PadButtonCode::DPadDown);
    assert!(clock.should_fire(input, true, 0, true), "edge fires");
    assert!(!clock.should_fire(input, true, 100, true), "within initial delay");
    assert!(!clock.should_fire(input, true, 340, true));
    assert!(clock.should_fire(input, true, 360, true), "after initial delay");
    assert!(!clock.should_fire(input, true, 400, true), "within interval");
    assert!(clock.should_fire(input, true, 460, true), "next repeat");
    assert!(!clock.should_fire(input, false, 500, true), "release stops");
    assert!(clock.should_fire(input, true, 510, true), "fresh edge");
    let open = PadInput::Button(PadButtonCode::South);
    assert!(clock.should_fire(open, true, 0, false));
    assert!(!clock.should_fire(open, true, 1000, false), "no repeat");
    clock.clear();
    assert!(clock.should_fire(open, true, 1100, false), "clear resets edges");
}

#[test]
fn capture_times_out() {
    let capture = Capture {
        slot: CaptureSlot::Keyboard(MediaAction::OpenFile),
        armed_at_ms: 1000,
    };
    assert!(!capture.expired(5900));
    assert!(capture.expired(6001));
}

#[test]
fn suppressed_inputs_fire_only_after_a_release() {
    let mut clock = RepeatClock::default();
    let input = PadInput::AxisNeg(PadAxisCode::LeftStickY);
    clock.suppress(input, 10);
    assert!(!clock.should_fire(input, true, 20, true));
    assert!(!clock.should_fire(input, true, 1_000_000, true));
    assert!(!clock.should_fire(input, true, u64::MAX, true));
    assert!(!clock.should_fire(input, false, 1_000_001, true));
    assert!(clock.should_fire(input, true, 1_000_002, true));
}

#[test]
fn upgrades_are_idempotent() {
    let once = reload(second_version());
    let twice = reload(reload(second_version()));
    assert!(same_tables(&once, &twice));
}

#[test]
fn places_follow_the_declared_order() {
    let all = MediaAction::all();
    assert_eq!(all.len(), 38);
    for (i, action) in all.iter().enumerate() {
        assert_eq!(action.index(), i);
    }
    for (i, button) in PadButtonCode::all().iter().enumerate() {
        assert_eq!(button.index(), i);
    }
    assert_eq!(MediaAction::MoveLeft.label(), "Move left");
    assert!(MediaAction::MoveLeft.repeats() && !MediaAction::Delete.repeats());
}

#[test]
fn chords_and_inputs_are_shown_with_their_modifiers() {
    assert_eq!(KeyChord::new("F", true, false, false).display(), "Ctrl+F");
    assert_eq!(KeyChord::new("X", true, true, true).display(), "Ctrl+Shift+Alt+X");
    assert!(KeyChord::new("X", true, false, false).same(&KeyChord::new("X", true, false, false)));
    assert!(!KeyChord::new("X", true, false, false).same(&KeyChord::new("X", true, true, false)));
    assert_eq!(PadInput::AxisPos(PadAxisCode::LeftStickX).display(), "LeftStickX+");
}

#[test]
fn action_maps_hold_one_value_per_action() {
    let mut map: ActionMap<PadInput> = ActionMap::new();
    assert!(map.get(&MediaAction::Copy).is_none());
    map.insert(MediaAction::Copy, PadInput::Button(PadButtonCode::West));
    map.insert(MediaAction::Copy, PadInput::Button(PadButtonCode::East));
    assert_eq!(map.get(&MediaAction::Copy), Some(&PadInput::Button(PadButtonCode::East)));
    map.remove(&MediaAction::Copy);
    assert!(!map.contains_key(&MediaAction::Copy));
}

#[test]
fn joysticks_are_probed_from_the_active_one() {
    let mut controller = LegacyController::default();
    assert_eq!(controller.candidates(3), vec![0, 1, 2]);
    controller.settle(Some(2));
    assert_eq!(controller.active_id, Some(2));
    assert_eq!(controller.candidates(3)[0], 2);
    controller.settle(None);
    assert_eq!(controller.active_id, None);
}

#[test]
fn device_numbers_are_four_digits() {
    assert_eq!(device_number_text(0x3285), "3285");
    assert_eq!(device_number_text(0xd19), "0D19");
    assert_eq!(BINDINGS_SETTING_KEY, "media_bindings_v1");
}

#[test]
fn rebinding_takes_the_input_from_every_other_action() {
    let mut table = BindingTable::default();
    let chord = KeyChord::new("Q", true, false, false);
    for action in [MediaAction::Copy, MediaAction::Cut, MediaAction::Paste] {
        table.keyboard.insert(action, chord.clone());
    }
    table.rebind_keyboard(MediaAction::Paste, chord.clone());
    assert_eq!(table.action_for_chord(&chord), Some(MediaAction::Paste));
    assert!(!table.keyboard.contains_key(&MediaAction::Copy));
    assert!(!table.keyboard.contains_key(&MediaAction::Cut));
    assert!(table.keyboard.contains_key(&MediaAction::Delete));
    let start = PadInput::Button(PadButtonCode::Start);
    for action in [MediaAction::Copy, MediaAction::Cut] {
        table.pad.insert(action, start);
    }
    table.rebind_pad(MediaAction::Refresh, start);
    assert_eq!(table.action_for_pad(start), Some(MediaAction::Refresh));
    assert!(!table.pad.contains_key(&MediaAction::Copy));
    assert!(!table.pad.contains_key(&MediaAction::Cut));
}

#[test]
fn pad_button_codes_round_trip_gilrs() {
    for code in [
        PadButtonCode::South,
        PadButtonCode::RightThumb,
        PadButtonCode::DPadLeft,
        PadButtonCode::LeftTrigger,
    ] {
        assert_eq!(PadButtonCode::from_gilrs(code.to_gilrs()), Some(code));
    }
    assert_eq!(PadButtonCode::from_gilrs(GamepadButton::Unknown), None);
}

#[test]
fn gamepads_are_read_by_their_buttons() {
    assert_eq!(
        PadButtonCode::from_gilrs(GamepadButton::LeftTrigger),
        Some(PadButtonCode::LeftBumper)
    );
    assert_eq!(PadButtonCode::RightTrigger.to_gilrs(), GamepadButton::RightTrigger2);
    assert_eq!(PadAxisCode::from_gilrs(GamepadAxis::DPadX), None);
    assert_eq!(
        PadAxisCode::from_gilrs(PadAxisCode::RightStickY.to_gilrs()),
        Some(PadAxisCode::RightStickY)
    );
    let held = vec![GamepadButton::Mode, GamepadButton::RightTrigger, GamepadButton::C];
    let snapshot =
        ControllerSnapshot::from_gilrs("GamepadId(0)".to_string(), "Pad".to_string(), &held);
    assert_eq!(snapshot.source, "gilrs-wgi");
    assert_eq!(snapshot.device_id, "GamepadId(0)");
    assert_eq!(snapshot.buttons, vec![PadButtonCode::RightBumper]);
    assert!(snapshot.guide_pressed);
}
