//! What the one screen is made of and what its frames do.

use namir::meters::MeterReading;
use namir::registry::{position, registry};
use namir::single::Single;
use namir::state::ParamValues;
use namir::ui_app::{
    audio_mode_label, open_with_srgb_fallback, preset_controls, preset_row, screen_items,
    status_labels, NamirUi, ScreenItem, ViewState, WindowSettings,
};
use namir::ui_host::{
    AudioModeStatus, AudioShareMode, LibrarySnapshot, PresetSummary, RecordingHost, UiHost,
    UiIntent, UiSnapshot,
};

fn preset(name: &str, path: &str) -> PresetSummary {
    PresetSummary { name: name.to_string(), path: path.to_string() }
}

fn headings(items: &[ScreenItem]) -> Vec<&str> {
    items
        .iter()
        .filter_map(|item| match item {
            ScreenItem::Heading(title) => Some(*title),
            _ => None,
        })
        .collect()
}

fn controls(items: &[ScreenItem]) -> Vec<usize> {
    items
        .iter()
        .filter_map(|item| match item {
            ScreenItem::Control { entry, .. } => Some(*entry),
            _ => None,
        })
        .collect()
}

#[test]
fn rendering_the_full_screen_from_a_default_snapshot_does_not_panic() {
    let snapshot = UiSnapshot::default();
    let items = screen_items(&snapshot);
    assert_eq!(
        items[0],
        ScreenItem::Meter { title: "Input", reading: MeterReading::silent() }
    );
    assert!(items.contains(&ScreenItem::Label("(no model loaded)".to_string())));
    assert!(items.contains(&ScreenItem::Label("(no IR loaded)".to_string())));
    assert!(items.contains(&ScreenItem::Meter {
        title: "Output",
        reading: MeterReading::silent()
    }));
    assert!(status_labels(&snapshot).is_empty());
    let intents = preset_controls("", false, false, &snapshot.presets, &Vec::new());
    assert!(intents.is_empty());
}

#[test]
fn every_registry_key_is_covered_by_a_section_prefix_or_a_named_single_control() {
    let prefixes = ["trim.", "gate.", "nam.", "ir.", "eq.", "out."];
    let named = ["global.bypass", "global.output_ceiling_db", "global.independent_channels"];
    for descriptor in registry() {
        let covered = prefixes.iter().any(|p| descriptor.key.starts_with(p))
            || named.contains(&descriptor.key);
        assert!(covered, "{} is not rendered by any section", descriptor.key);
    }
}

#[test]
fn every_control_is_on_the_screen_once_at_its_value() {
    let mut snapshot = UiSnapshot::default();
    let gain = Single::from_bits((-6.0f32).to_bits());
    snapshot.params.set("trim.gain_db", gain);
    snapshot.independent_channels_relevant = true;
    let items = screen_items(&snapshot);
    let mut shown = controls(&items);
    assert!(items.contains(&ScreenItem::Control { entry: 0, value: gain }));
    shown.sort();
    assert_eq!(shown, (0..registry().len()).collect::<Vec<usize>>());
}

#[test]
fn the_control_for_independent_channels_is_hidden_where_it_has_nothing_to_do() {
    let snapshot = UiSnapshot::default();
    let independent = position("global.independent_channels").unwrap();
    let shown = controls(&screen_items(&snapshot));
    assert!(!shown.contains(&independent));
    assert_eq!(shown.len(), registry().len() - 1);
}

#[test]
fn the_audio_mode_label_names_both_the_granted_mode_and_the_device() {
    let label = |share_mode| {
        audio_mode_label(&AudioModeStatus {
            share_mode,
            device_name: "Scarlett 2i2".to_string(),
        })
    };
    let exclusive = label(AudioShareMode::Exclusive);
    assert!(exclusive.contains("Exclusive"), "{exclusive}");
    assert!(exclusive.contains("Scarlett 2i2"), "{exclusive}");
    assert_eq!(exclusive, "Exclusive mode \u{2014} Scarlett 2i2");
    let shared = label(AudioShareMode::Shared);
    assert!(shared.contains("Shared"), "{shared}");
    assert!(!shared.contains("Exclusive"), "{shared}");
}

#[test]
fn rendering_with_an_audio_mode_indicator_present_does_not_panic() {
    let snapshot = UiSnapshot {
        audio_mode: Some(AudioModeStatus {
            share_mode: AudioShareMode::Exclusive,
            device_name: "Scarlett 2i2".to_string(),
        }),
        ..UiSnapshot::default()
    };
    assert_eq!(status_labels(&snapshot), ["Exclusive mode \u{2014} Scarlett 2i2"]);
}

/// A host that counts how often it is asked.
struct CountingHost {
    snapshots: u32,
    dispatched: Vec<UiIntent>,
}

impl UiHost for CountingHost {
    fn snapshot(&mut self) -> UiSnapshot {
        self.snapshots += 1;
        UiSnapshot::default()
    }

    fn dispatch(&mut self, intent: UiIntent) {
        self.dispatched.push(intent);
    }
}

#[test]
fn frame_fetches_exactly_one_snapshot_and_requests_a_repaint() {
    let mut ui = NamirUi::new(CountingHost { snapshots: 0, dispatched: Vec::new() });
    let renderings = ui.frame(0, |view: ViewState, _snapshot: UiSnapshot, renderings: u32| {
        (view, Vec::new(), renderings + 1)
    });
    assert_eq!(renderings, 1);
    assert_eq!(ui.host.snapshots, 1);
    assert!(ui.host.dispatched.is_empty());
}

#[test]
fn dispatched_intents_from_a_frame_reach_the_host() {
    let mut ui = NamirUi::new(RecordingHost::new());
    let value = Single::from_bits((-50.0f32).to_bits());
    ui.frame((), |mut view: ViewState, snapshot: UiSnapshot, desk: ()| {
        assert_eq!(snapshot.params.get("gate.threshold_db").map(|v| v.bits), Some(0xC28C_0000));
        view.preset_name.push('x');
        let set = UiIntent::SetParam { key: "gate.threshold_db", value };
        (view, vec![set, UiIntent::RescanLibraryRequested], desk)
    });
    assert_eq!(
        ui.host.dispatched,
        [
            UiIntent::SetParam { key: "gate.threshold_db", value },
            UiIntent::RescanLibraryRequested,
        ]
    );
    assert_eq!(ui.view.preset_name, "x");
    ui.frame((), |view: ViewState, _snapshot: UiSnapshot, desk: ()| {
        assert_eq!(view.preset_name, "x");
        (view, Vec::new(), desk)
    });
    assert_eq!(ui.host.dispatched.len(), 2);
}

#[test]
fn naming_a_preset_and_pressing_save_dispatches_a_save_intent() {
    let presets = Vec::new();
    assert!(preset_controls("Crunch", false, false, &presets, &Vec::new()).is_empty());
    assert_eq!(
        preset_controls("Crunch", true, false, &presets, &Vec::new()),
        [UiIntent::SavePreset { name: "Crunch".to_string() }]
    );
    assert_eq!(
        preset_controls(" \u{a0}Crunch Rhythm\t", true, false, &presets, &Vec::new()),
        [UiIntent::SavePreset { name: "Crunch Rhythm".to_string() }]
    );
}

#[test]
fn the_unsaved_changes_flag_is_shown_beside_a_control_that_can_resolve_it() {
    let snapshot = UiSnapshot { unsaved_changes: true, ..UiSnapshot::default() };
    assert_eq!(status_labels(&snapshot), ["* unsaved changes"]);
    assert!(preset_row("Crunch", &snapshot.presets).save_enabled);
}

#[test]
fn saving_with_an_empty_name_dispatches_nothing() {
    let presets = Vec::new();
    for name in ["", "   ", "\u{2003}\n"] {
        assert!(preset_controls(name, true, true, &presets, &Vec::new()).is_empty());
        assert!(!preset_row(name, &presets).save_enabled);
    }
}

#[test]
fn pressing_enter_in_the_name_box_saves_under_that_name() {
    assert_eq!(
        preset_controls("Crunch", false, true, &Vec::new(), &Vec::new()),
        [UiIntent::SavePreset { name: "Crunch".to_string() }]
    );
}

#[test]
fn with_no_presets_listed_the_recall_control_says_so_and_dispatches_nothing() {
    let row = preset_row("", &Vec::new());
    assert_eq!(row.recall_text, "No saved presets");
    assert!(!row.recall_enabled);
    let row = preset_row("", &vec![preset("Clean", "/presets/clean.namirpreset")]);
    assert_eq!(row.recall_text, "Recall preset");
    assert!(row.recall_enabled);
}

#[test]
fn recalling_a_preset_dispatches_that_presets_own_path() {
    let presets = vec![
        preset("Clean", "/presets/clean.namirpreset"),
        preset("Crunch", "/presets/crunch.namirpreset"),
    ];
    assert_eq!(
        preset_controls("", false, false, &presets, &vec![false, true]),
        [UiIntent::RecallPreset { path: "/presets/crunch.namirpreset".to_string() }]
    );
    // A save comes before a recall of the same frame.
    assert_eq!(
        preset_controls("New", true, false, &presets, &vec![true, false]),
        [
            UiIntent::SavePreset { name: "New".to_string() },
            UiIntent::RecallPreset { path: "/presets/clean.namirpreset".to_string() },
        ]
    );
}

#[test]
fn each_section_heading_is_painted_exactly_once() {
    let items = screen_items(&UiSnapshot::default());
    assert_eq!(
        headings(&items),
        ["Input Trim", "Gate", "Model", "NAM", "Impulse Response", "EQ"]
    );
    for title in ["Input", "Output"] {
        let meters = items
            .iter()
            .filter(|item| matches!(item, ScreenItem::Meter { title: t, .. } if *t == title))
            .count();
        assert_eq!(meters, 1);
        assert!(!headings(&items).contains(&title));
    }
}

#[test]
fn the_default_window_settings_ask_for_an_srgb_framebuffer() {
    assert!(egui_baseview::EguiWindowSettings::default().graphics.gl_config.srgb);
    let settings = WindowSettings::standard();
    assert!(settings.srgb);
    assert_eq!((settings.width, settings.height), (960, 640));
}

#[test]
fn a_window_that_opens_first_try_is_opened_once_and_unmodified() {
    let (opened, attempts) = open_with_srgb_fallback(
        WindowSettings::standard(),
        Vec::new(),
        |settings: WindowSettings, mut attempts: Vec<bool>| {
            attempts.push(settings.srgb);
            (Some("the window"), attempts)
        },
    );
    assert_eq!(opened, Some("the window"));
    assert_eq!(attempts, [true]);
}

#[test]
fn a_window_that_fails_to_open_is_retried_once_without_srgb() {
    let (opened, attempts) = open_with_srgb_fallback(
        WindowSettings::standard(),
        Vec::new(),
        |settings: WindowSettings, mut attempts: Vec<WindowSettings>| {
            attempts.push(settings);
            (if settings.srgb { None } else { Some("the window") }, attempts)
        },
    );
    assert_eq!(opened, Some("the window"));
    assert_eq!(attempts[0], WindowSettings::standard());
    assert_eq!(attempts[1], WindowSettings { srgb: false, ..WindowSettings::standard() });
    assert_eq!(attempts.len(), 2);
}

#[test]
fn a_failure_that_survives_the_retry_is_not_swallowed() {
    let (opened, attempts): (Option<()>, u32) = open_with_srgb_fallback(
        WindowSettings::standard(),
        0,
        |_settings: WindowSettings, attempts: u32| (None, attempts + 1),
    );
    assert!(opened.is_none());
    assert_eq!(attempts, 2);
}

#[test]
fn a_host_shared_across_attempts_is_the_same_host_both_times() {
    let (_, host) = open_with_srgb_fallback(
        WindowSettings::standard(),
        RecordingHost::new(),
        |settings: WindowSettings, mut shared: RecordingHost| {
            let _ = shared.snapshot();
            let id = shared.dispatched.len() as u64 + 1;
            shared.dispatch(UiIntent::DismissNotice { id });
            (if settings.srgb { None } else { Some(()) }, shared)
        },
    );
    assert_eq!(
        host.dispatched,
        [UiIntent::DismissNotice { id: 1 }, UiIntent::DismissNotice { id: 2 }]
    );
}

#[test]
fn library_snapshot_default_is_an_empty_index_with_no_scan() {
    let snapshot = LibrarySnapshot::default();
    assert_eq!(snapshot.index_len, 0);
    assert!(snapshot.scan.is_none());
}

#[test]
fn ui_snapshot_default_matches_param_values_defaults() {
    let snapshot = UiSnapshot::default();
    assert!(snapshot.params.same(&ParamValues::defaults()));
    assert!(snapshot.loaded_model_name.is_none());
    assert!(snapshot.loaded_ir_name.is_none());
    assert!(snapshot.audio_mode.is_none());
    assert!(!snapshot.unsaved_changes);
    assert!(snapshot.notices.is_empty());
}

#[test]
fn a_default_snapshot_claims_no_share_mode_rather_than_claiming_shared() {
    assert_eq!(UiSnapshot::default().audio_mode, None);
    assert_ne!(
        UiSnapshot::default().audio_mode,
        Some(AudioModeStatus {
            share_mode: AudioShareMode::Shared,
            device_name: String::new(),
        })
    );
}

#[test]
fn recording_host_records_every_dispatched_intent_in_order() {
    let mut host = RecordingHost::new();
    let value = Single::from_bits(3.0f32.to_bits());
    host.dispatch(UiIntent::RescanLibraryRequested);
    host.dispatch(UiIntent::SetParam { key: "trim.gain_db", value });
    assert_eq!(
        host.dispatched,
        [
            UiIntent::RescanLibraryRequested,
            UiIntent::SetParam { key: "trim.gain_db", value },
        ]
    );
}
