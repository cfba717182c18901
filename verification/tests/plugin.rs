//! The plugin's side of its screen.

use std::cell::RefCell;

use namir::clap_host::{
    ClapAction, ClapUiHost, InstanceView, MAX_DRAIN_BATCHES, TELEMETRY_BATCH,
};
use namir::meters::{telemetry_input_peak_id, telemetry_output_peak_id};
use namir::param::{ParamChange, ParamId, TelemetryEntry};
use namir::single::Single;
use namir::state::{FileRef, ParamValues};
use namir::ui_host::{ErrorCode, LibrarySnapshot, PresetSummary, UiIntent, UiNotice, UiSnapshot};

const GAIN: &str = "trim.gain_db";

fn single(x: f32) -> Single {
    Single::from_bits(x.to_bits())
}

fn number(x: Single) -> f32 {
    f32::from_bits(x.bits)
}

/// A telemetry ring: what the engine published and nobody has read yet.
#[derive(Default)]
struct Ring {
    waiting: RefCell<Vec<TelemetryEntry>>,
}

impl Ring {
    fn publish(&self, id: u32, value: f32) {
        self.waiting.borrow_mut().push(TelemetryEntry { id, value: single(value) });
    }

    fn batch(&self) -> Vec<TelemetryEntry> {
        let mut waiting = self.waiting.borrow_mut();
        let n = waiting.len().min(TELEMETRY_BATCH);
        waiting.drain(..n).collect()
    }
}

/// An instance as the shell keeps it, and the screen's host.
struct Plugin {
    host: ClapUiHost,
    params: ParamValues,
    dirty: bool,
    gui_pending: bool,
    notices: Vec<(u64, String)>,
}

impl Plugin {
    fn new() -> Self {
        Plugin {
            host: ClapUiHost::new(),
            params: ParamValues::defaults(),
            dirty: false,
            gui_pending: false,
            notices: Vec::new(),
        }
    }

    fn frame(&mut self, generation: u64, ring: Option<&Ring>) -> UiSnapshot {
        self.host.rebind_telemetry_if_stale(generation);
        self.host.drain_meters(ring, |r: &Ring| (r.batch(), r));
        self.host.snapshot(InstanceView {
            params: self.params.copy(),
            nam: None,
            ir: None,
            library: LibrarySnapshot::default(),
            presets: Vec::new(),
            dirty: self.dirty,
            notices: self
                .notices
                .iter()
                .map(|(id, detail)| UiNotice {
                    id: *id,
                    code: ErrorCode::Catalogue(0),
                    detail: detail.clone(),
                })
                .collect(),
        })
    }

    fn dispatch(&mut self, intent: UiIntent) -> Vec<ClapAction> {
        let actions = self.host.dispatch(intent, false, 0);
        for action in &actions {
            match action {
                ClapAction::StoreFromGui { key, value } => {
                    self.params.set(key, *value);
                    self.gui_pending = true;
                }
                ClapAction::DismissNotice(gone) => self.notices.retain(|(id, _)| id != gone),
                ClapAction::MarkDirty => self.dirty = true,
                _ => {}
            }
        }
        actions
    }
}

fn output(snapshot: &UiSnapshot) -> f32 {
    number(snapshot.output_meter.peak_db)
}

fn input(snapshot: &UiSnapshot) -> f32 {
    number(snapshot.input_meter.peak_db)
}

#[test]
fn the_output_meter_follows_the_signal_down_as_well_as_up() {
    let (mut p, ring) = (Plugin::new(), Ring::default());
    ring.publish(telemetry_output_peak_id(0), -0.5);
    assert_eq!(output(&p.frame(1, Some(&ring))), -0.5);
    ring.publish(telemetry_output_peak_id(0), -42.0);
    assert_eq!(output(&p.frame(1, Some(&ring))), -42.0);
}

#[test]
fn the_output_meter_takes_the_louder_channel_within_one_drain() {
    let (mut p, ring) = (Plugin::new(), Ring::default());
    ring.publish(telemetry_output_peak_id(0), -30.0);
    ring.publish(telemetry_output_peak_id(1), -12.0);
    assert_eq!(output(&p.frame(1, Some(&ring))), -12.0);
    ring.publish(telemetry_output_peak_id(0), -30.0);
    ring.publish(telemetry_output_peak_id(1), -31.0);
    assert_eq!(output(&p.frame(1, Some(&ring))), -30.0);
}

#[test]
fn the_input_meter_follows_the_signal_down_too() {
    let (mut p, ring) = (Plugin::new(), Ring::default());
    ring.publish(telemetry_input_peak_id(), -3.0);
    assert_eq!(input(&p.frame(1, Some(&ring))), -3.0);
    ring.publish(telemetry_input_peak_id(), -55.0);
    assert_eq!(input(&p.frame(1, Some(&ring))), -55.0);
}

#[test]
fn a_frame_that_drains_nothing_holds_the_previous_reading() {
    let (mut p, ring) = (Plugin::new(), Ring::default());
    ring.publish(telemetry_output_peak_id(0), -9.0);
    ring.publish(telemetry_input_peak_id(), -6.0);
    assert_eq!(output(&p.frame(1, Some(&ring))), -9.0);
    let snapshot = p.frame(1, Some(&ring));
    assert_eq!(output(&snapshot), -9.0);
    assert_eq!(input(&snapshot), -6.0);
}

#[test]
fn a_host_with_no_telemetry_reads_silent_forever() {
    let mut p = Plugin::new();
    assert_eq!(output(&p.frame(0, None)), f32::NEG_INFINITY);
    assert_eq!(input(&p.frame(0, None)), f32::NEG_INFINITY);
}

#[test]
fn an_editor_opened_before_the_first_activation_still_gets_meters() {
    let mut p = Plugin::new();
    assert_eq!(output(&p.frame(0, None)), f32::NEG_INFINITY);
    let ring = Ring::default();
    ring.publish(telemetry_output_peak_id(0), -7.5);
    assert!(p.host.rebind_telemetry_if_stale(1));
    assert!(!p.host.rebind_telemetry_if_stale(1));
    assert_eq!(output(&p.frame(1, Some(&ring))), -7.5);
}

#[test]
fn a_reactivation_rebinds_the_meters_to_the_new_ring() {
    let (mut p, first) = (Plugin::new(), Ring::default());
    first.publish(telemetry_output_peak_id(0), -6.0);
    assert_eq!(output(&p.frame(1, Some(&first))), -6.0);
    assert_eq!(output(&p.frame(2, None)), f32::NEG_INFINITY);
    let second = Ring::default();
    second.publish(telemetry_output_peak_id(0), -21.0);
    assert_eq!(output(&p.frame(3, Some(&second))), -21.0);
    first.publish(telemetry_output_peak_id(0), -1.0);
    assert_eq!(output(&p.frame(3, Some(&second))), -21.0);
}

#[test]
fn a_gui_param_change_is_queued_for_the_host_but_host_automation_is_not() {
    let mut p = Plugin::new();
    assert!(!p.gui_pending);
    p.dispatch(UiIntent::SetParam { key: GAIN, value: single(3.0) });
    assert!(p.gui_pending);
    p.gui_pending = false;
    p.params.set(GAIN, single(4.0));
    assert!(!p.gui_pending);
}

#[test]
fn a_reset_to_default_is_queued_for_the_host_as_well() {
    let mut p = Plugin::new();
    p.dispatch(UiIntent::ResetParamToDefault { key: GAIN });
    assert!(p.gui_pending);
}

#[test]
fn recalling_a_preset_does_not_mark_the_instance_dirty() {
    let mut p = Plugin::new();
    assert!(!p.dirty);
    let path = "no-such-preset.namirpreset".to_string();
    let actions = p.dispatch(UiIntent::RecallPreset { path: path.clone() });
    assert_eq!(actions, [ClapAction::RecallPreset(path)]);
    assert!(!p.dirty);
    p.dispatch(UiIntent::SavePreset { name: "Clean".to_string() });
    assert!(!p.dirty);
}

#[test]
fn snapshot_reflects_the_mirror() {
    let mut p = Plugin::new();
    p.params.set(GAIN, single(2.5));
    assert_eq!(p.frame(0, None).params.get(GAIN), Some(single(2.5)));
}

#[test]
fn dispatching_set_param_updates_the_mirror_and_marks_dirty() {
    let mut p = Plugin::new();
    assert!(!p.dirty);
    let actions = p.dispatch(UiIntent::SetParam { key: GAIN, value: single(4.0) });
    let change = ParamChange { id: ParamId::from_key(GAIN), value: single(4.0) };
    assert!(actions.contains(&ClapAction::SubmitParam(change)));
    assert_eq!(p.params.get(GAIN), Some(single(4.0)));
    assert!(p.dirty);
}

#[test]
fn dispatching_reset_to_default_restores_the_registry_default() {
    let mut p = Plugin::new();
    p.params.set(GAIN, single(9.0));
    p.dispatch(UiIntent::ResetParamToDefault { key: GAIN });
    assert_eq!(p.params.get(GAIN), Some(single(0.0)));
    p.params.set("gate.enabled", single(0.0));
    p.dispatch(UiIntent::ResetParamToDefault { key: "gate.enabled" });
    assert_eq!(p.params.get("gate.enabled"), Some(single(1.0)));
}

#[test]
fn dismiss_notice_removes_it_from_the_next_snapshot() {
    let mut p = Plugin::new();
    p.notices.push((7, "detail".to_string()));
    let id = p.frame(0, None).notices[0].id;
    p.dispatch(UiIntent::DismissNotice { id });
    assert!(p.frame(0, None).notices.is_empty());
}

#[test]
fn an_unknown_param_key_from_reset_is_ignored_rather_than_panicking() {
    let mut p = Plugin::new();
    let actions = p.dispatch(UiIntent::ResetParamToDefault { key: "not.a.real.key" });
    assert!(actions.is_empty());
    assert!(!p.dirty);
}

#[test]
fn one_frame_reads_until_a_batch_is_short_but_not_forever() {
    let (mut p, ring) = (Plugin::new(), Ring::default());
    for i in 0..TELEMETRY_BATCH + 1 {
        ring.publish(telemetry_input_peak_id(), -(i as f32));
    }
    assert_eq!(input(&p.frame(1, Some(&ring))), -(TELEMETRY_BATCH as f32));
    for i in 0..MAX_DRAIN_BATCHES * TELEMETRY_BATCH + 1 {
        ring.publish(telemetry_input_peak_id(), -(i as f32));
    }
    let last = (MAX_DRAIN_BATCHES * TELEMETRY_BATCH - 1) as f32;
    assert_eq!(input(&p.frame(1, Some(&ring))), -last);
    assert_eq!(input(&p.frame(1, Some(&ring))), -last - 1.0);
}

#[test]
fn a_snapshot_shows_the_instance_and_no_device_of_its_own() {
    let host = ClapUiHost::new();
    let snapshot = host.snapshot(InstanceView {
        params: ParamValues::defaults(),
        nam: Some(FileRef { display_name: "plexi.nam".to_string(), identity: 1 }),
        ir: Some(FileRef { display_name: "4x12.wav".to_string(), identity: 2 }),
        library: LibrarySnapshot { index_len: 5, scan: None },
        presets: vec![PresetSummary { name: "A".to_string(), path: "a".to_string() }],
        dirty: true,
        notices: Vec::new(),
    });
    assert_eq!(snapshot.loaded_model_name.as_deref(), Some("plexi.nam"));
    assert_eq!(snapshot.loaded_ir_name.as_deref(), Some("4x12.wav"));
    assert_eq!(snapshot.library.index_len, 5);
    assert_eq!(snapshot.presets[0].path, "a");
    assert!(snapshot.unsaved_changes);
    assert!(snapshot.audio_mode.is_none());
    assert!(snapshot.independent_channels_relevant);
    assert_eq!(snapshot.output_meter.rms_db, snapshot.output_meter.peak_db);
}

#[test]
fn every_other_request_becomes_one_job_and_only_a_load_leaves_the_mark() {
    let requests = [
        (UiIntent::RescanLibraryRequested, ClapAction::StartScan),
        (UiIntent::CancelScanRequested, ClapAction::CancelScan),
        (UiIntent::DismissNotice { id: 3 }, ClapAction::DismissNotice(3)),
    ];
    let mut p = Plugin::new();
    for (intent, action) in requests {
        assert_eq!(p.dispatch(intent), [action]);
    }
    assert!(!p.dirty);
    assert_eq!(
        p.dispatch(UiIntent::LoadLibraryEntry("a.nam".to_string())),
        [ClapAction::LoadLibraryEntry("a.nam".to_string()), ClapAction::MarkDirty]
    );
    assert!(p.dirty);
}

#[test]
fn saving_over_a_preset_takes_two_presses_of_the_same_name() {
    let mut host = ClapUiHost::new();
    let save = |name: &str| UiIntent::SavePreset { name: name.to_string() };
    let exists = |name: &str| [ClapAction::ReportPresetExists(name.to_string())];
    let saved = |name: &str| [ClapAction::SavePreset(name.to_string())];
    assert_eq!(host.dispatch(save("New"), false, 0), saved("New"));
    assert_eq!(host.dispatch(save("Lead"), true, 1_000), exists("Lead"));
    // Another name is another question, and takes the place of the first.
    assert_eq!(host.dispatch(save("Clean"), true, 2_000), exists("Clean"));
    assert_eq!(host.dispatch(save("Lead"), true, 3_000), exists("Lead"));
    // What is not a save leaves the question open.
    host.dispatch(UiIntent::RescanLibraryRequested, false, 4_000);
    assert_eq!(host.dispatch(save("Lead"), true, 32_999), saved("Lead"));
    // The confirmation is used up, and does not outlast its window.
    assert_eq!(host.dispatch(save("Lead"), true, 33_000), exists("Lead"));
    assert_eq!(host.dispatch(save("Lead"), true, 63_000), exists("Lead"));
    assert_eq!(host.dispatch(save("Lead"), true, 63_001), saved("Lead"));
}
