//! The standalone application's side of the screen, frame by frame.

use namir::app_host::{
    stream_failure_code, thread_priority_detail, AppAction, AppEvent, AppHost, Direction,
    LoadOutcomeSummary, RecallOutcomeSummary, Report, SaveTarget, StreamFailure,
    StreamFailureWatch, Target, ThreadPriorityOutcome, MAX_NOTICES, OVERWRITE_CONFIRM_WINDOW_MS,
    PRESET_LISTING_MAX_AGE_MS, STREAM_FAILURE_DRAIN_BATCH,
};
use namir::meters::{
    telemetry_input_average_id, telemetry_input_peak_id, telemetry_output_average_id,
    telemetry_output_peak_id, MeterReading,
};
use namir::param::{ParamChange, ParamId, TelemetryEntry};
use namir::single::Single;
use namir::state::{FileRef, ParamValues, State};
use namir::ui_host::{
    AudioModeStatus, AudioShareMode, ErrorCode, HostCode, PresetSummary, ScanProgress, Severity,
    ShareMode, UiIntent, UiNotice, UiSnapshot,
};

const GAIN: &str = "trim.gain_db";

fn single(x: f32) -> Single {
    Single::from_bits(x.to_bits())
}

fn number(x: Single) -> f32 {
    f32::from_bits(x.bits)
}

/// A host with its settings, its clock and a directory of presets that only remembers names.
struct Session {
    host: AppHost,
    state: State,
    now_ms: u64,
    files: Vec<String>,
}

/// What the platform makes of a backend's own message.
fn describe(failure: &StreamFailure) -> (bool, String) {
    match failure {
        StreamFailure::DeviceLost => (false, "the device is gone".to_string()),
        StreamFailure::Xrun => (false, "an underrun".to_string()),
        StreamFailure::Other(said) => (said.contains("-2004287450"), said.clone()),
    }
}

impl Session {
    fn new() -> Self {
        Session::with_mode(None)
    }

    fn with_mode(mode: Option<AudioModeStatus>) -> Self {
        let state = State::defaults();
        let host = AppHost::new(&state, mode);
        Session { host, state, now_ms: 1_000_000, files: Vec::new() }
    }

    fn frame(&mut self, events: Vec<AppEvent>) -> UiSnapshot {
        let entries = Vec::new();
        self.host.snapshot(events, &self.state, describe, None, self.now_ms, &entries, 0)
    }

    fn dispatch(&mut self, intent: UiIntent) -> Vec<AppAction> {
        let save = match &intent {
            UiIntent::SavePreset { name } => {
                let name = name.trim();
                let path = if name.contains('/') {
                    None
                } else {
                    Some(format!("presets/{name}.namirpreset"))
                };
                let exists = path.as_ref().is_some_and(|p| self.files.contains(p));
                SaveTarget { path, exists }
            }
            _ => SaveTarget { path: None, exists: false },
        };
        self.host.dispatch(intent, &mut self.state, save, self.now_ms);
        let actions = self.host.take_actions();
        for action in &actions {
            if let AppAction::SaveState(path) = action {
                if !self.files.contains(path) {
                    self.files.push(path.clone());
                }
            }
        }
        actions
    }

    fn save(&mut self, name: &str) -> Vec<AppAction> {
        self.dispatch(UiIntent::SavePreset { name: name.to_string() })
    }

    fn listing(&self) -> AppEvent {
        AppEvent::PresetsListed(
            self.files
                .iter()
                .map(|path| PresetSummary {
                    name: path
                        .trim_start_matches("presets/")
                        .trim_end_matches(".namirpreset")
                        .to_string(),
                    path: path.clone(),
                })
                .collect(),
        )
    }
}

fn set(key: &'static str, value: f32) -> UiIntent {
    UiIntent::SetParam { key, value: single(value) }
}

fn host_code(notice: &UiNotice) -> Option<HostCode> {
    match notice.code {
        ErrorCode::Host(code) => Some(code),
        _ => None,
    }
}

fn loaded() -> LoadOutcomeSummary {
    LoadOutcomeSummary::Loaded { warning: None }
}

#[test]
fn a_fresh_host_produces_a_default_looking_snapshot() {
    let mut session = Session::new();
    let snapshot = session.frame(Vec::new());
    assert!(snapshot.loaded_model_name.is_none());
    assert!(snapshot.loaded_ir_name.is_none());
    assert!(snapshot.audio_mode.is_none());
    assert!(!snapshot.unsaved_changes);
    assert!(snapshot.notices.is_empty());
    assert!(session.host.take_actions().is_empty());
}

#[test]
fn the_granted_share_mode_reaches_every_snapshot_not_only_the_first() {
    let granted = || AudioModeStatus {
        share_mode: AudioShareMode::Exclusive,
        device_name: "Scarlett 2i2".to_string(),
    };
    let mut session = Session::with_mode(Some(granted()));
    assert_eq!(session.frame(Vec::new()).audio_mode, Some(granted()));
    assert_eq!(session.frame(Vec::new()).audio_mode, Some(granted()));
}

#[test]
fn the_share_mode_conversion_across_the_ui_seam_preserves_which_mode_it_is() {
    assert_eq!(AudioShareMode::from(ShareMode::Exclusive), AudioShareMode::Exclusive);
    assert_eq!(AudioShareMode::from(ShareMode::Shared), AudioShareMode::Shared);
}

#[test]
fn set_param_intent_reaches_the_audio_thread() {
    let mut session = Session::new();
    let actions = session.dispatch(set(GAIN, -24.0));
    let change = ParamChange { id: ParamId::from_key(GAIN), value: single(-24.0) };
    assert_eq!(actions, [AppAction::SubmitParam(change)]);
    assert_eq!(session.frame(Vec::new()).params.get(GAIN), Some(single(-24.0)));
}

#[test]
fn reset_param_to_default_restores_the_descriptor_default() {
    let mut session = Session::new();
    session.dispatch(set(GAIN, -30.0));
    let actions = session.dispatch(UiIntent::ResetParamToDefault { key: GAIN });
    let change = ParamChange { id: ParamId::from_key(GAIN), value: single(0.0) };
    assert_eq!(actions, [AppAction::SubmitParam(change)]);
    let snapshot = session.frame(Vec::new());
    assert_eq!(snapshot.params.get(GAIN), ParamValues::defaults().get(GAIN));
}

#[test]
fn a_value_outside_the_range_is_stored_at_its_edge_and_sent_as_it_was_given() {
    let mut session = Session::new();
    let actions = session.dispatch(set(GAIN, -30.0));
    let change = ParamChange { id: ParamId::from_key(GAIN), value: single(-30.0) };
    assert_eq!(actions, [AppAction::SubmitParam(change)]);
    assert_eq!(session.frame(Vec::new()).params.get(GAIN), Some(single(-24.0)));
}

#[test]
fn an_unknown_key_changes_nothing() {
    let mut session = Session::new();
    assert!(session.dispatch(set("no.such_key", 1.0)).is_empty());
    assert!(session.dispatch(UiIntent::ResetParamToDefault { key: "no.such_key" }).is_empty());
    assert!(!session.frame(Vec::new()).unsaved_changes);
}

#[test]
fn saving_clears_unsaved_changes() {
    let mut session = Session::new();
    session.dispatch(set(GAIN, -12.0));
    assert!(session.frame(Vec::new()).unsaved_changes);
    session.host.save_state("preset.namirpreset".to_string());
    assert_eq!(
        session.host.take_actions(),
        [AppAction::SaveState("preset.namirpreset".to_string())]
    );
    assert!(session.frame(Vec::new()).unsaved_changes);
    let failed = AppEvent::StateSaved {
        path: "preset.namirpreset".to_string(),
        error: Some("disk full".to_string()),
    };
    let snapshot = session.frame(vec![failed]);
    assert!(snapshot.unsaved_changes);
    assert_eq!(host_code(&snapshot.notices[0]), Some(HostCode::StateSaveFailed));
    assert_eq!(snapshot.notices[0].detail, "preset.namirpreset: disk full");
    let saved = AppEvent::StateSaved { path: "preset.namirpreset".to_string(), error: None };
    assert!(!session.frame(vec![saved]).unsaved_changes);
}

#[test]
fn a_load_is_asked_of_the_worker() {
    let mut session = Session::new();
    session.host.load_state("preset.namirpreset".to_string());
    assert_eq!(
        session.host.take_actions(),
        [AppAction::LoadState("preset.namirpreset".to_string())]
    );
}

#[test]
fn a_load_failure_surfaces_as_a_notice() {
    let mut session = Session::new();
    let actions = session.dispatch(UiIntent::LoadLibraryEntry("dir/bad.nam".to_string()));
    assert_eq!(actions, [AppAction::LoadLibraryEntry("dir/bad.nam".to_string())]);
    let failed = |detail: &str| AppEvent::LoadFinished {
        target: Target::Nam,
        source: "dir/bad.nam".to_string(),
        outcome: LoadOutcomeSummary::Failed(Report {
            code: ErrorCode::Host(HostCode::LoadFailed),
            detail: detail.to_string(),
        }),
    };
    let snapshot = session.frame(vec![failed("not a model")]);
    assert_eq!(snapshot.notices.len(), 1);
    assert_eq!(snapshot.notices[0].detail, "dir/bad.nam: not a model");
    assert!(snapshot.loaded_model_name.is_none());
    // A detail that names the file already is left as it is.
    let snapshot = session.frame(vec![failed("dir/bad.nam is not a model")]);
    assert_eq!(snapshot.notices[1].detail, "dir/bad.nam is not a model");
    let lost = AppEvent::LoadFinished {
        target: Target::Ir,
        source: "dir/cab.wav".to_string(),
        outcome: LoadOutcomeSummary::NotDelivered,
    };
    let snapshot = session.frame(vec![lost]);
    assert_eq!(host_code(&snapshot.notices[2]), Some(HostCode::LoadNotDelivered));
    assert_eq!(snapshot.notices[2].detail, "dir/cab.wav");
}

#[test]
fn a_loaded_file_is_shown_by_its_last_part() {
    let mut session = Session::new();
    let finished = |target, source: &str, outcome| AppEvent::LoadFinished {
        target,
        source: source.to_string(),
        outcome,
    };
    let warned = LoadOutcomeSummary::Loaded {
        warning: Some(Report { code: ErrorCode::Catalogue(7), detail: "no metadata".to_string() }),
    };
    let snapshot = session.frame(vec![
        finished(Target::Nam, "models/plexi.nam", warned),
        finished(Target::Ir, "cabs/4x12.wav", loaded()),
    ]);
    assert_eq!(snapshot.loaded_model_name.as_deref(), Some("plexi.nam"));
    assert_eq!(snapshot.loaded_ir_name.as_deref(), Some("4x12.wav"));
    assert_eq!(snapshot.notices.len(), 1);
    assert_eq!(snapshot.notices[0].code, ErrorCode::Catalogue(7));
    let snapshot = session.frame(vec![
        finished(Target::Nam, "..", loaded()),
        finished(Target::Ir, "", LoadOutcomeSummary::Unloaded),
    ]);
    assert_eq!(snapshot.loaded_model_name.as_deref(), Some(".."));
    assert!(snapshot.loaded_ir_name.is_none());
}

#[test]
fn the_hoisted_output_telemetry_ids_match_their_keys() {
    for ch in 0..2usize {
        assert_eq!(
            telemetry_output_peak_id(ch),
            ParamId::from_key(&format!("telemetry.out.ch{ch}.peak_db")).value
        );
        assert_eq!(
            telemetry_output_average_id(ch),
            ParamId::from_key(&format!("telemetry.out.ch{ch}.average_db")).value
        );
    }
    let mut ids = [
        telemetry_input_peak_id(),
        telemetry_input_average_id(),
        telemetry_output_peak_id(0),
        telemetry_output_peak_id(1),
        telemetry_output_average_id(0),
        telemetry_output_average_id(1),
    ];
    assert_eq!(ids[2..4], [0x132B_7121, 0x4FD9_44AE]);
    ids.sort();
    assert!(ids.windows(2).all(|pair| pair[0] != pair[1]));
}

#[test]
fn a_snapshot_reads_its_params_and_its_unsaved_flag_from_one_state() {
    let mut session = Session::new();
    let saved = session.host.last_saved.params.copy();
    for i in 0..100 {
        let mut state = State::defaults();
        if i % 2 == 0 {
            state.params.set(GAIN, single(-12.0));
        }
        session.state = state;
        let snapshot = session.frame(Vec::new());
        assert_eq!(snapshot.unsaved_changes, !snapshot.params.same(&saved));
        assert_eq!(snapshot.unsaved_changes, i % 2 == 0);
    }
}

fn watched(
    session: &mut Session,
) -> (rtrb::Producer<StreamFailure>, rtrb::Producer<StreamFailure>) {
    let (input_tx, input_rx) = rtrb::RingBuffer::new(16);
    let (output_tx, output_rx) = rtrb::RingBuffer::new(16);
    session.host.watch_stream_failures(StreamFailureWatch::new(
        input_rx,
        output_rx,
        "Line (AudioBox 22VSL)".to_string(),
        "Speakers (AudioBox 22VSL)".to_string(),
    ));
    (input_tx, output_tx)
}

#[test]
fn a_failure_pushed_onto_the_ring_becomes_a_notice_naming_its_side_and_device() {
    let mut session = Session::new();
    let (mut input_tx, mut output_tx) = watched(&mut session);
    input_tx.push(StreamFailure::DeviceLost).unwrap();
    output_tx
        .push(StreamFailure::Other("the requested buffer size is not supported".to_string()))
        .unwrap();
    let notices = session.frame(Vec::new()).notices;
    assert_eq!(notices.len(), 2, "{notices:?}");
    assert_eq!(notices[0].code, ErrorCode::DeviceLost);
    assert_eq!(
        notices[0].detail,
        "input device \"Line (AudioBox 22VSL)\": the device is gone"
    );
    assert_eq!(notices[1].code, ErrorCode::StreamFailed);
    assert!(notices[1].detail.contains("output"), "{}", notices[1].detail);
    assert!(
        notices[1].detail.contains("buffer size is not supported"),
        "{}",
        notices[1].detail
    );
    assert!(!notices[1].detail.contains("Other("), "{}", notices[1].detail);
}

#[test]
fn a_device_lost_mid_stream_is_reported_and_stops_both_streams_cleanly() {
    let mut session = Session::new();
    let (_input_tx, mut output_tx) = watched(&mut session);
    session.host.hold_streams();
    assert!(session.frame(Vec::new()).notices.is_empty());
    assert!(session.host.take_actions().is_empty());

    let said = "OS Error -2004287450 (FormatMessageW() returned error 317) (os error -2004287450)";
    output_tx.push(StreamFailure::Other(said.to_string())).unwrap();
    let notices = session.frame(Vec::new()).notices;
    assert_eq!(notices.len(), 1, "{notices:?}");
    assert_eq!(notices[0].code, ErrorCode::DeviceLost);
    assert!(notices[0].detail.contains("output"), "{}", notices[0].detail);
    assert!(notices[0].detail.contains("Speakers (AudioBox 22VSL)"), "{}", notices[0].detail);
    let stops = |actions: &[AppAction]| {
        actions.iter().filter(|a| **a == AppAction::StopStreams).count()
    };
    assert_eq!(stops(&session.host.take_actions()), 1);

    output_tx.push(StreamFailure::DeviceLost).unwrap();
    session.frame(Vec::new());
    assert_eq!(stops(&session.host.take_actions()), 0);
    assert!(session.frame(Vec::new()).notices.len() <= 2);
}

#[test]
fn an_underrun_or_an_unclassified_failure_stops_nothing() {
    let mut session = Session::new();
    session.host.hold_streams();
    let event = |failure, message_means_loss| AppEvent::StreamFailed {
        failure,
        message_means_loss,
        detail: "x".to_string(),
    };
    session.frame(vec![event(StreamFailure::Xrun, true)]);
    session.frame(vec![event(StreamFailure::Other("busy".to_string()), false)]);
    let actions = session.host.take_actions();
    assert!(!actions.contains(&AppAction::StopStreams));
    assert_eq!(actions.len(), 2);
    session.frame(vec![event(StreamFailure::Other("gone".to_string()), true)]);
    assert!(session.host.take_actions().contains(&AppAction::StopStreams));
}

#[test]
fn the_code_of_a_stream_failure() {
    for means_loss in [false, true] {
        let code = |f: &StreamFailure| stream_failure_code(f, means_loss);
        assert_eq!(code(&StreamFailure::DeviceLost), ErrorCode::DeviceLost);
        assert_eq!(code(&StreamFailure::Xrun), ErrorCode::StreamFailed);
    }
    let other = StreamFailure::Other("x".to_string());
    assert_eq!(stream_failure_code(&other, true), ErrorCode::DeviceLost);
    assert_eq!(stream_failure_code(&other, false), ErrorCode::StreamFailed);
}

#[test]
fn one_frame_turns_a_bounded_number_of_failures_into_notices_input_side_first() {
    let mut session = Session::new();
    let (mut input_tx, mut output_tx) = watched(&mut session);
    output_tx.push(StreamFailure::Other("out".to_string())).unwrap();
    for i in 0..STREAM_FAILURE_DRAIN_BATCH {
        input_tx.push(StreamFailure::Other(format!("in {i}"))).unwrap();
    }
    let notices = session.frame(Vec::new()).notices;
    assert_eq!(notices.len(), STREAM_FAILURE_DRAIN_BATCH);
    assert!(notices.iter().all(|n| n.detail.starts_with("input device")));
    let notices = session.frame(Vec::new()).notices;
    assert_eq!(notices.len(), STREAM_FAILURE_DRAIN_BATCH + 1);
    assert!(notices.last().unwrap().detail.starts_with("output device"));
    let (_tx, rx) = rtrb::RingBuffer::new(1);
    let (_other_tx, other_rx) = rtrb::RingBuffer::new(1);
    let watch = StreamFailureWatch::new(rx, other_rx, "a".to_string(), "b".to_string());
    assert_eq!(watch.detail(Direction::Output, "gone"), "output device \"b\": gone");
}

#[test]
fn a_host_with_no_stream_watch_snapshots_normally() {
    let mut session = Session::new();
    assert!(session.frame(Vec::new()).notices.is_empty());
}

fn priority_frame(
    session: &mut Session,
    outcome: Option<(ThreadPriorityOutcome, Option<ErrorCode>)>,
) -> Vec<UiNotice> {
    let entries = Vec::new();
    let now = session.now_ms;
    session.host.snapshot(Vec::new(), &session.state, describe, outcome, now, &entries, 0).notices
}

#[test]
fn a_refused_thread_elevation_becomes_exactly_one_notice() {
    let mut session = Session::new();
    session.host.watch_thread_priority();
    assert!(priority_frame(&mut session, None).is_empty());
    let code = ErrorCode::Catalogue(3);
    let outcome = Some((ThreadPriorityOutcome::OsError(-2_147_024_882), Some(code)));
    let notices = priority_frame(&mut session, outcome);
    assert_eq!(notices.len(), 1, "{notices:?}");
    assert_eq!(notices[0].code, code);
    assert!(notices[0].detail.contains("-2147024882"), "{}", notices[0].detail);
    assert_eq!(priority_frame(&mut session, outcome).len(), 1);
    assert_eq!(priority_frame(&mut session, outcome).len(), 1);
    assert_eq!(session.host.take_actions().len(), 1);
}

#[test]
fn a_successful_thread_elevation_produces_no_notice() {
    let mut session = Session::new();
    session.host.watch_thread_priority();
    let outcome = Some((ThreadPriorityOutcome::Elevated, None));
    assert!(priority_frame(&mut session, outcome).is_empty());
    assert!(!session.host.thread_priority_watched);
}

#[test]
fn each_elevation_outcome_gets_a_detail_that_says_what_happened() {
    let said = |outcome| thread_priority_detail(outcome);
    assert!(said(ThreadPriorityOutcome::PermissionDenied).contains("privilege"));
    assert!(said(ThreadPriorityOutcome::OsError(-5)).contains("-5"));
    assert!(said(ThreadPriorityOutcome::Unsupported).contains("target"));
}

#[test]
fn saving_a_named_preset_writes_it_and_it_appears_in_the_next_listing() {
    let mut session = Session::new();
    session.host.watch_presets("presets".to_string());
    let actions = session.save("  Crunch Rhythm  ");
    assert_eq!(actions, [AppAction::SaveState("presets/Crunch Rhythm.namirpreset".to_string())]);
    session.frame(Vec::new());
    assert_eq!(
        session.host.take_actions(),
        [AppAction::ListPresets("presets".to_string())]
    );
    let listing = session.listing();
    let snapshot = session.frame(vec![listing]);
    assert_eq!(snapshot.presets.len(), 1);
    assert_eq!(snapshot.presets[0].name, "Crunch Rhythm");
    assert_eq!(snapshot.presets[0].path, "presets/Crunch Rhythm.namirpreset");
    assert!(snapshot.notices.is_empty(), "{:?}", snapshot.notices);
}

#[test]
fn a_preset_name_that_could_escape_the_directory_is_refused_with_a_notice() {
    let mut session = Session::new();
    session.host.watch_presets("presets".to_string());
    let actions = session.save("../escaped");
    assert!(!actions.iter().any(|a| matches!(a, AppAction::SaveState(_))));
    let snapshot = session.frame(Vec::new());
    assert_eq!(snapshot.notices.len(), 1, "{:?}", snapshot.notices);
    assert_eq!(host_code(&snapshot.notices[0]), Some(HostCode::PresetNameRefused));
    assert!(session.files.is_empty());
}

#[test]
fn a_host_with_no_preset_directory_reports_rather_than_writing() {
    let mut session = Session::new();
    session.save("Anything");
    let snapshot = session.frame(Vec::new());
    assert_eq!(snapshot.notices.len(), 1, "{:?}", snapshot.notices);
    assert_eq!(host_code(&snapshot.notices[0]), Some(HostCode::PresetLocationUnknown));
    assert!(snapshot.presets.is_empty());
    assert!(session.files.is_empty());
}

#[test]
fn recalling_a_preset_restores_the_parameter_values_it_was_saved_with() {
    let mut session = Session::new();
    session.host.watch_presets("presets".to_string());
    session.dispatch(set(GAIN, -18.0));
    session.save("Quiet");
    let kept = session.state.copy();
    let path = session.files[0].clone();
    session.dispatch(set(GAIN, -3.0));
    assert_eq!(session.frame(Vec::new()).params.get(GAIN), Some(single(-3.0)));
    let actions = session.dispatch(UiIntent::RecallPreset { path: path.clone() });
    assert!(actions.contains(&AppAction::LoadState(path.clone())));
    // The worker has put the preset's settings in place by the time it reports.
    session.state = kept;
    let event = AppEvent::StateLoaded { path, recall: None, error: None };
    let snapshot = session.frame(vec![event]);
    assert_eq!(snapshot.params.get(GAIN), Some(single(-18.0)));
    assert!(!snapshot.unsaved_changes);
}

#[test]
fn recalling_a_preset_puts_the_recalled_resource_name_on_screen() {
    let mut session = Session::new();
    let event = AppEvent::LoadFinished {
        target: Target::Ir,
        source: "dir/fender.wav".to_string(),
        outcome: loaded(),
    };
    let snapshot = session.frame(vec![event]);
    assert_eq!(snapshot.loaded_ir_name.as_deref(), Some("fender.wav"));
    session.state.ir = Some(FileRef { display_name: "marshall.wav".to_string(), identity: 5 });
    let recall = |ir, ir_missing| AppEvent::StateLoaded {
        path: "p".to_string(),
        recall: Some(RecallOutcomeSummary {
            nam: LoadOutcomeSummary::Unloaded,
            ir,
            nam_missing: None,
            ir_missing,
        }),
        error: None,
    };
    let snapshot = session.frame(vec![recall(loaded(), None)]);
    assert_eq!(snapshot.loaded_ir_name.as_deref(), Some("marshall.wav"));
    assert!(snapshot.loaded_model_name.is_none());
    // What could not be found leaves the name of what still plays.
    session.state.ir = Some(FileRef { display_name: "gone.wav".to_string(), identity: 6 });
    let event = recall(LoadOutcomeSummary::NotDelivered, Some("gone.wav".to_string()));
    let snapshot = session.frame(vec![event]);
    assert_eq!(snapshot.loaded_ir_name.as_deref(), Some("marshall.wav"));
    assert_eq!(host_code(&snapshot.notices[0]), Some(HostCode::ReferenceMissing));
    assert_eq!(snapshot.notices[0].detail, "gone.wav");
}

#[test]
fn a_failed_recall_is_reported_and_changes_no_baseline() {
    let mut session = Session::new();
    session.dispatch(set(GAIN, -3.0));
    let event = AppEvent::StateLoaded {
        path: "p.namirpreset".to_string(),
        recall: None,
        error: Some("not a preset".to_string()),
    };
    let snapshot = session.frame(vec![event]);
    assert!(snapshot.unsaved_changes);
    assert_eq!(host_code(&snapshot.notices[0]), Some(HostCode::StateLoadFailed));
    assert_eq!(snapshot.notices[0].detail, "p.namirpreset: not a preset");
}

#[test]
fn saving_over_an_existing_preset_is_refused_until_a_second_press_confirms_it() {
    let mut session = Session::new();
    session.host.watch_presets("presets".to_string());
    let write = AppAction::SaveState("presets/Rock.namirpreset".to_string());
    assert!(session.save("Rock").contains(&write));
    assert!(session.frame(Vec::new()).notices.is_empty());

    session.dispatch(set(GAIN, -3.0));
    assert!(!session.save("Rock").contains(&write));
    let snapshot = session.frame(Vec::new());
    assert_eq!(snapshot.notices.len(), 1, "{:?}", snapshot.notices);
    assert_eq!(host_code(&snapshot.notices[0]), Some(HostCode::PresetExists));
    assert!(snapshot.notices[0].detail.contains("Rock"));

    session.now_ms += OVERWRITE_CONFIRM_WINDOW_MS - 1;
    assert!(session.save("Rock").contains(&write));
    assert!(session.frame(Vec::new()).notices.is_empty());
    // The confirmation is used up.
    assert!(!session.save("Rock").contains(&write));
}

#[test]
fn a_confirmation_that_comes_too_late_is_a_first_press_again() {
    let mut session = Session::new();
    session.host.watch_presets("presets".to_string());
    let write = AppAction::SaveState("presets/Rock.namirpreset".to_string());
    session.save("Rock");
    assert!(!session.save("Rock").contains(&write));
    session.now_ms += OVERWRITE_CONFIRM_WINDOW_MS;
    assert!(!session.save("Rock").contains(&write));
    session.now_ms += 1;
    assert!(session.save("Rock").contains(&write));
}

#[test]
fn an_overwrite_confirmation_does_not_carry_across_to_another_name() {
    let mut session = Session::new();
    session.host.watch_presets("presets".to_string());
    session.save("Rock");
    session.save("Blues");
    assert_eq!(session.files.len(), 2);
    session.save("Rock");
    session.save("Blues");
    let snapshot = session.frame(Vec::new());
    let refused = snapshot
        .notices
        .iter()
        .filter(|n| host_code(n) == Some(HostCode::PresetExists))
        .count();
    assert_eq!(refused, 2, "{:?}", snapshot.notices);
}

#[test]
fn a_preset_name_that_is_free_is_saved_on_the_first_press() {
    let mut session = Session::new();
    session.host.watch_presets("presets".to_string());
    session.save("Fresh");
    let listing = session.listing();
    let snapshot = session.frame(vec![listing]);
    assert_eq!(snapshot.presets.len(), 1);
    assert!(snapshot.notices.is_empty(), "{:?}", snapshot.notices);
}

#[test]
fn dismiss_notice_removes_only_the_named_notice() {
    let mut session = Session::new();
    let code = ErrorCode::Host(HostCode::LoadFailed);
    session.host.report(code, "a".to_string());
    session.host.report(code, "b".to_string());
    let first = session.host.notices[0].id;
    session.dispatch(UiIntent::DismissNotice { id: first });
    assert_eq!(session.host.notices.len(), 1);
    assert_ne!(session.host.notices[0].id, first);
    assert_eq!(session.host.notices[0].detail, "b");
}

#[test]
fn the_list_of_notices_stays_short_and_says_nothing_twice() {
    let mut session = Session::new();
    let code = ErrorCode::Host(HostCode::LoadFailed);
    for i in 0..MAX_NOTICES + 3 {
        session.host.report(code, format!("{i}"));
    }
    assert_eq!(session.host.notices.len(), MAX_NOTICES);
    assert_eq!(session.host.notices[0].detail, "3");
    session.host.report(code, "3".to_string());
    assert_eq!(session.host.notices.len(), MAX_NOTICES);
    assert_eq!(session.host.notices[0].detail, "3");
    // The log has a record of every one of them.
    assert_eq!(session.host.take_actions().len(), MAX_NOTICES + 4);
    let ids: Vec<u64> = session.host.notices.iter().map(|n| n.id).collect();
    assert_eq!(ids, (4..4 + MAX_NOTICES as u64).collect::<Vec<u64>>());
}

#[test]
fn presets_are_listed_again_once_the_list_is_old() {
    let mut session = Session::new();
    session.host.watch_presets("presets".to_string());
    let asked = |session: &mut Session| {
        session.frame(Vec::new());
        session.host.take_actions().len()
    };
    assert_eq!(asked(&mut session), 1);
    assert_eq!(asked(&mut session), 0);
    session.now_ms += PRESET_LISTING_MAX_AGE_MS - 1;
    assert_eq!(asked(&mut session), 0);
    session.now_ms += 1;
    assert_eq!(asked(&mut session), 1);
    session.save("New");
    assert_eq!(asked(&mut session), 1);
}

#[test]
fn a_scan_is_shown_while_it_runs_and_its_warnings_when_it_ends() {
    let mut session = Session::new();
    session.dispatch(UiIntent::RescanLibraryRequested);
    let progress = ScanProgress { ticket: 9 };
    let snapshot = session.frame(vec![AppEvent::Scanning(progress)]);
    assert_eq!(snapshot.library.scan, Some(progress));
    assert_eq!(session.dispatch(UiIntent::CancelScanRequested), [AppAction::CancelScan]);
    let warning = |d: &str| Report { code: ErrorCode::Catalogue(1), detail: d.to_string() };
    let ended = AppEvent::ScanFinished {
        warnings: vec![warning("a"), warning("b")],
        save_error: Some("read-only".to_string()),
    };
    let snapshot = session.frame(vec![ended]);
    assert_eq!(snapshot.library.scan, None);
    let details: Vec<&str> = snapshot.notices.iter().map(|n| n.detail.as_str()).collect();
    assert_eq!(details, ["a", "b", "read-only"]);
    assert_eq!(host_code(&snapshot.notices[2]), Some(HostCode::ScanSaveFailed));
}

#[test]
fn the_meters_follow_the_newest_input_and_the_louder_output_channel() {
    let mut session = Session::new();
    let entry = |id, value| TelemetryEntry { id, value: single(value) };
    session.host.read_meters(&vec![
        entry(telemetry_input_peak_id(), -3.0),
        entry(telemetry_input_peak_id(), -9.0),
        entry(telemetry_input_average_id(), -12.0),
        entry(telemetry_output_peak_id(0), -20.0),
        entry(telemetry_output_peak_id(1), -6.0),
        entry(telemetry_output_average_id(1), -15.0),
        entry(telemetry_output_average_id(0), -18.0),
        entry(telemetry_output_peak_id(2), 0.0),
    ]);
    assert_eq!(number(session.host.input_meter.peak_db), -9.0);
    assert_eq!(number(session.host.input_meter.rms_db), -12.0);
    assert_eq!(number(session.host.output_meter.peak_db), -6.0);
    assert_eq!(number(session.host.output_meter.rms_db), -15.0);
    // Nothing drained holds the reading; something quieter replaces it.
    let before = session.host.output_meter;
    session.host.read_meters(&Vec::new());
    assert_eq!(session.host.output_meter, before);
    session.host.read_meters(&vec![entry(telemetry_output_peak_id(0), -40.0)]);
    assert_eq!(number(session.host.output_meter.peak_db), -40.0);
}

#[test]
fn meter_reading_default_is_silent() {
    let r = MeterReading::default();
    assert_eq!(number(r.peak_db), f32::NEG_INFINITY);
    assert_eq!(number(r.rms_db), f32::NEG_INFINITY);
}

#[test]
fn the_severity_and_the_name_of_every_code_of_the_host() {
    let codes = [
        (HostCode::LoadFailed, "app.host.load_failed", Severity::Error),
        (HostCode::LoadNotDelivered, "app.host.load_not_delivered", Severity::Error),
        (HostCode::ScanSaveFailed, "app.host.scan_save_failed", Severity::Warning),
        (HostCode::StateSaveFailed, "app.host.state_save_failed", Severity::Error),
        (HostCode::StateLoadFailed, "app.host.state_load_failed", Severity::Error),
        (HostCode::ReferenceMissing, "app.host.reference_missing", Severity::Warning),
        (HostCode::PresetNameRefused, "app.host.preset_name_refused", Severity::Warning),
        (HostCode::PresetExists, "app.host.preset_exists", Severity::Warning),
        (HostCode::PresetLocationUnknown, "app.host.preset_location_unknown", Severity::Warning),
    ];
    for (code, id, severity) in codes {
        assert_eq!(code.id(), id);
        assert_eq!(code.severity(), severity, "{id}");
    }
}

#[test]
fn the_input_side_is_asked_first_and_nothing_means_both_are_empty() {
    let (mut input_tx, input_rx) = rtrb::RingBuffer::new(4);
    let (mut output_tx, output_rx) = rtrb::RingBuffer::new(4);
    let mut watch =
        StreamFailureWatch::new(input_rx, output_rx, "a".to_string(), "b".to_string());
    assert!(watch.pop().is_none());
    output_tx.push(StreamFailure::Xrun).unwrap();
    input_tx.push(StreamFailure::DeviceLost).unwrap();
    input_tx.push(StreamFailure::Xrun).unwrap();
    assert!(matches!(watch.pop(), Some((Direction::Input, StreamFailure::DeviceLost))));
    assert!(matches!(watch.pop(), Some((Direction::Input, StreamFailure::Xrun))));
    assert!(matches!(watch.pop(), Some((Direction::Output, StreamFailure::Xrun))));
    assert!(watch.pop().is_none());
}
