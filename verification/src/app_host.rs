//! The standalone application behind the screen.
//!
//! Every decision it makes in a frame is made here: what an event changes, what the user is told,
//! what a request turns into. What has to be done outside goes into the outbox, in order, for the
//! shell to carry out.

use vstd::prelude::*;
use vstd::string::*;

use crate::descriptor::{default_value_of, ParamDescriptor};
use crate::identity;
use crate::meters;
use crate::meters::{Listener, MeterReading, Readings};
use crate::param;
use crate::param::{ParamChange, TelemetryEntry};
use crate::registry;
use crate::ring::{self, RingConsumer};
use crate::single::Single;
use crate::state;
use crate::state::{State, StateView};
use crate::text;
use crate::ui_host;
use crate::ui_host::{
    AudioModeStatus, AudioShareMode, ErrorCode, HostCode, LibrarySnapshot, NoticeView,
    PresetSummary, ScanProgress, UiIntent, UiNotice, UiSnapshot,
};

verus! {

/// How many stream failures one frame turns into notices.
pub const STREAM_FAILURE_DRAIN_BATCH: usize = 8;

/// How old the list of presets may get before another is asked for, in milliseconds.
pub const PRESET_LISTING_MAX_AGE_MS: u64 = 1_000;

/// How long a refused overwrite stays armed for the press that confirms it, in milliseconds.
pub const OVERWRITE_CONFIRM_WINDOW_MS: u64 = 30_000;

/// How many notices are shown at most: as many as a screen can take. The figure, and that the
/// oldest makes room, is this library's own choice.
pub const MAX_NOTICES: usize = 16;

/// Which side of the duplex path.
#[derive(Debug, Clone, Copy, PartialEq, Eq, Structural)]
pub enum Direction {
    Input,
    Output,
}

/// What a stream's error callback reported.
#[derive(Debug)]
pub enum StreamFailure {
    DeviceLost,
    Xrun,
    Other(String),
}

/// The catalogue entry for a stream failure. A message of the backend's own counts as a lost
/// device only where the platform's classification of it says so.
pub fn stream_failure_code(failure: &StreamFailure, message_means_loss: bool) -> (code: ErrorCode)
    ensures
        code == failure_code(*failure, message_means_loss),
{
    match failure {
        StreamFailure::DeviceLost => ErrorCode::DeviceLost,
        StreamFailure::Xrun => ErrorCode::StreamFailed,
        StreamFailure::Other(_) => if message_means_loss {
            ErrorCode::DeviceLost
        } else {
            ErrorCode::StreamFailed
        },
    }
}

pub open spec fn failure_code(failure: StreamFailure, message_means_loss: bool) -> ErrorCode {
    if failure is DeviceLost || (failure is Other && message_means_loss) {
        ErrorCode::DeviceLost
    } else {
        ErrorCode::StreamFailed
    }
}

/// What comes first: the input side's failure, then the output side's.
pub fn next_failure(
    input: Option<StreamFailure>,
    output: Option<StreamFailure>,
) -> (r: Option<(Direction, StreamFailure)>)
    ensures
        r == (match (input, output) {
            (Some(f), _) => Some((Direction::Input, f)),
            (None, Some(f)) => Some((Direction::Output, f)),
            (None, None) => None,
        }),
{
    match input {
        Some(f) => Some((Direction::Input, f)),
        None => match output {
            Some(f) => Some((Direction::Output, f)),
            None => None,
        },
    }
}

/// The reading end of the two error callbacks, and the devices they belong to.
pub struct StreamFailureWatch {
    pub input: RingConsumer<StreamFailure>,
    pub output: RingConsumer<StreamFailure>,
    pub input_device_name: String,
    pub output_device_name: String,
}

impl StreamFailureWatch {
    pub fn new(
        input: rtrb::Consumer<StreamFailure>,
        output: rtrb::Consumer<StreamFailure>,
        input_device_name: String,
        output_device_name: String,
    ) -> (w: Self)
        ensures
            w.input_device_name == input_device_name,
            w.output_device_name == output_device_name,
            w.input.answered() == ring::pops_answered(input),
            w.output.answered() == ring::pops_answered(output),
    {
        StreamFailureWatch {
            input: RingConsumer::new(input),
            output: RingConsumer::new(output),
            input_device_name,
            output_device_name,
        }
    }

    pub open spec fn same_devices(&self, other: &StreamFailureWatch) -> bool {
        &&& self.input_device_name == other.input_device_name
        &&& self.output_device_name == other.output_device_name
    }

    /// The next failure from either side. The input side is asked first, and the output side only
    /// where the input side had nothing; there is none only where both had nothing. What they have
    /// depends on what the two callbacks have reported; nothing is taken that is not handed out.
    pub fn pop(&mut self) -> (r: Option<(Direction, StreamFailure)>)
        ensures
            final(self).same_devices(old(self)),
            final(self).input.answered() == old(self).input.answered().push(
                match r {
                    Some((Direction::Input, f)) => Some(f),
                    _ => None,
                },
            ),
            final(self).output.answered() == (match r {
                Some((Direction::Input, _)) => old(self).output.answered(),
                Some((Direction::Output, f)) => old(self).output.answered().push(Some(f)),
                None => old(self).output.answered().push(None),
            }),
            final(self).input.taken() == (match r {
                Some((Direction::Input, f)) => old(self).input.taken().push(f),
                _ => old(self).input.taken(),
            }),
            final(self).output.taken() == (match r {
                Some((Direction::Output, f)) => old(self).output.taken().push(f),
                _ => old(self).output.taken(),
            }),
    {
        match self.input.try_pop() {
            Some(f) => next_failure(Some(f), None),
            None => next_failure(None, self.output.try_pop()),
        }
    }

    pub open spec fn detail_text(&self, direction: Direction, failure: Seq<char>) -> Seq<char> {
        match direction {
            Direction::Input => "input"@ + " device \""@ + self.input_device_name@ + "\": "@
                + failure,
            Direction::Output => "output"@ + " device \""@ + self.output_device_name@ + "\": "@
                + failure,
        }
    }

    /// Which side failed, on which device, and what the backend said.
    pub fn detail(&self, direction: Direction, failure: &str) -> (s: String)
        ensures
            s@ == self.detail_text(direction, failure@),
    {
        let mut s: String = match direction {
            Direction::Input => "input".to_owned(),
            Direction::Output => "output".to_owned(),
        };
        s.append(" device \"");
        match direction {
            Direction::Input => s.append(self.input_device_name.as_str()),
            Direction::Output => s.append(self.output_device_name.as_str()),
        }
        s.append("\": ");
        s.append(failure);
        s
    }
}

/// A catalogue entry with its detail.
#[derive(Debug)]
pub struct Report {
    pub code: ErrorCode,
    pub detail: String,
}

/// Which stage a load was for.
#[derive(Debug, Clone, Copy, PartialEq, Eq, Structural)]
pub enum Target {
    Nam,
    Ir,
}

/// How a load ended.
#[derive(Debug)]
pub enum LoadOutcomeSummary {
    Loaded { warning: Option<Report> },
    Unloaded,
    Failed(Report),
    NotDelivered,
}

/// How a recall ended, for each of the two stages.
#[derive(Debug)]
pub struct RecallOutcomeSummary {
    pub nam: LoadOutcomeSummary,
    pub ir: LoadOutcomeSummary,
    pub nam_missing: Option<String>,
    pub ir_missing: Option<String>,
}

/// What the worker and the audio streams report.
#[derive(Debug)]
pub enum AppEvent {
    LoadFinished { target: Target, source: String, outcome: LoadOutcomeSummary },
    Scanning(ScanProgress),
    ScanFinished { warnings: Vec<Report>, save_error: Option<String> },
    StateSaved { path: String, error: Option<String> },
    StateLoaded { path: String, recall: Option<RecallOutcomeSummary>, error: Option<String> },
    PresetsListed(Vec<PresetSummary>),
    StreamFailed { failure: StreamFailure, message_means_loss: bool, detail: String },
}

/// What the shell is to do.
#[derive(Debug, PartialEq)]
pub enum AppAction {
    SubmitParam(ParamChange),
    SaveState(String),
    LoadState(String),
    LoadLibraryEntry(String),
    RescanLibrary,
    CancelScan,
    ListPresets(String),
    /// Drop both audio streams.
    StopStreams,
    /// Write the log record of a notice.
    Record { code: ErrorCode, detail: String },
}

/// What an action says.
pub enum ActionView {
    SubmitParam(ParamChange),
    SaveState(Seq<char>),
    LoadState(Seq<char>),
    LoadLibraryEntry(Seq<char>),
    RescanLibrary,
    CancelScan,
    ListPresets(Seq<char>),
    StopStreams,
    Record(ErrorCode, Seq<char>),
}

impl View for AppAction {
    type V = ActionView;

    open spec fn view(&self) -> ActionView {
        match self {
            AppAction::SubmitParam(c) => ActionView::SubmitParam(*c),
            AppAction::SaveState(p) => ActionView::SaveState(p@),
            AppAction::LoadState(p) => ActionView::LoadState(p@),
            AppAction::LoadLibraryEntry(p) => ActionView::LoadLibraryEntry(p@),
            AppAction::RescanLibrary => ActionView::RescanLibrary,
            AppAction::CancelScan => ActionView::CancelScan,
            AppAction::ListPresets(p) => ActionView::ListPresets(p@),
            AppAction::StopStreams => ActionView::StopStreams,
            AppAction::Record { code, detail } => ActionView::Record(*code, detail@),
        }
    }
}

pub open spec fn actions_view(actions: Seq<AppAction>) -> Seq<ActionView> {
    Seq::new(actions.len(), |i: int| actions[i]@)
}

pub struct AppHost {
    pub last_saved: State,
    pub loaded_model_name: Option<String>,
    pub loaded_ir_name: Option<String>,
    pub audio_mode: Option<AudioModeStatus>,
    pub input_meter: MeterReading,
    pub output_meter: MeterReading,
    pub scan_progress: Option<ScanProgress>,
    pub preset_dir: Option<String>,
    pub presets: Vec<PresetSummary>,
    /// When the last list of presets was asked for, in milliseconds.
    pub presets_listed_at: Option<u64>,
    /// The name whose overwrite was refused, and when.
    pub pending_overwrite: Option<(String, u64)>,
    pub stream_failures: Option<StreamFailureWatch>,
    pub streams_held: bool,
    /// The audio thread's elevation has been asked about and not yet reported.
    pub thread_priority_watched: bool,
    pub notices: Vec<UiNotice>,
    pub next_notice_id: u64,
    pub outbox: Vec<AppAction>,
}

/// What the host holds.
#[verifier::ext_equal]
pub struct HostView {
    pub last_saved: StateView,
    pub model_name: Option<Seq<char>>,
    pub ir_name: Option<Seq<char>>,
    pub audio_mode: Option<(AudioShareMode, Seq<char>)>,
    pub input_meter: MeterReading,
    pub output_meter: MeterReading,
    pub scan: Option<ScanProgress>,
    pub preset_dir: Option<Seq<char>>,
    pub presets: Seq<(Seq<char>, Seq<char>)>,
    pub presets_listed_at: Option<u64>,
    pub pending_overwrite: Option<(Seq<char>, u64)>,
    pub streams_held: bool,
    pub thread_priority_watched: bool,
    pub notices: Seq<NoticeView>,
    pub next_notice_id: u64,
    pub outbox: Seq<ActionView>,
}

impl View for AppHost {
    type V = HostView;

    open spec fn view(&self) -> HostView {
        HostView {
            last_saved: self.last_saved@,
            model_name: ui_host::text_view(self.loaded_model_name),
            ir_name: ui_host::text_view(self.loaded_ir_name),
            audio_mode: ui_host::mode_view(self.audio_mode),
            input_meter: self.input_meter,
            output_meter: self.output_meter,
            scan: self.scan_progress,
            preset_dir: ui_host::text_view(self.preset_dir),
            presets: ui_host::presets_view(self.presets@),
            presets_listed_at: self.presets_listed_at,
            pending_overwrite: refusal_view(self.pending_overwrite),
            streams_held: self.streams_held,
            thread_priority_watched: self.thread_priority_watched,
            notices: ui_host::notices_view(self.notices@),
            next_notice_id: self.next_notice_id,
            outbox: actions_view(self.outbox@),
        }
    }
}

/// The same entry with the same detail is already in the list.
pub open spec fn already_told(list: Seq<NoticeView>, code: ErrorCode, detail: Seq<char>) -> bool {
    exists|i: int|
        0 <= i < list.len() && (#[trigger] list[i]).code == code && list[i].detail == detail
}

/// The list with one more notice: one that says nothing new is left out, and one too many pushes
/// out the oldest. Both rules are this library's own choice.
pub open spec fn filed(list: Seq<NoticeView>, notice: NoticeView) -> Seq<NoticeView> {
    if already_told(list, notice.code, notice.detail) {
        list
    } else if list.len() >= MAX_NOTICES {
        list.push(notice).skip(list.len() + 1 - MAX_NOTICES)
    } else {
        list.push(notice)
    }
}

impl HostView {
    /// A host for a session with these settings and this audio mode, and nothing to show yet.
    pub open spec fn fresh(
        state: StateView,
        audio_mode: Option<(AudioShareMode, Seq<char>)>,
    ) -> HostView {
        HostView {
            last_saved: state,
            model_name: None,
            ir_name: None,
            audio_mode,
            input_meter: MeterReading::silent(),
            output_meter: MeterReading::silent(),
            scan: None,
            preset_dir: None,
            presets: Seq::empty(),
            presets_listed_at: None,
            pending_overwrite: None,
            streams_held: false,
            thread_priority_watched: false,
            notices: Seq::empty(),
            next_notice_id: 1,
            outbox: Seq::empty(),
        }
    }

    /// The shell runs audio streams on this host's behalf.
    pub open spec fn holding_streams(self) -> HostView {
        HostView { streams_held: true, ..self }
    }

    /// The presets are in this directory, and have not been listed yet.
    pub open spec fn watching_presets(self, dir: Seq<char>) -> HostView {
        HostView { preset_dir: Some(dir), presets_listed_at: None, ..self }
    }

    /// The audio thread's elevation has been asked about.
    pub open spec fn watching_thread_priority(self) -> HostView {
        HostView { thread_priority_watched: true, ..self }
    }

    pub open spec fn acted(self, action: ActionView) -> HostView {
        HostView { outbox: self.outbox.push(action), ..self }
    }

    /// A notice was raised: it has the next number, its log record is written whatever becomes of
    /// it, and it is filed.
    pub open spec fn noticed(self, code: ErrorCode, detail: Seq<char>) -> HostView {
        HostView {
            next_notice_id: self.next_notice_id.wrapping_add(1),
            notices: filed(
                self.notices,
                NoticeView { id: self.next_notice_id, code, detail },
            ),
            ..self.acted(ActionView::Record(code, detail))
        }
    }

    pub open spec fn noticed_all(self, reports: Seq<Report>) -> HostView
        decreases reports.len(),
    {
        if reports.len() == 0 {
            self
        } else {
            self.noticed_all(reports.drop_last()).noticed(
                reports.last().code,
                reports.last().detail@,
            )
        }
    }

    pub open spec fn noticed_if(self, code: ErrorCode, detail: Option<Seq<char>>) -> HostView {
        match detail {
            Some(d) => self.noticed(code, d),
            None => self,
        }
    }

    pub open spec fn named(self, target: Target, name: Option<Seq<char>>) -> HostView {
        match target {
            Target::Nam => HostView { model_name: name, ..self },
            Target::Ir => HostView { ir_name: name, ..self },
        }
    }

    /// A load ended; `shown` is what its source is shown as.
    pub open spec fn load_finished(
        self,
        target: Target,
        source: Seq<char>,
        outcome: LoadOutcomeSummary,
        shown: Seq<char>,
    ) -> HostView {
        match outcome {
            LoadOutcomeSummary::Loaded { warning } => {
                let loaded = self.named(target, Some(shown));
                match warning {
                    Some(w) => loaded.noticed(w.code, w.detail@),
                    None => loaded,
                }
            },
            LoadOutcomeSummary::Unloaded => self.named(target, None),
            LoadOutcomeSummary::Failed(error) => self.noticed(
                error.code,
                if text::occurs(source, error.detail@) {
                    error.detail@
                } else {
                    source + ": "@ + error.detail@
                },
            ),
            LoadOutcomeSummary::NotDelivered => self.noticed(
                ErrorCode::Host(HostCode::LoadNotDelivered),
                source,
            ),
        }
    }

    /// The label of a stage after a recall: a loaded file's stored name, nothing where it was
    /// unloaded, and as it was where what played before still plays.
    pub open spec fn relabelled(
        self,
        target: Target,
        outcome: LoadOutcomeSummary,
        stored: Option<Seq<char>>,
    ) -> HostView {
        match outcome {
            LoadOutcomeSummary::Loaded { .. } => self.named(target, stored),
            LoadOutcomeSummary::Unloaded => self.named(target, None),
            _ => self,
        }
    }

    pub open spec fn recalled(self, outcome: RecallOutcomeSummary, state: StateView) -> HostView {
        self.relabelled(Target::Nam, outcome.nam, state.nam_name()).relabelled(
            Target::Ir,
            outcome.ir,
            state.ir_name(),
        ).noticed_if(
            ErrorCode::Host(HostCode::ReferenceMissing),
            ui_host::text_view(outcome.nam_missing),
        ).noticed_if(
            ErrorCode::Host(HostCode::ReferenceMissing),
            ui_host::text_view(outcome.ir_missing),
        )
    }

    /// Both streams are dropped, if they are still held.
    pub open spec fn stopped(self) -> HostView {
        if self.streams_held {
            HostView { streams_held: false, ..self.acted(ActionView::StopStreams) }
        } else {
            self
        }
    }

    /// What an event makes of the host. `state` is the shared settings at the time, and `shown`
    /// what the source of a load is shown as.
    pub open spec fn after_event(self, event: AppEvent, state: StateView, shown: Seq<char>) -> HostView {
        match event {
            AppEvent::LoadFinished { target, source, outcome } => self.load_finished(
                target,
                source@,
                outcome,
                shown,
            ),
            AppEvent::Scanning(progress) => HostView { scan: Some(progress), ..self },
            AppEvent::ScanFinished { warnings, save_error } => (HostView {
                scan: None,
                ..self
            }).noticed_all(warnings@).noticed_if(
                ErrorCode::Host(HostCode::ScanSaveFailed),
                ui_host::text_view(save_error),
            ),
            AppEvent::StateSaved { path, error } => match error {
                Some(reason) => self.noticed(
                    ErrorCode::Host(HostCode::StateSaveFailed),
                    path@ + ": "@ + reason@,
                ),
                None => HostView { last_saved: state, ..self },
            },
            AppEvent::StateLoaded { path, recall, error } => match error {
                Some(reason) => self.noticed(
                    ErrorCode::Host(HostCode::StateLoadFailed),
                    path@ + ": "@ + reason@,
                ),
                None => HostView {
                    last_saved: state,
                    ..match recall {
                        Some(summary) => self.recalled(summary, state),
                        None => self,
                    }
                },
            },
            AppEvent::PresetsListed(presets) => HostView {
                presets: ui_host::presets_view(presets@),
                ..self
            },
            AppEvent::StreamFailed { failure, message_means_loss, detail } => self.stream_failed(
                failure_code(failure, message_means_loss),
                detail@,
            ),
        }
    }
}

/// How the operating system answered the request to raise the audio thread's priority.
#[derive(Debug, Clone, Copy, PartialEq, Eq, Structural)]
pub enum ThreadPriorityOutcome {
    Elevated,
    PermissionDenied,
    OsError(i64),
    Unsupported,
}

pub open spec fn thread_priority_text(outcome: ThreadPriorityOutcome) -> Seq<char> {
    match outcome {
        ThreadPriorityOutcome::Elevated => "the audio callback thread was elevated"@,
        ThreadPriorityOutcome::PermissionDenied =>
            "the operating system refused the request for want of a privilege this process does not hold"@,
        ThreadPriorityOutcome::OsError(code) => "the operating system call failed with code "@
            + text::signed_digits(code as int),
        ThreadPriorityOutcome::Unsupported =>
            "namir-platform has no thread-priority implementation for this target"@,
    }
}

/// What the operating system answered, in words.
pub fn thread_priority_detail(outcome: ThreadPriorityOutcome) -> (s: String)
    ensures
        s@ == thread_priority_text(outcome),
{
    match outcome {
        ThreadPriorityOutcome::Elevated => "the audio callback thread was elevated".to_owned(),
        ThreadPriorityOutcome::PermissionDenied =>
            "the operating system refused the request for want of a privilege this process does not hold".to_owned(),
        ThreadPriorityOutcome::OsError(code) => {
            let mut s: String = "the operating system call failed with code ".to_owned();
            s.append(text::signed_decimal(code).as_str());
            s
        },
        ThreadPriorityOutcome::Unsupported =>
            "namir-platform has no thread-priority implementation for this target".to_owned(),
    }
}

/// A stream failure as it was told: from which side, whether its message means a lost device, and
/// what the backend said.
pub struct ToldFailure {
    pub direction: Direction,
    pub failure: StreamFailure,
    pub means_loss: bool,
    pub said: Seq<char>,
}

/// A name for a preset on its way to disk: the file it resolves to, where it can be used at all,
/// and whether that file is there already.
#[derive(Debug)]
pub struct SaveTarget {
    pub path: Option<String>,
    pub exists: bool,
}

/// How long ago something was.
pub open spec fn age_ms(now_ms: u64, at: u64) -> int {
    if at <= now_ms {
        now_ms - at
    } else {
        0
    }
}

fn aged_less_than(now_ms: u64, at: u64, limit: u64) -> (r: bool)
    ensures
        r == (age_ms(now_ms, at) < limit),
{
    if at <= now_ms {
        now_ms - at < limit
    } else {
        0 < limit
    }
}

/// What a refused overwrite says: the name, and when it was refused.
pub open spec fn refusal_view(refusal: Option<(String, u64)>) -> Option<(Seq<char>, u64)> {
    match refusal {
        Some((name, at)) => Some((name@, at)),
        None => None,
    }
}

/// The refusal was of this name, and is recent enough for the same name to confirm it.
pub open spec fn overwrite_armed(
    refusal: Option<(Seq<char>, u64)>,
    name: Seq<char>,
    now_ms: u64,
) -> bool {
    refusal matches Some((armed, at)) && armed == name && age_ms(now_ms, at)
        < OVERWRITE_CONFIRM_WINDOW_MS
}

/// Whether saving now would replace a preset that the user has not asked to replace; arms the
/// confirmation, or uses it up.
pub fn overwrite_refused(
    refusal: &mut Option<(String, u64)>,
    exists: bool,
    name: &String,
    now_ms: u64,
) -> (r: bool)
    ensures
        r == (exists && !overwrite_armed(refusal_view(*old(refusal)), name@, now_ms)),
        refusal_view(*final(refusal)) == (if r {
            Some((name@, now_ms))
        } else {
            None
        }),
{
    let confirmed: bool = match &*refusal {
        Some((armed, at)) => *armed == *name && aged_less_than(
            now_ms,
            *at,
            OVERWRITE_CONFIRM_WINDOW_MS,
        ),
        None => false,
    };
    if exists && !confirmed {
        *refusal = Some((name.clone(), now_ms));
        true
    } else {
        *refusal = None;
        false
    }
}

/// A notice that is to go: the one with a number, or those that say that a preset of a name exists.
pub enum Unwanted {
    Id(u64),
    Exists(Seq<char>),
}

impl Unwanted {
    pub open spec fn matches_notice(self, n: NoticeView) -> bool {
        match self {
            Unwanted::Id(id) => n.id == id,
            Unwanted::Exists(name) => n.code == ErrorCode::Host(HostCode::PresetExists)
                && n.detail == name,
        }
    }
}

/// The list without the notices that are to go.
pub open spec fn without(list: Seq<NoticeView>, unwanted: Unwanted) -> Seq<NoticeView>
    decreases list.len(),
{
    if list.len() == 0 {
        list
    } else {
        let rest = without(list.drop_last(), unwanted);
        if unwanted.matches_notice(list.last()) {
            rest
        } else {
            rest.push(list.last())
        }
    }
}

impl HostView {
    /// Every event of a frame, in order.
    pub open spec fn after_events(
        self,
        events: Seq<AppEvent>,
        state: StateView,
        shown: Seq<Seq<char>>,
    ) -> HostView
        decreases events.len(),
    {
        if events.len() == 0 {
            self
        } else {
            self.after_events(events.drop_last(), state, shown).after_event(
                events.last(),
                state,
                shown[events.len() - 1],
            )
        }
    }

    /// A stream failed: a lost device stops both streams, and either way the user is told.
    pub open spec fn stream_failed(self, code: ErrorCode, detail: Seq<char>) -> HostView {
        (if code == ErrorCode::DeviceLost {
            self.stopped()
        } else {
            self
        }).noticed(code, detail)
    }

    /// Every stream failure of a frame, in order.
    pub open spec fn after_failures(
        self,
        told: Seq<ToldFailure>,
        watch: StreamFailureWatch,
    ) -> HostView
        decreases told.len(),
    {
        if told.len() == 0 {
            self
        } else {
            let last = told.last();
            self.after_failures(told.drop_last(), watch).stream_failed(
                failure_code(last.failure, last.means_loss),
                watch.detail_text(last.direction, last.said),
            )
        }
    }

    /// Every stream failure of a frame where there is a watch, and nothing where there is none.
    pub open spec fn after_watched(
        self,
        told: Seq<ToldFailure>,
        watch: Option<StreamFailureWatch>,
    ) -> HostView {
        match watch {
            Some(w) => self.after_failures(told, w),
            None => self,
        }
    }

    /// The audio thread's elevation, reported once: with a notice where it has a catalogue entry.
    pub open spec fn priority_reported(
        self,
        outcome: Option<(ThreadPriorityOutcome, Option<ErrorCode>)>,
    ) -> HostView {
        match outcome {
            Some((answer, code)) if self.thread_priority_watched => {
                let reported = HostView { thread_priority_watched: false, ..self };
                match code {
                    Some(c) => reported.noticed(c, thread_priority_text(answer)),
                    None => reported,
                }
            },
            _ => self,
        }
    }

    /// The list of presets is asked for where it is too old and there is a place to look.
    pub open spec fn presets_refreshed(self, now_ms: u64) -> HostView {
        match self.preset_dir {
            None => self,
            Some(dir) => {
                let fresh = self.presets_listed_at matches Some(at) && age_ms(now_ms, at)
                    < PRESET_LISTING_MAX_AGE_MS;
                if fresh {
                    self
                } else {
                    HostView {
                        presets_listed_at: Some(now_ms),
                        ..self.acted(ActionView::ListPresets(dir))
                    }
                }
            },
        }
    }

    /// The meters take what a drain read, and keep what it did not.
    pub open spec fn metered(self, entries: Seq<TelemetryEntry>) -> HostView {
        let r = Readings::of(Listener::Application, entries);
        HostView {
            input_meter: MeterReading {
                peak_db: replaced(self.input_meter.peak_db, r.input_peak),
                rms_db: replaced(self.input_meter.rms_db, r.input_average),
            },
            output_meter: MeterReading {
                peak_db: replaced(self.output_meter.peak_db, r.output_peak),
                rms_db: replaced(self.output_meter.rms_db, r.output_average),
            },
            ..self
        }
    }

    /// The last press of Save named this preset, was refused, and is recent enough to be confirmed.
    pub open spec fn armed(self, name: Seq<char>, now_ms: u64) -> bool {
        overwrite_armed(self.pending_overwrite, name, now_ms)
    }

    /// What pressing Save does.
    pub open spec fn after_save(
        self,
        name: Seq<char>,
        path: Option<Seq<char>>,
        exists: bool,
        now_ms: u64,
    ) -> HostView {
        if self.preset_dir is None {
            self.noticed(
                ErrorCode::Host(HostCode::PresetLocationUnknown),
                "namir_platform::config_dir resolved nothing on this system"@,
            )
        } else if path is None {
            self.noticed(ErrorCode::Host(HostCode::PresetNameRefused), name)
        } else if exists && !self.armed(name, now_ms) {
            (HostView { pending_overwrite: Some((name, now_ms)), ..self }).noticed(
                ErrorCode::Host(HostCode::PresetExists),
                name,
            )
        } else {
            HostView {
                pending_overwrite: None,
                presets_listed_at: None,
                notices: without(self.notices, Unwanted::Exists(name)),
                ..self
            }.acted(ActionView::SaveState(path->0))
        }
    }

    /// What a request does to the host; what it does to the settings is [`settings_after`].
    pub open spec fn after_intent(
        self,
        intent: UiIntent,
        path: Option<Seq<char>>,
        exists: bool,
        now_ms: u64,
    ) -> HostView {
        match intent {
            UiIntent::SetParam { key, value } => if registry::known(key@) {
                self.acted(
                    ActionView::SubmitParam(
                        ParamChange {
                            id: registry::registry_entries()[registry::place_of(key@)].id,
                            value,
                        },
                    ),
                )
            } else {
                self
            },
            UiIntent::ResetParamToDefault { key } => if registry::known(key@) {
                let entry = registry::registry_entries()[registry::place_of(key@)];
                self.acted(
                    ActionView::SubmitParam(
                        ParamChange { id: entry.id, value: entry.kind.default_spec() },
                    ),
                )
            } else {
                self
            },
            UiIntent::SavePreset { name } => self.after_save(name@, path, exists, now_ms),
            UiIntent::RecallPreset { path: from } => self.acted(ActionView::LoadState(from@)),
            UiIntent::LoadLibraryEntry(from) => self.acted(ActionView::LoadLibraryEntry(from@)),
            UiIntent::RescanLibraryRequested => self.acted(ActionView::RescanLibrary),
            UiIntent::CancelScanRequested => self.acted(ActionView::CancelScan),
            UiIntent::DismissNotice { id } => HostView {
                notices: without(self.notices, Unwanted::Id(id)),
                ..self
            },
        }
    }
}

/// The reading that is new, or the one there was.
pub open spec fn replaced(held: Single, read: Option<Single>) -> Single {
    match read {
        Some(value) => value,
        None => held,
    }
}

/// What a request does to the settings.
pub open spec fn settings_after(state: StateView, intent: UiIntent) -> StateView {
    match intent {
        UiIntent::SetParam { key, value } => StateView {
            params: state::with_value(state.params, key@, value),
            ..state
        },
        UiIntent::ResetParamToDefault { key } => StateView {
            params: state::with_value(
                state.params,
                key@,
                registry::registry_entries()[registry::place_of(key@)].kind.default_spec(),
            ),
            ..state
        },
        _ => state,
    }
}

/// For every event, what the source of a load is shown as.
pub open spec fn names_shown(events: Seq<AppEvent>, shown: Seq<Seq<char>>) -> bool {
    &&& shown.len() == events.len()
    &&& forall|i: int|
        0 <= i < events.len() ==> (#[trigger] events[i] matches AppEvent::LoadFinished {
            source,
            ..
        } ==> text::names_path(shown[i], source@))
}

/// The failures of one side among those told, in order.
pub open spec fn told_of(direction: Direction, told: Seq<ToldFailure>) -> Seq<StreamFailure>
    decreases told.len(),
{
    if told.len() == 0 {
        Seq::empty()
    } else {
        let before = told_of(direction, told.drop_last());
        if told.last().direction == direction {
            before.push(told.last().failure)
        } else {
            before
        }
    }
}

/// What the input ring answered while these were taken: it was asked for every one of them, and
/// had nothing wherever the output side's turn came.
pub open spec fn input_answers(told: Seq<ToldFailure>) -> Seq<Option<StreamFailure>> {
    told.map_values(
        |one: ToldFailure|
            if one.direction == Direction::Input {
                Some(one.failure)
            } else {
                None
            },
    )
}

/// What the output ring answered while these were taken: it was asked for its own alone.
pub open spec fn output_answers(told: Seq<ToldFailure>) -> Seq<Option<StreamFailure>> {
    told_of(Direction::Output, told).map_values(|f: StreamFailure| Some(f))
}

/// What a ring answers last: that it is empty, where fewer were taken than a frame may take, and
/// nothing more where it is not asked again.
pub open spec fn last_answer(told: Seq<ToldFailure>) -> Seq<Option<StreamFailure>> {
    if told.len() < STREAM_FAILURE_DRAIN_BATCH {
        seq![None]
    } else {
        Seq::empty()
    }
}

/// Exactly what the two rings gave out has been told, in the order it came, and both were asked
/// until they had nothing or as many had been told as a frame may tell.
pub open spec fn told_from(
    before: Option<StreamFailureWatch>,
    told: Seq<ToldFailure>,
    after: Option<StreamFailureWatch>,
) -> bool {
    match (before, after) {
        (None, None) => told.len() == 0,
        (Some(b), Some(a)) => {
            &&& told.len() <= STREAM_FAILURE_DRAIN_BATCH
            &&& a.same_devices(&b)
            &&& a.input.answered() == b.input.answered() + input_answers(told) + last_answer(told)
            &&& a.output.answered() == b.output.answered() + output_answers(told) + last_answer(
                told,
            )
        },
        _ => false,
    }
}

/// Both rings were asked between the two, and last answered that they were empty.
pub open spec fn both_were_empty(before: StreamFailureWatch, after: StreamFailureWatch) -> bool {
    &&& after.input.answered().len() > before.input.answered().len()
    &&& after.input.answered().last() is None
    &&& after.output.answered().len() > before.output.answered().len()
    &&& after.output.answered().last() is None
}

/// Every failure that was told is as the shell's description has it.
pub open spec fn told_as<D>(describe: D, told: Seq<ToldFailure>) -> bool where
    D: Fn(&StreamFailure) -> (bool, String),
 {
    forall|i: int|
        0 <= i < told.len() ==> described(
            describe,
            (#[trigger] told[i]).failure,
            told[i].means_loss,
            told[i].said,
        )
}

pub open spec fn described<D>(
    describe: D,
    failure: StreamFailure,
    means_loss: bool,
    said: Seq<char>,
) -> bool where D: Fn(&StreamFailure) -> (bool, String) {
    exists|r: (bool, String)| #[trigger]
        call_ensures(describe, (&failure,), r) && r.0 == means_loss && r.1@ == said
}

impl AppHost {
    fn act(&mut self, action: AppAction)
        ensures
            final(self)@ == old(self)@.acted(action@),
            final(self).stream_failures == old(self).stream_failures,
    {
        self.outbox.push(action);
        proof {
            assert(actions_view(self.outbox@) =~= actions_view(old(self).outbox@).push(action@));
        }
    }

    /// Files a notice.
    fn file(&mut self, notice: UiNotice)
        ensures
            final(self)@ == (HostView {
                notices: filed(old(self)@.notices, notice@),
                ..old(self)@
            }),
            final(self).stream_failures == old(self).stream_failures,
    {
        let ghost list = self@.notices;
        let mut i: usize = 0;
        while i < self.notices.len()
            invariant
                i <= self.notices@.len(),
                *self == *old(self),
                list == ui_host::notices_view(self.notices@),
                forall|j: int|
                    0 <= j < i ==> (#[trigger] list[j]).code != notice.code || list[j].detail
                        != notice.detail@,
            decreases self.notices@.len() - i,
        {
            if self.notices[i].code == notice.code && self.notices[i].detail == notice.detail {
                proof {
                    assert(list[i as int].code == notice.code);
                    assert(already_told(list, notice.code, notice.detail@));
                }
                return ;
            }
            assert(list[i as int] == self.notices@[i as int]@);
            i += 1;
        }
        let ghost said = notice@;
        self.notices.push(notice);
        proof {
            assert(ui_host::notices_view(self.notices@) =~= list.push(said));
        }
        while self.notices.len() > MAX_NOTICES
            invariant
                list == ui_host::notices_view(old(self).notices@),
                self.notices@.len() <= list.len() + 1,
                self.notices@.len() >= (if list.len() + 1 <= MAX_NOTICES {
                    list.len() + 1
                } else {
                    MAX_NOTICES as nat
                }),
                ui_host::notices_view(self.notices@) == list.push(said).skip(
                    list.len() + 1 - self.notices@.len(),
                ),
                self@ == (HostView {
                    notices: ui_host::notices_view(self.notices@),
                    ..old(self)@
                }),
                self.stream_failures == old(self).stream_failures,
            decreases self.notices@.len(),
        {
            let ghost before = self.notices@;
            let _ = self.notices.remove(0);
            proof {
                assert(ui_host::notices_view(self.notices@) =~= ui_host::notices_view(before).skip(
                    1,
                ));
                assert(ui_host::notices_view(self.notices@) =~= list.push(said).skip(
                    list.len() + 1 - self.notices@.len(),
                ));
            }
        }
        proof {
            assert(ui_host::notices_view(self.notices@) =~= filed(list, said));
        }
    }

    /// Raises a notice and has its log record written.
    fn push_notice(&mut self, code: ErrorCode, detail: String)
        ensures
            final(self)@ == old(self)@.noticed(code, detail@),
            final(self).stream_failures == old(self).stream_failures,
    {
        let id: u64 = self.next_notice_id;
        self.next_notice_id = id.wrapping_add(1);
        self.act(AppAction::Record { code, detail: detail.clone() });
        self.file(UiNotice { id, code, detail });
    }

    /// Raises a notice on behalf of the shell.
    pub fn report(&mut self, code: ErrorCode, detail: String)
        ensures
            final(self)@ == old(self)@.noticed(code, detail@),
            final(self).stream_failures == old(self).stream_failures,
    {
        self.push_notice(code, detail);
    }

    /// A host for a session with these settings and this audio mode, and nothing to show yet.
    pub fn new(state: &State, audio_mode: Option<AudioModeStatus>) -> (h: AppHost)
        ensures
            h.stream_failures is None,
            h@ == HostView::fresh(state@, ui_host::mode_view(audio_mode)),
    {
        let h = AppHost {
            last_saved: state.copy(),
            loaded_model_name: None,
            loaded_ir_name: None,
            audio_mode,
            input_meter: MeterReading::default(),
            output_meter: MeterReading::default(),
            scan_progress: None,
            preset_dir: None,
            presets: Vec::new(),
            presets_listed_at: None,
            pending_overwrite: None,
            stream_failures: None,
            streams_held: false,
            thread_priority_watched: false,
            notices: Vec::new(),
            next_notice_id: 1,
            outbox: Vec::new(),
        };
        proof {
            assert(ui_host::presets_view(h.presets@) =~= Seq::empty());
            assert(ui_host::notices_view(h.notices@) =~= Seq::empty());
            assert(actions_view(h.outbox@) =~= Seq::empty());
        }
        h
    }

    pub fn watch_stream_failures(&mut self, watch: StreamFailureWatch)
        ensures
            final(self)@ == old(self)@,
            final(self).stream_failures == Some(watch),
    {
        self.stream_failures = Some(watch);
    }

    /// The shell runs audio streams on this host's behalf from now on.
    pub fn hold_streams(&mut self)
        ensures
            final(self)@ == old(self)@.holding_streams(),
            final(self).stream_failures == old(self).stream_failures,
    {
        self.streams_held = true;
    }

    /// Points the host at the directory of the presets; they have not been listed yet.
    pub fn watch_presets(&mut self, preset_dir: String)
        ensures
            final(self)@ == old(self)@.watching_presets(preset_dir@),
            final(self).stream_failures == old(self).stream_failures,
    {
        self.preset_dir = Some(preset_dir);
        self.presets_listed_at = None;
    }

    pub fn watch_thread_priority(&mut self)
        ensures
            final(self)@ == old(self)@.watching_thread_priority(),
            final(self).stream_failures == old(self).stream_failures,
    {
        self.thread_priority_watched = true;
    }

    /// Has the settings saved to a file of the user's choice.
    pub fn save_state(&mut self, path: String)
        ensures
            final(self)@ == old(self)@.acted(ActionView::SaveState(path@)),
            final(self).stream_failures == old(self).stream_failures,
    {
        self.act(AppAction::SaveState(path));
    }

    /// Has the settings loaded from a file of the user's choice.
    pub fn load_state(&mut self, path: String)
        ensures
            final(self)@ == old(self)@.acted(ActionView::LoadState(path@)),
            final(self).stream_failures == old(self).stream_failures,
    {
        self.act(AppAction::LoadState(path));
    }

    /// Empties the outbox.
    pub fn take_actions(&mut self) -> (actions: Vec<AppAction>)
        ensures
            actions_view(actions@) == old(self)@.outbox,
            final(self)@ == (HostView { outbox: Seq::empty(), ..old(self)@ }),
            final(self).stream_failures == old(self).stream_failures,
    {
        let mut actions: Vec<AppAction> = Vec::new();
        std::mem::swap(&mut actions, &mut self.outbox);
        proof {
            assert(actions_view(self.outbox@) =~= Seq::empty());
        }
        actions
    }

    fn refresh_presets_if_stale(&mut self, now_ms: u64)
        ensures
            final(self)@ == old(self)@.presets_refreshed(now_ms),
            final(self).stream_failures == old(self).stream_failures,
    {
        let dir: String = match &self.preset_dir {
            Some(dir) => dir.clone(),
            None => {
                return ;
            },
        };
        let fresh: bool = match self.presets_listed_at {
            Some(at) => aged_less_than(now_ms, at, PRESET_LISTING_MAX_AGE_MS),
            None => false,
        };
        if fresh {
            return ;
        }
        self.presets_listed_at = Some(now_ms);
        self.act(AppAction::ListPresets(dir));
    }

    /// Whether saving now would replace a preset that the user has not asked to replace; arms the
    /// confirmation, or uses it up.
    pub fn needs_overwrite_confirmation(&mut self, exists: bool, name: &String, now_ms: u64) -> (r:
        bool)
        ensures
            r == (exists && !old(self)@.armed(name@, now_ms)),
            final(self)@ == (HostView {
                pending_overwrite: if r {
                    Some((name@, now_ms))
                } else {
                    None
                },
                ..old(self)@
            }),
            final(self).stream_failures == old(self).stream_failures,
    {
        overwrite_refused(&mut self.pending_overwrite, exists, name, now_ms)
    }

    /// Reports the audio thread's elevation once, when its outcome is there.
    pub fn report_thread_priority(
        &mut self,
        outcome: Option<(ThreadPriorityOutcome, Option<ErrorCode>)>,
    )
        ensures
            final(self)@ == old(self)@.priority_reported(outcome),
            final(self).stream_failures == old(self).stream_failures,
    {
        if !self.thread_priority_watched {
            return ;
        }
        if let Some((answer, code)) = outcome {
            self.thread_priority_watched = false;
            if let Some(c) = code {
                self.push_notice(c, thread_priority_detail(answer));
            }
        }
    }

    fn stop_streams(&mut self)
        ensures
            final(self)@ == old(self)@.stopped(),
            final(self).stream_failures == old(self).stream_failures,
    {
        if self.streams_held {
            self.streams_held = false;
            self.act(AppAction::StopStreams);
        }
    }

    fn stream_failed(&mut self, code: ErrorCode, detail: String)
        ensures
            final(self)@ == old(self)@.stream_failed(code, detail@),
            final(self).stream_failures == old(self).stream_failures,
    {
        if code == ErrorCode::DeviceLost {
            self.stop_streams();
        }
        self.push_notice(code, detail);
    }

    /// Turns what the error callbacks have reported into notices, a bounded number of them.
    pub fn drain_stream_failures<D>(&mut self, describe: D) where
        D: Fn(&StreamFailure) -> (bool, String),

        requires
            forall|f: StreamFailure| #[trigger] call_requires(describe, (&f,)),
        ensures
            exists|told: Seq<ToldFailure>| #[trigger]
                told_as(describe, told)
                    && told_from(old(self).stream_failures, told, final(self).stream_failures)
                    && final(self)@ == old(self)@.after_watched(told, old(self).stream_failures),
    {
        let mut taken: Option<StreamFailureWatch> = None;
        std::mem::swap(&mut taken, &mut self.stream_failures);
        if let Some(mut watch) = taken {
            let ghost first = watch;
            let ghost mut told: Seq<ToldFailure> = Seq::empty();
            proof {
                assert(first.input.answered() =~= first.input.answered() + input_answers(told));
                assert(first.output.answered() =~= first.output.answered() + output_answers(told));
            }
            let mut i: usize = 0;
            let mut more: bool = true;
            while i < STREAM_FAILURE_DRAIN_BATCH && more
                invariant
                    forall|f: StreamFailure| #[trigger] call_requires(describe, (&f,)),
                    i <= STREAM_FAILURE_DRAIN_BATCH,
                    more ==> told.len() == i,
                    !more ==> told.len() < i,
                    told_as(describe, told),
                    watch.same_devices(&first),
                    watch.input.answered() == first.input.answered() + input_answers(told) + (
                    if more {
                        Seq::empty()
                    } else {
                        seq![None]
                    }),
                    watch.output.answered() == first.output.answered() + output_answers(told) + (
                    if more {
                        Seq::empty()
                    } else {
                        seq![None]
                    }),
                    self.stream_failures is None,
                    self@ == old(self)@.after_failures(told, first),
                decreases STREAM_FAILURE_DRAIN_BATCH - i,
            {
                match watch.pop() {
                    None => {
                        more = false;
                    },
                    Some((direction, failure)) => {
                        let (means_loss, said) = describe(&failure);
                        let detail: String = watch.detail(direction, said.as_str());
                        let code: ErrorCode = stream_failure_code(&failure, means_loss);
                        proof {
                            let one = ToldFailure {
                                direction,
                                failure,
                                means_loss,
                                said: said@,
                            };
                            let grown = told.push(one);
                            assert(grown.drop_last() =~= told);
                            assert(watch.input.answered() =~= first.input.answered()
                                + input_answers(grown));
                            assert(watch.output.answered() =~= first.output.answered()
                                + output_answers(grown));
                            assert(described(describe, failure, means_loss, said@));
                            assert forall|j: int| 0 <= j < grown.len() implies described(
                                describe,
                                (#[trigger] grown[j]).failure,
                                grown[j].means_loss,
                                grown[j].said,
                            ) by {
                                if j < told.len() {
                                    assert(grown[j] == told[j]);
                                }
                            }
                            told = grown;
                        }
                        self.stream_failed(code, detail);
                    },
                }
                i += 1;
            }
            self.stream_failures = Some(watch);
            proof {
                assert(told_as(describe, told));
            }
        } else {
            proof {
                assert(told_as(describe, Seq::empty()));
            }
        }
    }

    /// What a load's end changes, given what its source is shown as.
    pub fn finish_load(
        &mut self,
        target: Target,
        source: String,
        outcome: LoadOutcomeSummary,
        shown: String,
    )
        ensures
            final(self)@ == old(self)@.load_finished(target, source@, outcome, shown@),
            final(self).stream_failures == old(self).stream_failures,
    {
        match outcome {
            LoadOutcomeSummary::Loaded { warning } => {
                self.set_name(target, Some(shown));
                if let Some(w) = warning {
                    self.push_notice(w.code, w.detail);
                }
            },
            LoadOutcomeSummary::Unloaded => {
                self.set_name(target, None);
            },
            LoadOutcomeSummary::Failed(error) => {
                let detail: String = if text::contains(error.detail.as_str(), source.as_str()) {
                    error.detail
                } else {
                    joined_text(source, error.detail.as_str())
                };
                self.push_notice(error.code, detail);
            },
            LoadOutcomeSummary::NotDelivered => {
                self.push_notice(ErrorCode::Host(HostCode::LoadNotDelivered), source);
            },
        }
    }

    fn set_name(&mut self, target: Target, name: Option<String>)
        ensures
            final(self)@ == old(self)@.named(target, ui_host::text_view(name)),
            final(self).stream_failures == old(self).stream_failures,
    {
        match target {
            Target::Nam => {
                self.loaded_model_name = name;
            },
            Target::Ir => {
                self.loaded_ir_name = name;
            },
        }
    }

    /// A load ended. Its source is shown by its file name.
    pub fn handle_load_finished(
        &mut self,
        target: Target,
        source: String,
        outcome: LoadOutcomeSummary,
    ) -> (shown: Ghost<Seq<char>>)
        ensures
            text::names_path(shown@, source@),
            final(self)@ == old(self)@.load_finished(target, source@, outcome, shown@),
            final(self).stream_failures == old(self).stream_failures,
    {
        let name: String = text::basename(source.as_str());
        let ghost said = name@;
        self.finish_load(target, source, outcome, name);
        Ghost(said)
    }

    fn relabel(&mut self, target: Target, outcome: &LoadOutcomeSummary, stored: Option<String>)
        ensures
            final(self)@ == old(self)@.relabelled(target, *outcome, ui_host::text_view(stored)),
            final(self).stream_failures == old(self).stream_failures,
    {
        match outcome {
            LoadOutcomeSummary::Loaded { .. } => {
                self.set_name(target, stored);
            },
            LoadOutcomeSummary::Unloaded => {
                self.set_name(target, None);
            },
            LoadOutcomeSummary::Failed(_) => {},
            LoadOutcomeSummary::NotDelivered => {},
        }
    }

    /// Folds a recall into the two names and the notices about missing files.
    fn apply_recall_summary(&mut self, outcome: RecallOutcomeSummary, state: &State)
        ensures
            final(self)@ == old(self)@.recalled(outcome, state@),
            final(self).stream_failures == old(self).stream_failures,
    {
        let nam_name: Option<String> = match &state.nam {
            Some(f) => Some(f.display_name.clone()),
            None => None,
        };
        let ir_name: Option<String> = match &state.ir {
            Some(f) => Some(f.display_name.clone()),
            None => None,
        };
        self.relabel(Target::Nam, &outcome.nam, nam_name);
        self.relabel(Target::Ir, &outcome.ir, ir_name);
        if let Some(name) = outcome.nam_missing {
            self.push_notice(ErrorCode::Host(HostCode::ReferenceMissing), name);
        }
        if let Some(name) = outcome.ir_missing {
            self.push_notice(ErrorCode::Host(HostCode::ReferenceMissing), name);
        }
    }

    /// Raises one notice for every report, in order.
    fn push_all(&mut self, reports: &Vec<Report>)
        ensures
            final(self)@ == old(self)@.noticed_all(reports@),
            final(self).stream_failures == old(self).stream_failures,
    {
        let mut i: usize = 0;
        proof {
            assert(reports@.take(0) =~= Seq::empty());
        }
        while i < reports.len()
            invariant
                i <= reports@.len(),
                self@ == old(self)@.noticed_all(reports@.take(i as int)),
                self.stream_failures == old(self).stream_failures,
            decreases reports@.len() - i,
        {
            proof {
                assert(reports@.take(i + 1).drop_last() =~= reports@.take(i as int));
            }
            self.push_notice(reports[i].code, reports[i].detail.clone());
            i += 1;
        }
        proof {
            assert(reports@.take(reports@.len() as int) =~= reports@);
        }
    }

    /// Folds one event into the host. `state` is the shared settings now.
    pub fn handle_event(&mut self, event: AppEvent, state: &State) -> (shown: Ghost<Seq<char>>)
        ensures
            final(self)@ == old(self)@.after_event(event, state@, shown@),
            event matches AppEvent::LoadFinished { source, .. } ==> text::names_path(
                shown@,
                source@,
            ),
            final(self).stream_failures == old(self).stream_failures,
    {
        match event {
            AppEvent::LoadFinished { target, source, outcome } => {
                return self.handle_load_finished(target, source, outcome);
            },
            AppEvent::Scanning(progress) => {
                self.scan_progress = Some(progress);
            },
            AppEvent::ScanFinished { warnings, save_error } => {
                self.scan_progress = None;
                self.push_all(&warnings);
                if let Some(detail) = save_error {
                    self.push_notice(ErrorCode::Host(HostCode::ScanSaveFailed), detail);
                }
            },
            AppEvent::StateSaved { path, error } => {
                match error {
                    Some(reason) => {
                        self.push_notice(
                            ErrorCode::Host(HostCode::StateSaveFailed),
                            joined_text(path, reason.as_str()),
                        );
                    },
                    None => {
                        self.last_saved = state.copy();
                    },
                }
            },
            AppEvent::StateLoaded { path, recall, error } => {
                match error {
                    Some(reason) => {
                        self.push_notice(
                            ErrorCode::Host(HostCode::StateLoadFailed),
                            joined_text(path, reason.as_str()),
                        );
                    },
                    None => {
                        if let Some(summary) = recall {
                            self.apply_recall_summary(summary, state);
                        }
                        self.last_saved = state.copy();
                    },
                }
            },
            AppEvent::PresetsListed(presets) => {
                self.presets = presets;
            },
            AppEvent::StreamFailed { failure, message_means_loss, detail } => {
                let code: ErrorCode = stream_failure_code(&failure, message_means_loss);
                self.stream_failed(code, detail);
            },
        }
        Ghost(Seq::empty())
    }

    /// Replaces what the meters show by what one drain of the telemetry ring read.
    pub fn read_meters(&mut self, entries: &Vec<TelemetryEntry>)
        ensures
            final(self)@ == old(self)@.metered(entries@),
            final(self).stream_failures == old(self).stream_failures,
    {
        let mut readings: Readings = Readings::none();
        readings.read(Listener::Application, entries, Ghost(Seq::empty()));
        proof {
            assert(Seq::<TelemetryEntry>::empty() + entries@ =~= entries@);
        }
        if let Some(peak) = readings.input_peak {
            self.input_meter.peak_db = peak;
        }
        if let Some(average) = readings.input_average {
            self.input_meter.rms_db = average;
        }
        if let Some(peak) = readings.output_peak {
            self.output_meter.peak_db = peak;
        }
        if let Some(average) = readings.output_average {
            self.output_meter.rms_db = average;
        }
    }

    /// Drops the notices that are to go.
    fn drop_notices(&mut self, id: u64, exists: Option<&String>)
        ensures
            final(self)@ == (HostView {
                notices: without(
                    old(self)@.notices,
                    match exists {
                        Some(name) => Unwanted::Exists(name@),
                        None => Unwanted::Id(id),
                    },
                ),
                ..old(self)@
            }),
            final(self).stream_failures == old(self).stream_failures,
    {
        let ghost unwanted = match exists {
            Some(name) => Unwanted::Exists(name@),
            None => Unwanted::Id(id),
        };
        let ghost list = ui_host::notices_view(self.notices@);
        let mut kept: Vec<UiNotice> = Vec::new();
        let mut i: usize = 0;
        proof {
            assert(list.take(0) =~= Seq::empty());
            assert(ui_host::notices_view(kept@) =~= without(list.take(0), unwanted));
        }
        while i < self.notices.len()
            invariant
                *self == *old(self),
                list == ui_host::notices_view(self.notices@),
                unwanted == (match exists {
                    Some(name) => Unwanted::Exists(name@),
                    None => Unwanted::Id(id),
                }),
                i <= self.notices@.len(),
                ui_host::notices_view(kept@) == without(list.take(i as int), unwanted),
            decreases self.notices@.len() - i,
        {
            let n: &UiNotice = &self.notices[i];
            let goes: bool = match exists {
                Some(name) => n.code == ErrorCode::Host(HostCode::PresetExists) && n.detail
                    == *name,
                None => n.id == id,
            };
            proof {
                assert(list.take(i + 1).drop_last() =~= list.take(i as int));
                assert(list.take(i + 1).last() == n@);
            }
            if !goes {
                let ghost before = kept@;
                kept.push(UiNotice { id: n.id, code: n.code, detail: n.detail.clone() });
                proof {
                    assert(ui_host::notices_view(kept@) =~= ui_host::notices_view(before).push(n@));
                }
            }
            i += 1;
        }
        proof {
            assert(list.take(list.len() as int) =~= list);
        }
        self.notices = kept;
    }

    fn save_preset(&mut self, name: String, save: SaveTarget, now_ms: u64)
        ensures
            final(self)@ == old(self)@.after_save(
                name@,
                ui_host::text_view(save.path),
                save.exists,
                now_ms,
            ),
            final(self).stream_failures == old(self).stream_failures,
    {
        if self.preset_dir.is_none() {
            self.push_notice(
                ErrorCode::Host(HostCode::PresetLocationUnknown),
                "namir_platform::config_dir resolved nothing on this system".to_owned(),
            );
            return ;
        }
        match save.path {
            None => {
                self.push_notice(ErrorCode::Host(HostCode::PresetNameRefused), name);
            },
            Some(path) => {
                if self.needs_overwrite_confirmation(save.exists, &name, now_ms) {
                    self.push_notice(ErrorCode::Host(HostCode::PresetExists), name);
                    return ;
                }
                self.drop_notices(0, Some(&name));
                self.act(AppAction::SaveState(path));
                self.presets_listed_at = None;
            },
        }
    }

    fn submit(&mut self, key: &str, value: Option<Single>, state: &mut State)
        requires
            old(state).wf(),
        ensures
            final(state).wf(),
            final(self).stream_failures == old(self).stream_failures,
            registry::known(key@) ==> ({
                let entry = registry::registry_entries()[registry::place_of(key@)];
                let v = match value {
                    Some(given) => given,
                    None => entry.kind.default_spec(),
                };
                &&& final(self)@ == old(self)@.acted(
                    ActionView::SubmitParam(ParamChange { id: entry.id, value: v }),
                )
                &&& final(state)@ == (StateView {
                    params: state::with_value(old(state)@.params, key@, v),
                    ..old(state)@
                })
            }),
            !registry::known(key@) ==> final(self)@ == old(self)@ && final(state)@ == old(state)@,
    {
        let place: usize = match registry::position(key) {
            Some(i) => i,
            None => {
                return ;
            },
        };
        let entries: Vec<ParamDescriptor> = registry::registry();
        let entry: ParamDescriptor = entries[place];
        proof {
            registry::lemma_every_entry_is_valid(place as int);
        }
        let new_value: Single = match value {
            Some(given) => given,
            None => default_value_of(entry),
        };
        let _ = state.params.set(key, new_value);
        self.act(AppAction::SubmitParam(ParamChange { id: entry.id, value: new_value }));
    }

    /// Takes one request. A new value goes into the settings and to the audio engine; everything
    /// else goes to the worker or stays here. `save` is what the name of a preset to be saved
    /// resolves to, and is not looked at for any other request.
    pub fn dispatch(&mut self, intent: UiIntent, state: &mut State, save: SaveTarget, now_ms: u64)
        requires
            old(state).wf(),
        ensures
            final(state).wf(),
            final(self)@ == old(self)@.after_intent(
                intent,
                ui_host::text_view(save.path),
                save.exists,
                now_ms,
            ),
            final(state)@ == settings_after(old(state)@, intent),
            final(self).stream_failures == old(self).stream_failures,
    {
        match intent {
            UiIntent::SetParam { key, value } => {
                self.submit(key, Some(value), state);
            },
            UiIntent::ResetParamToDefault { key } => {
                self.submit(key, None, state);
            },
            UiIntent::SavePreset { name } => {
                self.save_preset(name, save, now_ms);
            },
            UiIntent::RecallPreset { path } => {
                self.act(AppAction::LoadState(path));
            },
            UiIntent::LoadLibraryEntry(path) => {
                self.act(AppAction::LoadLibraryEntry(path));
            },
            UiIntent::RescanLibraryRequested => {
                self.act(AppAction::RescanLibrary);
            },
            UiIntent::CancelScanRequested => {
                self.act(AppAction::CancelScan);
            },
            UiIntent::DismissNotice { id } => {
                self.drop_notices(id, None);
            },
        }
    }
}

impl HostView {
    /// One frame: the events, the stream failures, the audio thread's elevation, the list of
    /// presets and the meters, in this order.
    pub open spec fn framed(
        self,
        events: Seq<AppEvent>,
        state: StateView,
        shown: Seq<Seq<char>>,
        watch: Option<StreamFailureWatch>,
        told: Seq<ToldFailure>,
        priority: Option<(ThreadPriorityOutcome, Option<ErrorCode>)>,
        now_ms: u64,
        entries: Seq<TelemetryEntry>,
    ) -> HostView {
        self.after_events(events, state, shown).after_watched(told, watch).priority_reported(
            priority,
        ).presets_refreshed(now_ms).metered(entries)
    }
}

/// A snapshot shows a host and, of one and the same settings, both the values and whether they
/// differ from the saved ones.
pub open spec fn shows(s: UiSnapshot, host: HostView, state: StateView, index_len: usize) -> bool {
    &&& s.params.values@ == state.params
    &&& s.unsaved_changes == !state.same(host.last_saved)
    &&& s.input_meter == host.input_meter
    &&& s.output_meter == host.output_meter
    &&& ui_host::text_view(s.loaded_model_name) == host.model_name
    &&& ui_host::text_view(s.loaded_ir_name) == host.ir_name
    &&& s.library == (LibrarySnapshot { index_len, scan: host.scan })
    &&& ui_host::mode_view(s.audio_mode) == host.audio_mode
    &&& ui_host::notices_view(s.notices@) == host.notices
    &&& ui_host::presets_view(s.presets@) == host.presets
    &&& !s.independent_channels_relevant
}

impl AppHost {
    /// Folds every event of a frame into the host.
    fn handle_events(&mut self, events: Vec<AppEvent>, state: &State) -> (shown: Ghost<
        Seq<Seq<char>>,
    >)
        ensures
            names_shown(events@, shown@),
            final(self)@ == old(self)@.after_events(events@, state@, shown@),
            final(self).stream_failures == old(self).stream_failures,
    {
        let ghost all = events@;
        let ghost mut shown: Seq<Seq<char>> = Seq::empty();
        let mut left: Vec<AppEvent> = events;
        let ghost mut done: int = 0;
        proof {
            assert(all.skip(0) =~= all);
            assert(all.take(0) =~= Seq::empty());
        }
        while left.len() > 0
            invariant
                0 <= done <= all.len(),
                left@ == all.skip(done),
                shown.len() == done,
                names_shown(all.take(done), shown),
                self@ == old(self)@.after_events(all.take(done), state@, shown),
                self.stream_failures == old(self).stream_failures,
            decreases left@.len(),
        {
            let event: AppEvent = left.remove(0);
            let ghost taken = event;
            let ghost before = self@;
            let said: Ghost<Seq<char>> = self.handle_event(event, state);
            proof {
                let grown = shown.push(said@);
                let head = all.take(done + 1);
                assert(head.drop_last() =~= all.take(done));
                assert(head.last() == taken);
                lemma_names_beyond_do_not_matter(
                    old(self)@,
                    all.take(done),
                    state@,
                    shown,
                    grown,
                );
                assert(names_shown(head, grown)) by {
                    assert forall|i: int| 0 <= i < head.len() implies (
                    #[trigger] head[i] matches AppEvent::LoadFinished { source, .. }
                        ==> text::names_path(grown[i], source@)) by {
                        if i < done {
                            assert(head[i] == all.take(done)[i] && grown[i] == shown[i]);
                        }
                    }
                }
                assert(all.skip(done).skip(1) =~= all.skip(done + 1));
                shown = grown;
                done = done + 1;
            }
        }
        proof {
            assert(all.take(all.len() as int) =~= all);
        }
        Ghost(shown)
    }

    /// One frame: takes in everything that has happened since the last one and shows the result.
    ///
    /// `state` is the shared settings, read once, after the events were collected. `priority` is
    /// the elevation's outcome with its catalogue entry, once it is known.
    pub fn snapshot<D>(
        &mut self,
        events: Vec<AppEvent>,
        state: &State,
        describe: D,
        priority: Option<(ThreadPriorityOutcome, Option<ErrorCode>)>,
        now_ms: u64,
        entries: &Vec<TelemetryEntry>,
        index_len: usize,
    ) -> (s: UiSnapshot) where D: Fn(&StreamFailure) -> (bool, String)
        requires
            forall|f: StreamFailure| #[trigger] call_requires(describe, (&f,)),
        ensures
            exists|shown: Seq<Seq<char>>, told: Seq<ToldFailure>|
                names_shown(events@, shown) && told_as(describe, told)
                    && told_from(old(self).stream_failures, told, final(self).stream_failures)
                    && final(self)@ == #[trigger] old(self)@.framed(
                    events@,
                    state@,
                    shown,
                    old(self).stream_failures,
                    told,
                    priority,
                    now_ms,
                    entries@,
                ),
            shows(s, final(self)@, state@, index_len),
    {
        let shown: Ghost<Seq<Seq<char>>> = self.handle_events(events, state);
        let ghost after = self@;
        self.drain_stream_failures(describe);
        let ghost told = choose|told: Seq<ToldFailure>| #[trigger]
            told_as(describe, told)
                && told_from(old(self).stream_failures, told, self.stream_failures) && self@
                == after.after_watched(told, old(self).stream_failures);
        self.report_thread_priority(priority);
        self.refresh_presets_if_stale(now_ms);
        self.read_meters(entries);
        proof {
            assert(told_as(describe, told));
            assert(self@ == old(self)@.framed(
                events@,
                state@,
                shown@,
                old(self).stream_failures,
                told,
                priority,
                now_ms,
                entries@,
            ));
        }
        UiSnapshot {
            params: state.params.copy(),
            input_meter: self.input_meter,
            output_meter: self.output_meter,
            loaded_model_name: ui_host::copy_text(&self.loaded_model_name),
            loaded_ir_name: ui_host::copy_text(&self.loaded_ir_name),
            library: LibrarySnapshot { index_len, scan: self.scan_progress },
            audio_mode: ui_host::copy_mode(&self.audio_mode),
            unsaved_changes: !state.same(&self.last_saved),
            notices: ui_host::copy_notices(&self.notices),
            presets: ui_host::copy_presets(&self.presets),
            independent_channels_relevant: false,
        }
    }
}

proof fn lemma_names_beyond_do_not_matter(
    host: HostView,
    events: Seq<AppEvent>,
    state: StateView,
    shown: Seq<Seq<char>>,
    longer: Seq<Seq<char>>,
)
    requires
        shown.len() == events.len(),
        longer.len() >= shown.len(),
        forall|i: int| 0 <= i < shown.len() ==> #[trigger] longer[i] == shown[i],
    ensures
        host.after_events(events, state, shown) == host.after_events(events, state, longer),
    decreases events.len(),
{
    if events.len() > 0 {
        let rest = events.drop_last();
        let cut = shown.take(rest.len() as int);
        lemma_names_beyond_do_not_matter(host, rest, state, cut, shown);
        lemma_names_beyond_do_not_matter(host, rest, state, cut, longer);
        assert(longer[events.len() - 1] == shown[events.len() - 1]);
    }
}

/// `"{subject}: {reason}"`.
fn joined_text(subject: String, reason: &str) -> (s: String)
    ensures
        s@ == subject@ + ": "@ + reason@,
{
    let mut s: String = subject;
    s.append(": ");
    s.append(reason);
    s
}

/// Fewer stream failures than a frame may tell are told only where both rings were asked and last
/// answered that they were empty.
pub proof fn lemma_a_short_drain_emptied_both_rings(
    before: StreamFailureWatch,
    told: Seq<ToldFailure>,
    after: StreamFailureWatch,
)
    requires
        told_from(Some(before), told, Some(after)),
        told.len() < 8,
    ensures
        both_were_empty(before, after),
        after.input.answered().len() > before.input.answered().len(),
        after.input.answered().last() is None,
        after.output.answered().len() > before.output.answered().len(),
        after.output.answered().last() is None,
{
}

proof fn lemma_answers_hold_what_is_told(told: Seq<ToldFailure>)
    ensures
        ring::failures_among(input_answers(told)) == told_of(Direction::Input, told),
        ring::failures_among(output_answers(told)) == told_of(Direction::Output, told),
    decreases told.len(),
{
    if told.len() > 0 {
        lemma_answers_hold_what_is_told(told.drop_last());
        assert(input_answers(told).drop_last() =~= input_answers(told.drop_last()));
        if told.last().direction == Direction::Output {
            assert(output_answers(told).drop_last() =~= output_answers(told.drop_last()));
        }
    }
}

/// Every stream failure that a frame takes out of a ring is told, none is told that was not taken
/// out, and no more are told than one frame may tell.
pub proof fn lemma_what_is_taken_is_told(
    before: StreamFailureWatch,
    told: Seq<ToldFailure>,
    after: StreamFailureWatch,
)
    requires
        told_from(Some(before), told, Some(after)),
    ensures
        told.len() <= 8,
        after.input.taken() == before.input.taken() + told_of(Direction::Input, told),
        after.output.taken() == before.output.taken() + told_of(Direction::Output, told),
{
    let (b_in, b_out) = (before.input.answered(), before.output.answered());
    let last = last_answer(told);
    lemma_answers_hold_what_is_told(told);
    ring::lemma_failures_among_in_turn(b_in, input_answers(told));
    ring::lemma_failures_among_in_turn(b_in + input_answers(told), last);
    ring::lemma_failures_among_in_turn(b_out, output_answers(told));
    ring::lemma_failures_among_in_turn(b_out + output_answers(told), last);
    reveal_with_fuel(ring::failures_among, 2);
}

/// Saving under the name of a preset that exists writes nothing the first time; the same name
/// again, soon enough, is the confirmation and writes; anything later or under another name is
/// refused like the first.
pub proof fn lemma_overwriting_takes_two_presses(
    host: HostView,
    name: Seq<char>,
    path: Seq<char>,
    first_ms: u64,
    other: Seq<char>,
    second_ms: u64,
)
    requires
        host.preset_dir is Some,
        !host.armed(name, first_ms),
        first_ms <= second_ms,
    ensures
        ({
            let refused = host.after_save(name, Some(path), true, first_ms);
            let soon = second_ms - first_ms < OVERWRITE_CONFIRM_WINDOW_MS;
            let again = refused.after_save(name, Some(path), true, second_ms);
            let elsewhere = refused.after_save(other, Some(path), true, second_ms);
            &&& refused.outbox == host.outbox.push(
                ActionView::Record(ErrorCode::Host(HostCode::PresetExists), name),
            )
            &&& soon ==> again.outbox == refused.outbox.push(ActionView::SaveState(path))
            &&& soon ==> !again.armed(name, second_ms)
            &&& !soon ==> again.outbox == refused.outbox.push(
                ActionView::Record(ErrorCode::Host(HostCode::PresetExists), name),
            )
            &&& other != name ==> elsewhere.outbox == refused.outbox.push(
                ActionView::Record(ErrorCode::Host(HostCode::PresetExists), other),
            )
        }),
{
}

/// Saving under a name that no preset has writes at once, and forgets any refusal.
pub proof fn lemma_a_new_name_is_saved_at_once(
    host: HostView,
    name: Seq<char>,
    path: Seq<char>,
    now_ms: u64,
)
    requires
        host.preset_dir is Some,
    ensures
        ({
            let saved = host.after_save(name, Some(path), false, now_ms);
            &&& saved.outbox == host.outbox.push(ActionView::SaveState(path))
            &&& saved.pending_overwrite is None
            &&& saved.presets_listed_at is None
        }),
{
}

/// Dropping notices keeps every other one, and only those, in their order.
pub proof fn lemma_only_the_unwanted_go(list: Seq<NoticeView>, unwanted: Unwanted, n: NoticeView)
    ensures
        without(list, unwanted).contains(n) <==> list.contains(n) && !unwanted.matches_notice(n),
        without(list, unwanted).len() <= list.len(),
    decreases list.len(),
{
    if list.len() > 0 {
        let front = list.drop_last();
        let rest = without(front, unwanted);
        lemma_only_the_unwanted_go(front, unwanted, n);
        let kept = without(list, unwanted);
        if list.contains(n) {
            let i = choose|i: int| 0 <= i < list.len() && list[i] == n;
            if i < front.len() {
                assert(front[i] == n);
                assert(front.contains(n));
            }
        }
        if front.contains(n) {
            let i = choose|i: int| 0 <= i < front.len() && front[i] == n;
            assert(list[i] == n);
        }
        if rest.contains(n) {
            let i = choose|i: int| 0 <= i < rest.len() && rest[i] == n;
            assert(kept[i] == n);
        }
        if kept.contains(n) {
            let i = choose|i: int| 0 <= i < kept.len() && kept[i] == n;
            if i < rest.len() {
                assert(rest[i] == n);
                assert(rest.contains(n));
            } else {
                assert(n == list.last());
                assert(list[list.len() - 1] == n);
            }
        }
        if n == list.last() && !unwanted.matches_notice(n) {
            assert(kept[kept.len() - 1] == n);
        }
    }
}

/// The numbers of the notices are those already given out, each once, and the list is not too long.
pub open spec fn numbered(host: HostView) -> bool {
    &&& host.notices.len() <= MAX_NOTICES
    &&& forall|i: int| 0 <= i < host.notices.len() ==> (#[trigger] host.notices[i]).id
        < host.next_notice_id
    &&& forall|i: int, j: int|
        0 <= i < j < host.notices.len() ==> (#[trigger] host.notices[i]).id
            != (#[trigger] host.notices[j]).id
}

/// Raising a notice keeps the numbers apart and the list short, tells the user at least what was
/// not told yet, and always leaves a log record.
pub proof fn lemma_notices_stay_numbered(host: HostView, code: ErrorCode, detail: Seq<char>)
    requires
        numbered(host),
        host.next_notice_id < u64::MAX,
    ensures
        numbered(host.noticed(code, detail)),
        already_told(host.noticed(code, detail).notices, code, detail),
        host.noticed(code, detail).outbox == host.outbox.push(ActionView::Record(code, detail)),
{
    let list = host.notices;
    let notice = NoticeView { id: host.next_notice_id, code, detail };
    let after = host.noticed(code, detail);
    if !already_told(list, code, detail) {
        let long = list.push(notice);
        let cut = long.len() - after.notices.len();
        assert forall|i: int| 0 <= i < after.notices.len() implies #[trigger] after.notices[i]
            == long[i + cut] by {}
        assert(after.notices[after.notices.len() - 1] == notice);
        assert forall|i: int, j: int| 0 <= i < j < after.notices.len() implies (
        #[trigger] after.notices[i]).id != (#[trigger] after.notices[j]).id by {
            assert(after.notices[i] == long[i + cut] && after.notices[j] == long[j + cut]);
            if j + cut < list.len() {
                assert(list[i + cut].id != list[j + cut].id);
            }
        }
    }
}

/// The same entry with the same detail is not told twice.
pub proof fn lemma_nothing_is_told_twice(host: HostView, code: ErrorCode, detail: Seq<char>)
    requires
        numbered(host),
        host.next_notice_id < u64::MAX,
    ensures
        host.noticed(code, detail).noticed(code, detail).notices == host.noticed(
            code,
            detail,
        ).notices,
{
    lemma_notices_stay_numbered(host, code, detail);
}

/// A lost device stops the streams once, however often it is reported.
pub proof fn lemma_streams_stop_once(host: HostView)
    ensures
        !host.stopped().streams_held,
        host.stopped().stopped() == host.stopped(),
{
}

/// A failure that is not a lost device leaves the streams running.
pub proof fn lemma_other_failures_stop_nothing(
    host: HostView,
    failure: StreamFailure,
    means_loss: bool,
    detail: Seq<char>,
)
    requires
        failure is Xrun || (failure is Other && !means_loss),
    ensures
        host.stream_failed(failure_code(failure, means_loss), detail).streams_held
            == host.streams_held,
        host.stream_failed(failure_code(failure, means_loss), detail).outbox
            == host.outbox.push(ActionView::Record(ErrorCode::StreamFailed, detail)),
{
}

/// Resetting a parameter stores exactly its default.
pub proof fn lemma_reset_restores_the_default(state: StateView, key: &'static str)
    requires
        registry::known(key@),
        state.params.len() == registry::registry_entries().len(),
    ensures
        ({
            let i = registry::place_of(key@);
            let reset = settings_after(state, UiIntent::ResetParamToDefault { key });
            &&& reset.params[i] == registry::registry_entries()[i].kind.default_spec()
            &&& forall|j: int|
                0 <= j < state.params.len() && j != i ==> reset.params[j] == state.params[j]
        }),
{
    let i = registry::place_of(key@);
    assert(registry::first_at(key@, i)) by {
        let some = choose|j: int| registry::keyed(key@, j);
        registry::lemma_a_known_key_has_a_first_place(key@, some);
    }
    registry::lemma_every_entry_is_valid(i);
}

/// Once the settings have been saved or recalled, they do not differ from what was saved.
pub proof fn lemma_saved_settings_are_not_unsaved(
    host: HostView,
    path: String,
    recall: Option<RecallOutcomeSummary>,
    state: StateView,
)
    requires
        forall|i: int| 0 <= i < state.params.len() ==> !(#[trigger] state.params[i]).is_nan(),
    ensures
        ({
            let saved = AppEvent::StateSaved { path, error: None };
            let loaded = AppEvent::StateLoaded { path, recall, error: None };
            &&& state.same(host.after_event(saved, state, Seq::empty()).last_saved)
            &&& state.same(host.after_event(loaded, state, Seq::empty()).last_saved)
        }),
{
}

/// A failed save or recall leaves the baseline, and so the unsaved marker, alone.
pub proof fn lemma_a_failed_save_or_recall_keeps_the_baseline(
    host: HostView,
    path: String,
    reason: String,
    recall: Option<RecallOutcomeSummary>,
    state: StateView,
)
    ensures
        host.after_event(
            AppEvent::StateSaved { path, error: Some(reason) },
            state,
            Seq::empty(),
        ).last_saved == host.last_saved,
        host.after_event(
            AppEvent::StateLoaded { path, recall, error: Some(reason) },
            state,
            Seq::empty(),
        ).last_saved == host.last_saved,
{
}

/// However often frames come, the presets are listed at most once in the maximum age of a list.
pub proof fn lemma_presets_are_listed_at_most_once_an_age(host: HostView, first_ms: u64, next_ms: u64)
    requires
        first_ms <= next_ms,
        next_ms - first_ms < PRESET_LISTING_MAX_AGE_MS,
        host.preset_dir is Some,
    ensures
        ({
            let asked = host.presets_refreshed(first_ms);
            asked != host ==> asked.presets_refreshed(next_ms) == asked
        }),
{
}

/// A drain that reads nothing leaves the meters as they were, and what a drain does read replaces
/// what was shown, however loud that was.
pub proof fn lemma_meters_hold_and_follow(
    host: HostView,
    louder: HostView,
    entries: Seq<TelemetryEntry>,
)
    ensures
        host.metered(Seq::empty()) == host,
        Readings::of(Listener::Application, entries).output_peak is Some ==> host.metered(entries).output_meter.peak_db
            == louder.metered(entries).output_meter.peak_db,
        Readings::of(Listener::Application, entries).input_peak is Some ==> host.metered(entries).input_meter.peak_db
            == louder.metered(entries).input_meter.peak_db,
{
}

/// After a recall, each stage is named after its own reference in the recalled settings, whatever
/// the other one is: a file that was loaded by its display name, one that was unloaded not at all,
/// and where the load failed or was not delivered what played before keeps its name. The recalled
/// settings are the new baseline, and the user is told of every reference that is missing, the
/// model's first; nothing else changes.
pub proof fn lemma_a_recall_names_what_it_recalled(
    host: HostView,
    path: String,
    outcome: RecallOutcomeSummary,
    state: StateView,
    shown: Seq<char>,
)
    ensures
        ({
            let event = AppEvent::StateLoaded { path, recall: Some(outcome), error: None };
            let after = host.after_event(event, state, shown);
            let model_missing = if outcome.nam_missing is Some {
                seq![
                    ActionView::Record(
                        ErrorCode::Host(HostCode::ReferenceMissing),
                        outcome.nam_missing->0@,
                    ),
                ]
            } else {
                Seq::empty()
            };
            let ir_missing = if outcome.ir_missing is Some {
                seq![
                    ActionView::Record(
                        ErrorCode::Host(HostCode::ReferenceMissing),
                        outcome.ir_missing->0@,
                    ),
                ]
            } else {
                Seq::empty()
            };
            &&& outcome.nam is Loaded && state.nam is Some ==> after.model_name == Some(
                (state.nam->0).0,
            )
            &&& outcome.nam is Loaded && state.nam is None ==> after.model_name is None
            &&& outcome.nam is Unloaded ==> after.model_name is None
            &&& outcome.nam is Failed || outcome.nam is NotDelivered ==> after.model_name
                == host.model_name
            &&& outcome.ir is Loaded && state.ir is Some ==> after.ir_name == Some((state.ir->0).0)
            &&& outcome.ir is Loaded && state.ir is None ==> after.ir_name is None
            &&& outcome.ir is Unloaded ==> after.ir_name is None
            &&& outcome.ir is Failed || outcome.ir is NotDelivered ==> after.ir_name
                == host.ir_name
            &&& after.last_saved == state
            &&& after.outbox == host.outbox + model_missing + ir_missing
            &&& after == (HostView {
                model_name: after.model_name,
                ir_name: after.ir_name,
                last_saved: after.last_saved,
                outbox: after.outbox,
                notices: after.notices,
                next_notice_id: after.next_notice_id,
                ..host
            })
        }),
{
    assert(host.outbox + Seq::empty() =~= host.outbox);
}

/// A recall that brought no outcome with it, or that failed, renames nothing; a failed one is told
/// with the path and the reason.
pub proof fn lemma_a_recall_without_an_outcome_renames_nothing(
    host: HostView,
    path: String,
    recall: Option<RecallOutcomeSummary>,
    reason: String,
    state: StateView,
    shown: Seq<char>,
)
    ensures
        ({
            let bare = AppEvent::StateLoaded { path, recall: None, error: None };
            let failed = AppEvent::StateLoaded { path, recall, error: Some(reason) };
            let after = host.after_event(failed, state, shown);
            &&& host.after_event(bare, state, shown) == (HostView { last_saved: state, ..host })
            &&& after.model_name == host.model_name
            &&& after.ir_name == host.ir_name
            &&& after.outbox == host.outbox.push(
                ActionView::Record(
                    ErrorCode::Host(HostCode::StateLoadFailed),
                    path@ + ": "@ + reason@,
                ),
            )
        }),
{
}

/// A load that ended names its own stage alone: by what its source is shown as where it was
/// loaded, with a warning told if there is one, and not at all where the stage was emptied. Where
/// it failed or was not delivered both names stay, and the user is told of the source: once, where
/// what is said of the failure names it already.
pub proof fn lemma_a_load_names_its_own_stage(
    host: HostView,
    source: String,
    outcome: LoadOutcomeSummary,
    state: StateView,
    shown: Seq<char>,
)
    ensures
        ({
            let model = host.after_event(
                AppEvent::LoadFinished { target: Target::Nam, source, outcome },
                state,
                shown,
            );
            let ir = host.after_event(
                AppEvent::LoadFinished { target: Target::Ir, source, outcome },
                state,
                shown,
            );
            let name = if outcome is Loaded {
                Some(shown)
            } else {
                None
            };
            &&& outcome is Loaded || outcome is Unloaded ==> model.model_name == name
                && ir.ir_name == name
            &&& outcome is Failed || outcome is NotDelivered ==> model.model_name
                == host.model_name && ir.ir_name == host.ir_name
            &&& model.ir_name == host.ir_name
            &&& ir.model_name == host.model_name
            &&& model.outbox == ir.outbox
            &&& outcome matches LoadOutcomeSummary::Loaded { warning: Some(w) } ==> model.outbox
                == host.outbox.push(ActionView::Record(w.code, w.detail@))
            &&& outcome matches LoadOutcomeSummary::Loaded { warning: None } ==> model.outbox
                == host.outbox
            &&& outcome is Unloaded ==> model.outbox == host.outbox
            &&& outcome is NotDelivered ==> model.outbox == host.outbox.push(
                ActionView::Record(ErrorCode::Host(HostCode::LoadNotDelivered), source@),
            )
            &&& outcome matches LoadOutcomeSummary::Failed(error) ==> {
                &&& model.outbox.len() == host.outbox.len() + 1
                &&& model.outbox.drop_last() == host.outbox
                &&& model.outbox.last() matches ActionView::Record(code, detail)
                &&& code == error.code
                &&& text::occurs(source@, detail)
                &&& text::occurs(error.detail@, detail)
                &&& text::occurs(source@, error.detail@) ==> detail == error.detail@
                &&& !text::occurs(source@, error.detail@) ==> detail.len() == source@.len()
                    + ": "@.len() + error.detail@.len()
            }
            &&& model.last_saved == host.last_saved
            &&& ir.last_saved == host.last_saved
        }),
{
    if let LoadOutcomeSummary::Failed(error) = outcome {
        let model = host.after_event(
            AppEvent::LoadFinished { target: Target::Nam, source, outcome },
            state,
            shown,
        );
        assert(model.outbox.drop_last() =~= host.outbox);
        let said = error.detail@;
        let long = source@ + ": "@ + said;
        if text::occurs(source@, said) {
            assert(said.subrange(0, 0int + said.len()) =~= said);
        } else {
            assert(long.subrange(0, 0int + source@.len()) =~= source@);
            let at = (source@ + ": "@).len() as int;
            assert(long.subrange(at, at + said.len()) =~= said);
        }
    }
}

/// A scan that reports is the scan that is shown, and one that has finished is shown no more;
/// every warning it brought is told, in order, and then that its result could not be kept.
pub proof fn lemma_a_scan_is_shown_while_it_runs(
    host: HostView,
    progress: ScanProgress,
    warnings: Vec<Report>,
    save_error: Option<String>,
    state: StateView,
    shown: Seq<char>,
)
    ensures
        ({
            let done = AppEvent::ScanFinished { warnings, save_error };
            let after = host.after_event(done, state, shown);
            &&& host.after_event(AppEvent::Scanning(progress), state, shown) == (HostView {
                scan: Some(progress),
                ..host
            })
            &&& after.scan is None
            &&& after.model_name == host.model_name
            &&& after.ir_name == host.ir_name
            &&& after.last_saved == host.last_saved
            &&& after.outbox == host.outbox + Seq::new(
                warnings@.len(),
                |i: int| ActionView::Record(warnings@[i].code, warnings@[i].detail@),
            ) + (if save_error is Some {
                seq![
                    ActionView::Record(ErrorCode::Host(HostCode::ScanSaveFailed), save_error->0@),
                ]
            } else {
                Seq::empty()
            })
        }),
{
    let quiet = HostView { scan: None, ..host };
    let told = quiet.noticed_all(warnings@);
    lemma_every_report_is_told(quiet, warnings@);
    assert(told.outbox + Seq::empty() =~= told.outbox);
}

/// Telling a list of reports adds one record for each, in order, and changes nothing but what the
/// user is told.
proof fn lemma_every_report_is_told(host: HostView, reports: Seq<Report>)
    ensures
        ({
            let after = host.noticed_all(reports);
            &&& after.outbox == host.outbox + Seq::new(
                reports.len(),
                |i: int| ActionView::Record(reports[i].code, reports[i].detail@),
            )
            &&& after == (HostView {
                outbox: after.outbox,
                notices: after.notices,
                next_notice_id: after.next_notice_id,
                ..host
            })
        }),
    decreases reports.len(),
{
    let after = host.noticed_all(reports);
    if reports.len() > 0 {
        lemma_every_report_is_told(host, reports.drop_last());
    }
    assert(after.outbox =~= host.outbox + Seq::new(
        reports.len(),
        |i: int| ActionView::Record(reports[i].code, reports[i].detail@),
    ));
}

/// A list of presets replaces the one there was and does nothing else; a save that worked makes
/// the settings the baseline and does nothing else; one that failed is told with the path and the
/// reason.
pub proof fn lemma_lists_and_saves_touch_nothing_else(
    host: HostView,
    presets: Vec<PresetSummary>,
    path: String,
    reason: String,
    state: StateView,
    shown: Seq<char>,
)
    ensures
        ({
            let listed = host.after_event(AppEvent::PresetsListed(presets), state, shown);
            let saved = AppEvent::StateSaved { path, error: None };
            let failed = AppEvent::StateSaved { path, error: Some(reason) };
            &&& listed.presets.len() == presets@.len()
            &&& forall|i: int|
                0 <= i < presets@.len() ==> (#[trigger] listed.presets[i]) == (
                    presets@[i].name@,
                    presets@[i].path@,
                )
            &&& listed == (HostView { presets: listed.presets, ..host })
            &&& host.after_event(saved, state, shown) == (HostView { last_saved: state, ..host })
            &&& host.after_event(failed, state, shown).outbox == host.outbox.push(
                ActionView::Record(
                    ErrorCode::Host(HostCode::StateSaveFailed),
                    path@ + ": "@ + reason@,
                ),
            )
        }),
{
}

/// A stream failure that means a lost device drops both streams, once, before the user is told;
/// no other failure does. Either way exactly what was said is told.
pub proof fn lemma_a_lost_device_stops_the_streams(
    host: HostView,
    failure: StreamFailure,
    means_loss: bool,
    detail: String,
    state: StateView,
    shown: Seq<char>,
)
    ensures
        ({
            let event = AppEvent::StreamFailed { failure, message_means_loss: means_loss, detail };
            let after = host.after_event(event, state, shown);
            let lost = failure is DeviceLost || (failure is Other && means_loss);
            let told = ActionView::Record(
                if lost {
                    ErrorCode::DeviceLost
                } else {
                    ErrorCode::StreamFailed
                },
                detail@,
            );
            &&& after.streams_held == (host.streams_held && !lost)
            &&& lost && host.streams_held ==> after.outbox == host.outbox.push(
                ActionView::StopStreams,
            ).push(told)
            &&& !lost || !host.streams_held ==> after.outbox == host.outbox.push(told)
            &&& after.model_name == host.model_name
            &&& after.ir_name == host.ir_name
        }),
{
}

/// What the watch tells of a failure opens with the side it came from, names that side's device,
/// and ends with what the backend said.
pub proof fn lemma_a_failure_names_its_own_device(
    watch: StreamFailureWatch,
    direction: Direction,
    said: Seq<char>,
)
    ensures
        ({
            let detail = watch.detail_text(direction, said);
            let device = if direction == Direction::Input {
                watch.input_device_name@
            } else {
                watch.output_device_name@
            };
            &&& text::opens(
                detail,
                if direction == Direction::Input {
                    "input"@
                } else {
                    "output"@
                },
            )
            &&& text::occurs("\""@ + device + "\": "@ + said, detail)
            &&& detail.skip(detail.len() - said.len()) == said
        }),
{
    let detail = watch.detail_text(direction, said);
    let device = if direction == Direction::Input {
        watch.input_device_name@
    } else {
        watch.output_device_name@
    };
    let side = if direction == Direction::Input {
        "input"@
    } else {
        "output"@
    };
    reveal_strlit("\"");
    reveal_strlit(" device \"");
    assert(detail.take(side.len() as int) =~= side);
    let quoted = "\""@ + device + "\": "@ + said;
    let at = detail.len() - quoted.len();
    assert(at >= 0);
    assert(detail.subrange(at, at + quoted.len()) =~= quoted);
    assert(detail.skip(detail.len() - said.len()) =~= said);
}

/// Events are taken in the order they came, and so are stream failures.
pub proof fn lemma_what_comes_first_is_taken_first(
    host: HostView,
    events: Seq<AppEvent>,
    event: AppEvent,
    state: StateView,
    shown: Seq<Seq<char>>,
    told: Seq<ToldFailure>,
    failure: ToldFailure,
    watch: StreamFailureWatch,
)
    requires
        shown.len() == events.len() + 1,
    ensures
        host.after_events(seq![event], state, seq![shown[0]]) == host.after_event(
            event,
            state,
            shown[0],
        ),
        host.after_events(events.push(event), state, shown) == host.after_events(
            events,
            state,
            shown.drop_last(),
        ).after_event(event, state, shown.last()),
        host.after_failures(told.push(failure), watch) == host.after_failures(
            told,
            watch,
        ).stream_failed(
            if failure.failure is DeviceLost || (failure.failure is Other && failure.means_loss) {
                ErrorCode::DeviceLost
            } else {
                ErrorCode::StreamFailed
            },
            watch.detail_text(failure.direction, failure.said),
        ),
{
    assert(events.push(event).drop_last() =~= events);
    assert(told.push(failure).drop_last() =~= told);
    lemma_names_beyond_do_not_matter(host, events, state, shown.drop_last(), shown);
    assert(seq![event].drop_last() =~= Seq::empty());
    assert(host.after_events(Seq::empty(), state, seq![shown[0]]) == host);
}

/// A parameter the registry has: setting it stores the value, brought into the parameter's range,
/// for that parameter alone, and submits the very value under that parameter's identity, once;
/// resetting it does what setting its default does.
pub proof fn lemma_a_parameter_goes_to_the_settings_and_the_engine(
    host: HostView,
    state: StateView,
    key: &'static str,
    value: Single,
    i: int,
    path: Option<Seq<char>>,
    exists: bool,
    now_ms: u64,
)
    requires
        registry::keyed(key@, i),
        state.params.len() == registry::registry_entries().len(),
    ensures
        ({
            let entry = registry::registry_entries()[i];
            let set = UiIntent::SetParam { key, value };
            let default = UiIntent::SetParam { key, value: entry.kind.default_spec() };
            let reset = UiIntent::ResetParamToDefault { key };
            let stored = settings_after(state, set);
            &&& host.after_intent(set, path, exists, now_ms) == (HostView {
                outbox: host.outbox.push(
                    ActionView::SubmitParam(ParamChange { id: param::id_of(key@), value }),
                ),
                ..host
            })
            &&& stored.params.len() == state.params.len()
            &&& stored.params[i] == entry.kind.held(value)
            &&& forall|j: int|
                0 <= j < state.params.len() && j != i ==> stored.params[j] == state.params[j]
            &&& stored.nam == state.nam
            &&& stored.ir == state.ir
            &&& host.after_intent(reset, path, exists, now_ms) == host.after_intent(
                default,
                path,
                exists,
                now_ms,
            )
            &&& settings_after(state, reset) == settings_after(state, default)
        }),
{
    identity::lemma_a_key_has_one_place(key@, i);
    registry::lemma_every_id_derives_from_its_key(i);
}

/// A key the registry does not have changes and submits nothing.
pub proof fn lemma_an_unknown_key_does_nothing(
    host: HostView,
    state: StateView,
    key: &'static str,
    value: Single,
    path: Option<Seq<char>>,
    exists: bool,
    now_ms: u64,
)
    requires
        forall|i: int|
            0 <= i < registry::registry_entries().len() ==> (
            #[trigger] registry::registry_entries()[i]).key@ != key@,
    ensures
        host.after_intent(UiIntent::SetParam { key, value }, path, exists, now_ms) == host,
        host.after_intent(UiIntent::ResetParamToDefault { key }, path, exists, now_ms) == host,
        settings_after(state, UiIntent::SetParam { key, value }) == state,
        settings_after(state, UiIntent::ResetParamToDefault { key }) == state,
{
    assert(!registry::known(key@));
}

/// A request that concerns neither a parameter nor a preset to save leaves the settings alone, and
/// is passed on as it is, once and with nothing else; a dismissed notice goes, and no other.
pub proof fn lemma_other_requests_are_passed_on(
    host: HostView,
    state: StateView,
    from: String,
    id: u64,
    path: Option<Seq<char>>,
    exists: bool,
    now_ms: u64,
)
    ensures
        ({
            let recall = UiIntent::RecallPreset { path: from };
            let load = UiIntent::LoadLibraryEntry(from);
            let dismiss = UiIntent::DismissNotice { id };
            let dismissed = host.after_intent(dismiss, path, exists, now_ms);
            &&& host.after_intent(recall, path, exists, now_ms) == (HostView {
                outbox: host.outbox.push(ActionView::LoadState(from@)),
                ..host
            })
            &&& host.after_intent(load, path, exists, now_ms) == (HostView {
                outbox: host.outbox.push(ActionView::LoadLibraryEntry(from@)),
                ..host
            })
            &&& host.after_intent(UiIntent::RescanLibraryRequested, path, exists, now_ms) == (
            HostView { outbox: host.outbox.push(ActionView::RescanLibrary), ..host })
            &&& host.after_intent(UiIntent::CancelScanRequested, path, exists, now_ms) == (
            HostView { outbox: host.outbox.push(ActionView::CancelScan), ..host })
            &&& dismissed == (HostView { notices: dismissed.notices, ..host })
            &&& forall|n: NoticeView|
                dismissed.notices.contains(n) <==> host.notices.contains(n) && n.id != id
            &&& settings_after(state, recall) == state
            &&& settings_after(state, load) == state
            &&& settings_after(state, UiIntent::RescanLibraryRequested) == state
            &&& settings_after(state, UiIntent::CancelScanRequested) == state
            &&& settings_after(state, dismiss) == state
            &&& settings_after(state, UiIntent::SavePreset { name: from }) == state
        }),
{
    let dismissed = host.after_intent(UiIntent::DismissNotice { id }, path, exists, now_ms);
    assert forall|n: NoticeView|
        dismissed.notices.contains(n) <==> host.notices.contains(n) && n.id != id by {
        lemma_only_the_unwanted_go(host.notices, Unwanted::Id(id), n);
    }
}

/// A save without a place to save in, or under a name that cannot be used, saves nothing and says
/// why, and leaves an earlier refusal as it was; one that writes asks for exactly the file that the
/// name resolves to, forgets the refusal, has the list of presets asked for again, and withdraws
/// every notice that the preset exists, and no other.
pub proof fn lemma_a_save_says_what_became_of_it(
    host: HostView,
    name: Seq<char>,
    path: Option<Seq<char>>,
    exists: bool,
    now_ms: u64,
)
    ensures
        ({
            let after = host.after_save(name, path, exists, now_ms);
            let confirmed = host.pending_overwrite matches Some((armed, at)) && armed == name && (
            now_ms < at || now_ms - at < 30_000);
            let told = |code: HostCode, detail: Seq<char>|
                host.outbox.push(ActionView::Record(ErrorCode::Host(code), detail));
            &&& after.model_name == host.model_name
            &&& after.ir_name == host.ir_name
            &&& after.last_saved == host.last_saved
            &&& host.preset_dir is None ==> {
                &&& after.outbox.len() == host.outbox.len() + 1
                &&& after.outbox.last() matches ActionView::Record(code, _)
                &&& code == ErrorCode::Host(HostCode::PresetLocationUnknown)
                &&& after.pending_overwrite == host.pending_overwrite
            }
            &&& host.preset_dir is Some && path is None ==> {
                &&& after.outbox == told(HostCode::PresetNameRefused, name)
                &&& after.pending_overwrite == host.pending_overwrite
            }
            &&& host.preset_dir is Some && path is Some && exists && !confirmed ==> {
                &&& after.outbox == told(HostCode::PresetExists, name)
                &&& after.pending_overwrite == Some((name, now_ms))
                &&& after.presets_listed_at == host.presets_listed_at
            }
            &&& host.preset_dir is Some && path is Some && (confirmed || !exists) ==> {
                &&& after.outbox == host.outbox.push(ActionView::SaveState(path->0))
                &&& after.pending_overwrite is None
                &&& after.presets_listed_at is None
                &&& forall|n: NoticeView|
                    after.notices.contains(n) <==> host.notices.contains(n) && !(n.code
                        == ErrorCode::Host(HostCode::PresetExists) && n.detail == name)
            }
        }),
{
    let after = host.after_save(name, path, exists, now_ms);
    if host.preset_dir is Some && path is Some && !(exists && !host.armed(name, now_ms)) {
        assert forall|n: NoticeView|
            after.notices.contains(n) <==> host.notices.contains(n) && !(n.code == ErrorCode::Host(
                HostCode::PresetExists,
            ) && n.detail == name) by {
            lemma_only_the_unwanted_go(host.notices, Unwanted::Exists(name), n);
        }
    }
}

/// The audio thread's elevation is reported once: with a notice where it has a catalogue entry,
/// silently where it has none, and not at all before the answer is in or after it was reported.
pub proof fn lemma_elevation_is_reported_once(
    host: HostView,
    answer: ThreadPriorityOutcome,
    code: ErrorCode,
    other: Option<(ThreadPriorityOutcome, Option<ErrorCode>)>,
)
    ensures
        host.priority_reported(None) == host,
        !host.thread_priority_watched ==> host.priority_reported(other) == host,
        host.thread_priority_watched ==> {
            let told = host.priority_reported(Some((answer, Some(code))));
            let quiet = host.priority_reported(Some((answer, None)));
            &&& told.outbox == host.outbox.push(
                ActionView::Record(code, thread_priority_text(answer)),
            )
            &&& quiet == (HostView { thread_priority_watched: false, ..host })
            &&& told.priority_reported(other) == told
            &&& quiet.priority_reported(other) == quiet
        },
{
}

/// A list of presets that was never asked for, or has grown too old, is asked for, in the place
/// where presets are; one that is fresh is not, nor is any where there is no such place.
pub proof fn lemma_a_stale_list_is_asked_for_again(host: HostView, now_ms: u64)
    ensures
        ({
            let after = host.presets_refreshed(now_ms);
            let stale = host.presets_listed_at is None || (now_ms >= host.presets_listed_at->0
                && now_ms - host.presets_listed_at->0 >= 1000);
            &&& host.preset_dir is Some && stale ==> after == (HostView {
                presets_listed_at: Some(now_ms),
                outbox: host.outbox.push(ActionView::ListPresets(host.preset_dir->0)),
                ..host
            })
            &&& host.preset_dir is None || !stale ==> after == host
        }),
{
}

/// Every reading moves its own meter and no other: a level of the input after the trim is the
/// input meter's peak, its average the input meter's average, and the loudest of the output
/// channels' levels and averages the output meter's; anything else moves none.
pub proof fn lemma_each_reading_moves_its_own_meter(
    host: HostView,
    entries: Seq<TelemetryEntry>,
    e: TelemetryEntry,
    c: nat,
)
    requires
        c < 2,
    ensures
        ({
            let before = host.metered(entries);
            let after = host.metered(entries.push(e));
            &&& e.id == param::id_of("telemetry.trim.peak_db"@).value ==> after == (HostView {
                input_meter: MeterReading { peak_db: e.value, ..before.input_meter },
                ..before
            })
            &&& e.id == param::id_of("telemetry.trim.average_db"@).value ==> after == (HostView {
                input_meter: MeterReading { rms_db: e.value, ..before.input_meter },
                ..before
            })
            &&& e.id == meters::output_peak_id(c) ==> {
                &&& after == (HostView {
                    output_meter: MeterReading {
                        peak_db: after.output_meter.peak_db,
                        ..before.output_meter
                    },
                    ..before
                })
                &&& entries.len() == 0 ==> after.output_meter.peak_db == e.value
                &&& !e.value.is_nan() ==> e.value.rank() <= after.output_meter.peak_db.rank()
            }
            &&& e.id == meters::output_average_id(c) ==> {
                &&& after == (HostView {
                    output_meter: MeterReading {
                        rms_db: after.output_meter.rms_db,
                        ..before.output_meter
                    },
                    ..before
                })
                &&& entries.len() == 0 ==> after.output_meter.rms_db == e.value
                &&& !e.value.is_nan() ==> e.value.rank() <= after.output_meter.rms_db.rank()
            }
            &&& (e.id != param::id_of("telemetry.trim.peak_db"@).value && e.id != param::id_of(
                "telemetry.trim.average_db"@,
            ).value && forall|d: nat|
                d < 2 ==> e.id != #[trigger] meters::output_peak_id(d) && e.id
                    != meters::output_average_id(d)) ==> after == before
        }),
{
    let all = entries.push(e);
    let last = entries.len() as int;
    assert(all.drop_last() =~= entries);
    assert(all[last] == e);
    meters::lemma_readings_are_told_apart();
    if e.id == meters::output_peak_id(c) {
        meters::lemma_loudest_is_the_loudest(
            Listener::Application,
            all,
            meters::Signal::OutputPeak,
            last,
        );
    }
    if e.id == meters::output_average_id(c) {
        meters::lemma_loudest_is_the_loudest(
            Listener::Application,
            all,
            meters::Signal::OutputAverage,
            last,
        );
    }
}

/// The screen shows what has happened: the file that was loaded by the name it was loaded under,
/// the scan that reports, the presets that were listed, the readings of the meters, every notice
/// that is still there, and the settings as they are, with the unsaved marker exactly where they
/// differ from the baseline. The control for independent channels is never shown here.
pub proof fn lemma_the_screen_shows_what_has_happened(
    host: HostView,
    s: UiSnapshot,
    state: StateView,
    index_len: usize,
)
    requires
        shows(s, host, state, index_len),
    ensures
        s.loaded_model_name is Some == host.model_name is Some,
        s.loaded_model_name matches Some(name) ==> host.model_name == Some(name@),
        s.loaded_ir_name is Some == host.ir_name is Some,
        s.loaded_ir_name matches Some(name) ==> host.ir_name == Some(name@),
        s.input_meter.peak_db == host.input_meter.peak_db,
        s.input_meter.rms_db == host.input_meter.rms_db,
        s.output_meter.peak_db == host.output_meter.peak_db,
        s.output_meter.rms_db == host.output_meter.rms_db,
        s.library.scan == host.scan,
        s.library.index_len == index_len,
        s.params.values@ == state.params,
        s.audio_mode is Some == host.audio_mode is Some,
        s.audio_mode matches Some(mode) ==> host.audio_mode == Some(
            (mode.share_mode, mode.device_name@),
        ),
        s.notices@.len() == host.notices.len(),
        forall|i: int|
            #![trigger s.notices@[i]]
            0 <= i < host.notices.len() ==> s.notices@[i].id == host.notices[i].id
                && s.notices@[i].code == host.notices[i].code && s.notices@[i].detail@
                == host.notices[i].detail,
        s.presets@.len() == host.presets.len(),
        forall|i: int|
            #![trigger s.presets@[i]]
            0 <= i < host.presets.len() ==> (s.presets@[i].name@, s.presets@[i].path@)
                == host.presets[i],
        s.unsaved_changes <==> (state.nam != host.last_saved.nam || state.ir != host.last_saved.ir
            || state.params.len() != host.last_saved.params.len() || exists|i: int|
            0 <= i < state.params.len() && !(#[trigger] state.params[i]).same_number(
                host.last_saved.params[i],
            )),
        !s.independent_channels_relevant,
{
    assert forall|i: int| 0 <= i < host.notices.len() implies #[trigger] s.notices@[i]@
        == host.notices[i] by {
        assert(ui_host::notices_view(s.notices@)[i] == s.notices@[i]@);
    }
    assert forall|i: int| 0 <= i < host.presets.len() implies (
        s.presets@[i].name@,
        (#[trigger] s.presets@[i]).path@,
    ) == host.presets[i] by {
        assert(ui_host::presets_view(s.presets@)[i] == (s.presets@[i].name@, s.presets@[i].path@));
    }
}

proof fn lemma_failures_only_add_to_the_outbox(
    host: HostView,
    told: Seq<ToldFailure>,
    watch: StreamFailureWatch,
)
    ensures
        host.outbox.is_prefix_of(host.after_failures(told, watch).outbox),
        host.after_failures(told, watch).input_meter == host.input_meter,
        host.after_failures(told, watch).output_meter == host.output_meter,
        host.after_failures(told, watch).preset_dir == host.preset_dir,
        host.after_failures(told, watch).presets_listed_at == host.presets_listed_at,
    decreases told.len(),
{
    if told.len() > 0 {
        lemma_failures_only_add_to_the_outbox(host, told.drop_last(), watch);
    }
}

proof fn lemma_reports_leave_the_rest_alone(host: HostView, reports: Seq<Report>)
    ensures
        host.noticed_all(reports).input_meter == host.input_meter,
        host.noticed_all(reports).output_meter == host.output_meter,
        host.outbox.is_prefix_of(host.noticed_all(reports).outbox),
    decreases reports.len(),
{
    if reports.len() > 0 {
        lemma_reports_leave_the_rest_alone(host, reports.drop_last());
    }
}

proof fn lemma_events_only_add_to_the_outbox(
    host: HostView,
    events: Seq<AppEvent>,
    state: StateView,
    shown: Seq<Seq<char>>,
)
    ensures
        host.outbox.is_prefix_of(host.after_events(events, state, shown).outbox),
        host.after_events(events, state, shown).input_meter == host.input_meter,
        host.after_events(events, state, shown).output_meter == host.output_meter,
    decreases events.len(),
{
    if events.len() > 0 {
        lemma_events_only_add_to_the_outbox(host, events.drop_last(), state, shown);
        let before = host.after_events(events.drop_last(), state, shown);
        if let AppEvent::ScanFinished { warnings, .. } = events.last() {
            lemma_reports_leave_the_rest_alone(HostView { scan: None, ..before }, warnings@);
        }
    }
}

/// A frame takes in what has happened in one order: what the events ask for comes first, then what
/// the stream failures do, then the report on the audio thread, and the list of presets last; what
/// was waiting in the outbox stays in front of it all. The meters follow the telemetry alone, and a
/// frame in which nothing has happened changes nothing.
pub proof fn lemma_a_frame_takes_things_in_order(
    host: HostView,
    events: Seq<AppEvent>,
    state: StateView,
    shown: Seq<Seq<char>>,
    watch: StreamFailureWatch,
    told: Seq<ToldFailure>,
    priority: Option<(ThreadPriorityOutcome, Option<ErrorCode>)>,
    now_ms: u64,
    entries: Seq<TelemetryEntry>,
)
    ensures
        ({
            let evented = host.after_events(events, state, shown);
            let failed = evented.after_failures(told, watch);
            let reported = failed.priority_reported(priority);
            let after = host.framed(
                events,
                state,
                shown,
                Some(watch),
                told,
                priority,
                now_ms,
                entries,
            );
            let stale = reported.presets_listed_at is None || (now_ms
                >= reported.presets_listed_at->0 && now_ms - reported.presets_listed_at->0 >= 1000);
            &&& host.outbox.is_prefix_of(evented.outbox)
            &&& evented.outbox.is_prefix_of(failed.outbox)
            &&& failed.outbox.is_prefix_of(reported.outbox)
            &&& reported.preset_dir is Some && stale ==> after.outbox == reported.outbox.push(
                ActionView::ListPresets(reported.preset_dir->0),
            )
            &&& reported.preset_dir is None || !stale ==> after.outbox == reported.outbox
            &&& after.input_meter == host.metered(entries).input_meter
            &&& after.output_meter == host.metered(entries).output_meter
            &&& after.model_name == reported.model_name
            &&& after.ir_name == reported.ir_name
            &&& after.notices == reported.notices
            &&& after.last_saved == reported.last_saved
            &&& after.streams_held == reported.streams_held
            &&& host.framed(events, state, shown, None, told, None, now_ms, Seq::empty())
                == evented.presets_refreshed(now_ms)
        }),
{
    let evented = host.after_events(events, state, shown);
    lemma_events_only_add_to_the_outbox(host, events, state, shown);
    lemma_failures_only_add_to_the_outbox(evented, told, watch);
    let quiet = evented.presets_refreshed(now_ms);
    lemma_meters_hold_and_follow(quiet, quiet, Seq::empty());
}

/// A fresh host has nothing unsaved, names no file, reads silence, tells nothing and asks for
/// nothing; no lost device has it stop streams that it does not hold, no answer about the audio
/// thread is reported, no presets are listed, and no save is made.
pub proof fn lemma_a_fresh_host_waits(
    state: StateView,
    mode: Option<(AudioShareMode, Seq<char>)>,
    name: Seq<char>,
    path: Option<Seq<char>>,
    taken: bool,
    answer: Option<(ThreadPriorityOutcome, Option<ErrorCode>)>,
    detail: Seq<char>,
    now_ms: u64,
)
    requires
        forall|i: int| 0 <= i < state.params.len() ==> !(#[trigger] state.params[i]).is_nan(),
    ensures
        ({
            let host = HostView::fresh(state, mode);
            &&& state.same(host.last_saved)
            &&& host.audio_mode == mode
            &&& host.model_name is None
            &&& host.ir_name is None
            &&& host.scan is None
            &&& host.notices.len() == 0
            &&& host.presets.len() == 0
            &&& host.outbox.len() == 0
            &&& host.input_meter.peak_db == Single::silence()
            &&& host.input_meter.rms_db == Single::silence()
            &&& host.output_meter.peak_db == Single::silence()
            &&& host.output_meter.rms_db == Single::silence()
            &&& numbered(host)
            &&& host.stream_failed(ErrorCode::DeviceLost, detail).outbox == seq![
                ActionView::Record(ErrorCode::DeviceLost, detail),
            ]
            &&& host.priority_reported(answer) == host
            &&& host.presets_refreshed(now_ms) == host
            &&& forall|to: Seq<char>|
                !(#[trigger] host.after_save(name, path, taken, now_ms).outbox.contains(
                    ActionView::SaveState(to),
                ))
        }),
{
    let host = HostView::fresh(state, mode);
    assert(host.outbox.push(ActionView::Record(ErrorCode::DeviceLost, detail)) =~= seq![
        ActionView::Record(ErrorCode::DeviceLost, detail),
    ]);
}

/// Once it is told of them the host minds the streams, the presets and the audio thread: a lost
/// device then stops the streams, the presets are listed in their directory by the next frame
/// however lately others were, and the answer about the audio thread is reported. Being told of
/// one changes nothing of the others.
pub proof fn lemma_a_host_minds_what_it_is_told_of(
    host: HostView,
    dir: Seq<char>,
    answer: ThreadPriorityOutcome,
    code: ErrorCode,
    detail: Seq<char>,
    now_ms: u64,
)
    ensures
        host.holding_streams().stream_failed(ErrorCode::DeviceLost, detail).outbox
            == host.outbox.push(ActionView::StopStreams).push(
            ActionView::Record(ErrorCode::DeviceLost, detail),
        ),
        host.watching_presets(dir).presets_refreshed(now_ms).outbox == host.outbox.push(
            ActionView::ListPresets(dir),
        ),
        host.watching_thread_priority().priority_reported(Some((answer, Some(code)))).outbox
            == host.outbox.push(ActionView::Record(code, thread_priority_text(answer))),
        host.holding_streams() == (HostView {
            streams_held: host.holding_streams().streams_held,
            ..host
        }),
        host.watching_presets(dir) == (HostView {
            preset_dir: host.watching_presets(dir).preset_dir,
            presets_listed_at: host.watching_presets(dir).presets_listed_at,
            ..host
        }),
        host.watching_thread_priority() == (HostView {
            thread_priority_watched: host.watching_thread_priority().thread_priority_watched,
            ..host
        }),
{
}

/// What is said of a call that failed ends with the code it failed with, and each of the other
/// answers is told apart from it by how it opens.
pub proof fn lemma_a_failed_elevation_says_its_code(code: i64)
    ensures
        ({
            let said = thread_priority_text(ThreadPriorityOutcome::OsError(code));
            let number = text::signed_digits(code as int);
            &&& number.len() <= said.len()
            &&& said.skip(said.len() - number.len()) == number
            &&& text::opens(said, "the operating system call failed"@)
            &&& text::opens(
                thread_priority_text(ThreadPriorityOutcome::PermissionDenied),
                "the operating system refused"@,
            )
            &&& text::opens(
                thread_priority_text(ThreadPriorityOutcome::Elevated),
                "the audio callback thread was elevated"@,
            )
            &&& text::opens(
                thread_priority_text(ThreadPriorityOutcome::Unsupported),
                "namir-platform has no thread-priority implementation"@,
            )
        }),
{
    let said = thread_priority_text(ThreadPriorityOutcome::OsError(code));
    let number = text::signed_digits(code as int);
    assert(said.skip(said.len() - number.len()) =~= number);
    reveal_strlit("the operating system call failed with code ");
    reveal_strlit("the operating system call failed");
    let opening = "the operating system call failed"@;
    assert(said.take(opening.len() as int) =~= opening);
    reveal_strlit(
        "the operating system refused the request for want of a privilege this process does not hold",
    );
    reveal_strlit("the operating system refused");
    let opening = "the operating system refused"@;
    assert(thread_priority_text(ThreadPriorityOutcome::PermissionDenied).take(opening.len() as int)
        =~= opening);
    reveal_strlit("the audio callback thread was elevated");
    let opening = "the audio callback thread was elevated"@;
    assert(thread_priority_text(ThreadPriorityOutcome::Elevated).take(opening.len() as int)
        =~= opening);
    reveal_strlit("namir-platform has no thread-priority implementation for this target");
    reveal_strlit("namir-platform has no thread-priority implementation");
    let opening = "namir-platform has no thread-priority implementation"@;
    assert(thread_priority_text(ThreadPriorityOutcome::Unsupported).take(opening.len() as int)
        =~= opening);
}

/// Of everything one drain reads of the output channels' levels the loudest is shown, and so of
/// their averages: it is one of them, and none of them that is a number is louder.
pub proof fn lemma_the_loudest_output_channel_is_shown(
    host: HostView,
    entries: Seq<TelemetryEntry>,
    i: int,
    c: nat,
)
    requires
        0 <= i < entries.len(),
        c < 2,
    ensures
        entries[i].id == meters::output_peak_id(c) ==> {
            let shown = host.metered(entries).output_meter.peak_db;
            &&& !entries[i].value.is_nan() ==> !shown.is_nan() && entries[i].value.rank()
                <= shown.rank()
            &&& exists|j: int|
                0 <= j < entries.len() && ((#[trigger] entries[j]).id == meters::output_peak_id(0)
                    || entries[j].id == meters::output_peak_id(1)) && entries[j].value == shown
        },
        entries[i].id == meters::output_average_id(c) ==> {
            let shown = host.metered(entries).output_meter.rms_db;
            &&& !entries[i].value.is_nan() ==> !shown.is_nan() && entries[i].value.rank()
                <= shown.rank()
            &&& exists|j: int|
                0 <= j < entries.len() && ((#[trigger] entries[j]).id == meters::output_average_id(
                    0,
                ) || entries[j].id == meters::output_average_id(1)) && entries[j].value == shown
        },
{
    let listener = Listener::Application;
    meters::lemma_readings_are_told_apart();
    if entries[i].id == meters::output_peak_id(c) {
        let signal = meters::Signal::OutputPeak;
        meters::lemma_loudest_is_the_loudest(listener, entries, signal, i);
        let j = choose|j: int|
            0 <= j < entries.len() && meters::signal_of(listener, (#[trigger] entries[j]).id)
                == signal && entries[j].value == meters::loudest(listener, entries, signal)->0;
        assert(entries[j].value == host.metered(entries).output_meter.peak_db);
    }
    if entries[i].id == meters::output_average_id(c) {
        let signal = meters::Signal::OutputAverage;
        meters::lemma_loudest_is_the_loudest(listener, entries, signal, i);
        let j = choose|j: int|
            0 <= j < entries.len() && meters::signal_of(listener, (#[trigger] entries[j]).id)
                == signal && entries[j].value == meters::loudest(listener, entries, signal)->0;
        assert(entries[j].value == host.metered(entries).output_meter.rms_db);
    }
}

} // verus!
