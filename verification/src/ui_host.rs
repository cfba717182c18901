//! The seam between the screen and whatever runs behind it: what the screen is shown each frame,
//! and what it asks for.

use vstd::prelude::*;

use crate::meters::MeterReading;
use crate::registry;
use crate::single::Single;
use crate::state::ParamValues;

verus! {

/// How bad an entry of the catalogue is.
#[derive(Debug, Clone, Copy, PartialEq, Eq, Structural)]
pub enum Severity {
    Warning,
    Error,
}

/// The entries of the catalogue that the application's host reports of itself.
#[derive(Debug, Clone, Copy, PartialEq, Eq, Structural)]
pub enum HostCode {
    LoadFailed,
    LoadNotDelivered,
    ScanSaveFailed,
    StateSaveFailed,
    StateLoadFailed,
    ReferenceMissing,
    PresetNameRefused,
    PresetExists,
    PresetLocationUnknown,
}

impl HostCode {
    #[verifier::allow_in_spec]
    pub fn severity(self) -> Severity
        returns
            (match self {
                HostCode::LoadFailed => Severity::Error,
                HostCode::LoadNotDelivered => Severity::Error,
                HostCode::ScanSaveFailed => Severity::Warning,
                HostCode::StateSaveFailed => Severity::Error,
                HostCode::StateLoadFailed => Severity::Error,
                HostCode::ReferenceMissing => Severity::Warning,
                HostCode::PresetNameRefused => Severity::Warning,
                HostCode::PresetExists => Severity::Warning,
                HostCode::PresetLocationUnknown => Severity::Warning,
            }),
    {
        match self {
            HostCode::LoadFailed => Severity::Error,
            HostCode::LoadNotDelivered => Severity::Error,
            HostCode::ScanSaveFailed => Severity::Warning,
            HostCode::StateSaveFailed => Severity::Error,
            HostCode::StateLoadFailed => Severity::Error,
            HostCode::ReferenceMissing => Severity::Warning,
            HostCode::PresetNameRefused => Severity::Warning,
            HostCode::PresetExists => Severity::Warning,
            HostCode::PresetLocationUnknown => Severity::Warning,
        }
    }

    pub open spec fn id_text(self) -> Seq<char> {
        match self {
            HostCode::LoadFailed => "app.host.load_failed"@,
            HostCode::LoadNotDelivered => "app.host.load_not_delivered"@,
            HostCode::ScanSaveFailed => "app.host.scan_save_failed"@,
            HostCode::StateSaveFailed => "app.host.state_save_failed"@,
            HostCode::StateLoadFailed => "app.host.state_load_failed"@,
            HostCode::ReferenceMissing => "app.host.reference_missing"@,
            HostCode::PresetNameRefused => "app.host.preset_name_refused"@,
            HostCode::PresetExists => "app.host.preset_exists"@,
            HostCode::PresetLocationUnknown => "app.host.preset_location_unknown"@,
        }
    }

    /// The entry's permanent name.
    pub fn id(self) -> (s: &'static str)
        ensures
            s@ == self.id_text(),
    {
        match self {
            HostCode::LoadFailed => "app.host.load_failed",
            HostCode::LoadNotDelivered => "app.host.load_not_delivered",
            HostCode::ScanSaveFailed => "app.host.scan_save_failed",
            HostCode::StateSaveFailed => "app.host.state_save_failed",
            HostCode::StateLoadFailed => "app.host.state_load_failed",
            HostCode::ReferenceMissing => "app.host.reference_missing",
            HostCode::PresetNameRefused => "app.host.preset_name_refused",
            HostCode::PresetExists => "app.host.preset_exists",
            HostCode::PresetLocationUnknown => "app.host.preset_location_unknown",
        }
    }
}

/// An entry of the catalogue.
#[derive(Debug, Clone, Copy, PartialEq, Eq, Structural)]
pub enum ErrorCode {
    Host(HostCode),
    /// An audio device went away.
    DeviceLost,
    /// An audio stream failed in some other way.
    StreamFailed,
    /// An entry of another part of the product, by its place in the shell's catalogue.
    Catalogue(u32),
}

/// One message for the user, with the detail it is about and the number it is dismissed by.
#[derive(Debug, PartialEq)]
pub struct UiNotice {
    pub id: u64,
    pub code: ErrorCode,
    pub detail: String,
}

/// What a notice says.
#[verifier::ext_equal]
pub struct NoticeView {
    pub id: u64,
    pub code: ErrorCode,
    pub detail: Seq<char>,
}

impl View for UiNotice {
    type V = NoticeView;

    open spec fn view(&self) -> NoticeView {
        NoticeView { id: self.id, code: self.code, detail: self.detail@ }
    }
}

/// What a list of notices says.
pub open spec fn notices_view(notices: Seq<UiNotice>) -> Seq<NoticeView> {
    Seq::new(notices.len(), |i: int| notices[i]@)
}

pub fn copy_notices(notices: &Vec<UiNotice>) -> (r: Vec<UiNotice>)
    ensures
        notices_view(r@) == notices_view(notices@),
{
    let mut r: Vec<UiNotice> = Vec::new();
    let mut i: usize = 0;
    while i < notices.len()
        invariant
            i <= notices@.len(),
            r@.len() == i,
            forall|j: int| 0 <= j < i ==> (#[trigger] r@[j])@ == notices@[j]@,
        decreases notices@.len() - i,
    {
        r.push(
            UiNotice {
                id: notices[i].id,
                code: notices[i].code,
                detail: notices[i].detail.clone(),
            },
        );
        i += 1;
    }
    proof {
        assert(notices_view(r@) =~= notices_view(notices@));
    }
    r
}

/// What an optional text says.
pub open spec fn text_view(t: Option<String>) -> Option<Seq<char>> {
    match t {
        Some(s) => Some(s@),
        None => None,
    }
}

pub fn copy_text(t: &Option<String>) -> (r: Option<String>)
    ensures
        text_view(r) == text_view(*t),
{
    match t {
        Some(s) => Some(s.clone()),
        None => None,
    }
}

/// A library scan's progress report, by what the shell finds it by.
#[derive(Debug, Clone, Copy, PartialEq, Eq, Structural)]
pub struct ScanProgress {
    pub ticket: u64,
}

/// What is known of the library: how many files the index holds, and the scan under way.
#[derive(Debug, Clone, Copy, PartialEq, Eq, Structural)]
pub struct LibrarySnapshot {
    pub index_len: usize,
    pub scan: Option<ScanProgress>,
}

impl Default for LibrarySnapshot {
    fn default() -> (r: Self)
        ensures
            r.index_len == 0,
            r.scan is None,
    {
        LibrarySnapshot { index_len: 0, scan: None }
    }
}

/// How an audio device is open, as the audio layer says it.
#[derive(Debug, Clone, Copy, PartialEq, Eq, Structural)]
pub enum ShareMode {
    Shared,
    Exclusive,
}

/// How an audio device is open, as the screen says it.
#[derive(Debug, Clone, Copy, PartialEq, Eq, Structural)]
pub enum AudioShareMode {
    Shared,
    Exclusive,
}

impl From<ShareMode> for AudioShareMode {
    fn from(mode: ShareMode) -> (r: Self) {
        match mode {
            ShareMode::Shared => AudioShareMode::Shared,
            ShareMode::Exclusive => AudioShareMode::Exclusive,
        }
    }
}

impl vstd::std_specs::convert::FromSpecImpl<ShareMode> for AudioShareMode {
    open spec fn obeys_from_spec() -> bool {
        true
    }

    open spec fn from_spec(mode: ShareMode) -> Self {
        match mode {
            ShareMode::Shared => AudioShareMode::Shared,
            ShareMode::Exclusive => AudioShareMode::Exclusive,
        }
    }
}

/// The mode a device was granted, and the device.
#[derive(Debug, PartialEq, Eq)]
pub struct AudioModeStatus {
    pub share_mode: AudioShareMode,
    pub device_name: String,
}

/// What a granted mode says.
pub open spec fn mode_view(mode: Option<AudioModeStatus>) -> Option<(AudioShareMode, Seq<char>)> {
    match mode {
        Some(m) => Some((m.share_mode, m.device_name@)),
        None => None,
    }
}

pub fn copy_mode(mode: &Option<AudioModeStatus>) -> (r: Option<AudioModeStatus>)
    ensures
        mode_view(r) == mode_view(*mode),
{
    match mode {
        Some(m) => Some(
            AudioModeStatus { share_mode: m.share_mode, device_name: m.device_name.clone() },
        ),
        None => None,
    }
}

/// A preset the user can recall: what it is picked by, and where it is.
#[derive(Debug, PartialEq, Eq)]
pub struct PresetSummary {
    pub name: String,
    pub path: String,
}

/// What a list of presets says.
pub open spec fn presets_view(presets: Seq<PresetSummary>) -> Seq<(Seq<char>, Seq<char>)> {
    Seq::new(presets.len(), |i: int| (presets[i].name@, presets[i].path@))
}

pub fn copy_presets(presets: &Vec<PresetSummary>) -> (r: Vec<PresetSummary>)
    ensures
        presets_view(r@) == presets_view(presets@),
{
    let mut r: Vec<PresetSummary> = Vec::new();
    let mut i: usize = 0;
    while i < presets.len()
        invariant
            i <= presets@.len(),
            r@.len() == i,
            forall|j: int|
                0 <= j < i ==> (#[trigger] r@[j]).name@ == presets@[j].name@ && r@[j].path@
                    == presets@[j].path@,
        decreases presets@.len() - i,
    {
        r.push(
            PresetSummary { name: presets[i].name.clone(), path: presets[i].path.clone() },
        );
        i += 1;
    }
    proof {
        assert(presets_view(r@) =~= presets_view(presets@));
    }
    r
}

/// Everything one frame of the screen is drawn from.
pub struct UiSnapshot {
    pub params: ParamValues,
    pub input_meter: MeterReading,
    pub output_meter: MeterReading,
    pub loaded_model_name: Option<String>,
    pub loaded_ir_name: Option<String>,
    pub library: LibrarySnapshot,
    /// None where the host has no audio device of its own.
    pub audio_mode: Option<AudioModeStatus>,
    pub unsaved_changes: bool,
    /// Oldest first.
    pub notices: Vec<UiNotice>,
    pub presets: Vec<PresetSummary>,
    /// Whether the control for independent channels has anything to do here, and so is shown.
    pub independent_channels_relevant: bool,
}

impl Default for UiSnapshot {
    /// Every parameter at its default and nothing else to show.
    fn default() -> (s: Self)
        ensures
            s.params.wf(),
            forall|i: int|
                #![trigger s.params.values@[i]]
                0 <= i < s.params.values@.len() ==> s.params.values@[i]
                    == registry::registry_entries()[i].kind.default_spec(),
            s.input_meter == MeterReading::silent(),
            s.output_meter == MeterReading::silent(),
            s.loaded_model_name is None,
            s.loaded_ir_name is None,
            s.library.index_len == 0,
            s.library.scan is None,
            s.audio_mode is None,
            !s.unsaved_changes,
            s.notices@.len() == 0,
            s.presets@.len() == 0,
            !s.independent_channels_relevant,
    {
        UiSnapshot {
            params: ParamValues::defaults(),
            input_meter: MeterReading::default(),
            output_meter: MeterReading::default(),
            loaded_model_name: None,
            loaded_ir_name: None,
            library: LibrarySnapshot::default(),
            audio_mode: None,
            unsaved_changes: false,
            notices: Vec::new(),
            presets: Vec::new(),
            independent_channels_relevant: false,
        }
    }
}

/// One thing the user asked for.
#[derive(Debug, PartialEq)]
pub enum UiIntent {
    SetParam { key: &'static str, value: Single },
    ResetParamToDefault { key: &'static str },
    LoadLibraryEntry(String),
    RescanLibraryRequested,
    CancelScanRequested,
    DismissNotice { id: u64 },
    /// The name is trimmed and not empty.
    SavePreset { name: String },
    RecallPreset { path: String },
}

/// Whatever owns the engine, the workers and the library behind a screen.
///
/// A host may keep a record of what it has shown and seen. Then that record grows with every call,
/// by this call alone; a host that keeps none says so by leaving the three as they are.
pub trait UiHost: Send {
    /// This host keeps a record.
    open spec fn keeps_record(&self) -> bool {
        false
    }

    /// Everything this host has shown so far.
    open spec fn shown(&self) -> Seq<UiSnapshot> {
        Seq::empty()
    }

    /// Everything this host has been asked to do so far.
    open spec fn seen(&self) -> Seq<UiIntent> {
        Seq::empty()
    }

    /// Everything the screen needs right now. Called once, first, in every frame.
    fn snapshot(&mut self) -> (s: UiSnapshot)
        ensures
            s.params.wf(),
            old(self).keeps_record() ==> {
                &&& final(self).keeps_record()
                &&& final(self).shown() == old(self).shown().push(s)
                &&& final(self).seen() == old(self).seen()
            },
    ;

    /// Takes one of the frame's intents.
    fn dispatch(&mut self, intent: UiIntent)
        ensures
            old(self).keeps_record() ==> {
                &&& final(self).keeps_record()
                &&& final(self).shown() == old(self).shown()
                &&& final(self).seen() == old(self).seen().push(intent)
            },
    ;
}

/// A host with nothing behind it: it shows an empty screen and keeps what it is asked for.
pub struct RecordingHost {
    pub shown: Ghost<Seq<UiSnapshot>>,
    pub dispatched: Vec<UiIntent>,
}

impl RecordingHost {
    pub fn new() -> (h: RecordingHost)
        ensures
            h.keeps_record(),
            h.shown() == Seq::<UiSnapshot>::empty(),
            h.seen() == Seq::<UiIntent>::empty(),
    {
        RecordingHost { shown: Ghost(Seq::empty()), dispatched: Vec::new() }
    }
}

impl UiHost for RecordingHost {
    open spec fn keeps_record(&self) -> bool {
        true
    }

    open spec fn shown(&self) -> Seq<UiSnapshot> {
        self.shown@
    }

    open spec fn seen(&self) -> Seq<UiIntent> {
        self.dispatched@
    }

    fn snapshot(&mut self) -> (s: UiSnapshot) {
        let s: UiSnapshot = UiSnapshot::default();
        self.shown = Ghost(self.shown@.push(s));
        s
    }

    fn dispatch(&mut self, intent: UiIntent) {
        self.dispatched.push(intent);
    }
}

} // verus!
