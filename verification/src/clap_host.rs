//! The plugin behind the screen.

use vstd::prelude::*;

use crate::app_host;
use crate::app_host::overwrite_refused;
use crate::descriptor::{default_value_of, ParamDescriptor};
use crate::identity;
use crate::meters;
use crate::meters::{Listener, MeterReading, Readings, Signal};
use crate::param;
use crate::param::{ParamChange, TelemetryEntry};
use crate::registry;
use crate::single::Single;
use crate::state::{FileRef, ParamValues};
use crate::ui_host;
use crate::ui_host::{LibrarySnapshot, PresetSummary, UiIntent, UiNotice, UiSnapshot};

verus! {

/// How many batches of telemetry one frame reads at most.
pub const MAX_DRAIN_BATCHES: usize = 8;

/// How many entries one batch holds at most.
pub const TELEMETRY_BATCH: usize = 64;

/// What the shell is to do.
#[derive(Debug, PartialEq)]
pub enum ClapAction {
    /// Store a value that came from the plugin's own screen, and queue it for the plugin's host.
    StoreFromGui { key: &'static str, value: Single },
    SubmitParam(ParamChange),
    /// Save under this name, and withdraw the notice that refused it, if there is one.
    SavePreset(String),
    /// Tell the user that a preset of this name exists and that nothing was saved.
    ReportPresetExists(String),
    RecallPreset(String),
    LoadLibraryEntry(String),
    StartScan,
    CancelScan,
    DismissNotice(u64),
    MarkDirty,
}

/// The plugin's side of its screen: which telemetry ring it reads, and what it last read.
pub struct ClapUiHost {
    pub telemetry_generation: u64,
    pub input_peak_db: Single,
    pub output_peak_db: Single,
    /// The name whose overwrite was refused, and when.
    pub pending_overwrite: Option<(String, u64)>,
}

/// What the shell knows of the instance besides its meters.
pub struct InstanceView {
    pub params: ParamValues,
    pub nam: Option<FileRef>,
    pub ir: Option<FileRef>,
    pub library: LibrarySnapshot,
    pub presets: Vec<PresetSummary>,
    pub dirty: bool,
    pub notices: Vec<UiNotice>,
}

/// All batches of a drain, end to end.
pub open spec fn drained(batches: Seq<Seq<TelemetryEntry>>) -> Seq<TelemetryEntry>
    decreases batches.len(),
{
    if batches.len() == 0 {
        Seq::empty()
    } else {
        drained(batches.drop_last()) + batches.last()
    }
}

/// The batches one frame reads: as many as it takes until one is not full, but not too many. Each
/// is read from where the one before it left the ring, and nothing else is read.
pub open spec fn frame_drain<D, S>(
    drain: D,
    rings: Seq<S>,
    batches: Seq<Seq<TelemetryEntry>>,
) -> bool where D: Fn(S) -> (Vec<TelemetryEntry>, S) {
    &&& 0 < batches.len() <= MAX_DRAIN_BATCHES
    &&& rings.len() == batches.len() + 1
    &&& forall|i: int|
        0 <= i < batches.len() ==> batch_given(
            drain,
            rings[i],
            #[trigger] batches[i],
            rings[i + 1],
        )
    &&& forall|i: int|
        0 <= i < batches.len() - 1 ==> (#[trigger] batches[i]).len() >= TELEMETRY_BATCH
    &&& batches.len() < MAX_DRAIN_BATCHES ==> batches.last().len() < TELEMETRY_BATCH
}

/// Reading the ring once gave this batch.
pub open spec fn batch_given<D, S>(
    drain: D,
    ring: S,
    batch: Seq<TelemetryEntry>,
    after: S,
) -> bool where D: Fn(S) -> (Vec<TelemetryEntry>, S) {
    exists|v: Vec<TelemetryEntry>| #[trigger]
        call_ensures(drain, (ring,), (v, after)) && v@ == batch
}

/// The instance's settings go to a new value: into the mirror and, where the registry has the key,
/// to the audio engine.
pub open spec fn set_actions(key: &'static str, value: Single) -> Seq<ClapAction> {
    if registry::known(key@) {
        seq![
            ClapAction::StoreFromGui { key, value },
            ClapAction::SubmitParam(
                ParamChange {
                    id: registry::registry_entries()[registry::place_of(key@)].id,
                    value,
                },
            ),
        ]
    } else {
        seq![ClapAction::StoreFromGui { key, value }]
    }
}

/// A request after which the settings may differ from those last saved or recalled: a value that is
/// set, a parameter that goes back to its default, and a file that is loaded. A save clears the
/// mark itself, once the file is written, and a recall makes the instance match what was recalled;
/// the rest leaves the settings alone.
pub open spec fn changes_settings(intent: UiIntent) -> bool {
    match intent {
        UiIntent::SetParam { .. } => true,
        UiIntent::ResetParamToDefault { key } => registry::known(key@),
        UiIntent::LoadLibraryEntry(_) => true,
        _ => false,
    }
}

/// What a request turns into, the mark of an unsaved instance last; `refused` is a save that would
/// replace a preset which the user has not asked to replace.
pub open spec fn actions_for(intent: UiIntent, refused: bool) -> Seq<ClapAction> {
    match intent {
        UiIntent::SetParam { key, value } => set_actions(key, value).push(ClapAction::MarkDirty),
        UiIntent::ResetParamToDefault { key } => if registry::known(key@) {
            set_actions(
                key,
                registry::registry_entries()[registry::place_of(key@)].kind.default_spec(),
            ).push(ClapAction::MarkDirty)
        } else {
            Seq::empty()
        },
        UiIntent::SavePreset { name } => if refused {
            seq![ClapAction::ReportPresetExists(name)]
        } else {
            seq![ClapAction::SavePreset(name)]
        },
        UiIntent::RecallPreset { path } => seq![ClapAction::RecallPreset(path)],
        UiIntent::LoadLibraryEntry(path) => seq![
            ClapAction::LoadLibraryEntry(path),
            ClapAction::MarkDirty,
        ],
        UiIntent::RescanLibraryRequested => seq![ClapAction::StartScan],
        UiIntent::CancelScanRequested => seq![ClapAction::CancelScan],
        UiIntent::DismissNotice { id } => seq![ClapAction::DismissNotice(id)],
    }
}

fn set_param(key: &'static str, value: Single) -> (actions: Vec<ClapAction>)
    ensures
        actions@ == set_actions(key, value),
{
    let mut actions: Vec<ClapAction> = Vec::new();
    actions.push(ClapAction::StoreFromGui { key, value });
    if let Some(i) = registry::position(key) {
        let entries: Vec<ParamDescriptor> = registry::registry();
        actions.push(ClapAction::SubmitParam(ParamChange { id: entries[i].id, value }));
    }
    actions
}

impl ClapUiHost {
    /// A host that has seen no telemetry ring and reads silence.
    pub fn new() -> (h: ClapUiHost)
        ensures
            h.telemetry_generation == 0,
            h.input_peak_db == Single::silence(),
            h.output_peak_db == Single::silence(),
            h.pending_overwrite is None,
    {
        ClapUiHost {
            telemetry_generation: 0,
            input_peak_db: Single::silence(),
            output_peak_db: Single::silence(),
            pending_overwrite: None,
        }
    }

    /// The host with another ring live: what was read from the old one is forgotten.
    pub open spec fn rebound(&self, generation: u64) -> ClapUiHost {
        if generation == self.telemetry_generation {
            *self
        } else {
            ClapUiHost {
                telemetry_generation: generation,
                input_peak_db: Single::silence(),
                output_peak_db: Single::silence(),
                ..*self
            }
        }
    }

    /// Notes which ring is live. Where it is another one than before, the shell has to fetch its
    /// reader, and what was read from the old one is forgotten.
    pub fn rebind_telemetry_if_stale(&mut self, generation: u64) -> (stale: bool)
        ensures
            stale == (old(self).telemetry_generation != generation),
            *final(self) == old(self).rebound(generation),
    {
        if generation == self.telemetry_generation {
            return false;
        }
        self.telemetry_generation = generation;
        self.input_peak_db = Single::silence();
        self.output_peak_db = Single::silence();
        true
    }

    /// The readings replaced by what a drain read, and kept where it read nothing.
    pub open spec fn metered(&self, entries: Seq<TelemetryEntry>) -> ClapUiHost {
        ClapUiHost {
            input_peak_db: app_host::replaced(
                self.input_peak_db,
                meters::newest(Listener::Plugin, entries, Signal::InputPeak),
            ),
            output_peak_db: app_host::replaced(
                self.output_peak_db,
                meters::loudest(Listener::Plugin, entries, Signal::OutputPeak),
            ),
            ..*self
        }
    }

    /// Takes what one frame's drain read.
    pub fn take_readings(&mut self, readings: Readings)
        ensures
            *final(self) == (ClapUiHost {
                input_peak_db: app_host::replaced(old(self).input_peak_db, readings.input_peak),
                output_peak_db: app_host::replaced(
                    old(self).output_peak_db,
                    readings.output_peak,
                ),
                ..*old(self)
            }),
    {
        if let Some(peak) = readings.input_peak {
            self.input_peak_db = peak;
        }
        if let Some(peak) = readings.output_peak {
            self.output_peak_db = peak;
        }
    }

    /// Reads what the engine has published since the last frame, and gives the ring back as that
    /// leaves it; without a ring there is nothing to read.
    pub fn drain_meters<D, S>(&mut self, ring: Option<S>, drain: D) -> (left: Option<S>) where
        D: Fn(S) -> (Vec<TelemetryEntry>, S),

        requires
            forall|s: S| #[trigger] call_requires(drain, (s,)),
        ensures
            match ring {
                None => left is None && *final(self) == *old(self),
                Some(first) => exists|rings: Seq<S>, batches: Seq<Seq<TelemetryEntry>>| #[trigger]
                    frame_drain(drain, rings, batches) && rings[0] == first && left == Some(
                        rings.last(),
                    ) && *final(self) == old(self).metered(drained(batches)),
            },
    {
        match ring {
            None => None,
            Some(first) => {
                let mut readings: Readings = Readings::none();
                let ghost mut batches: Seq<Seq<TelemetryEntry>> = Seq::empty();
                let ghost mut rings: Seq<S> = seq![first];
                let ghost start = first;
                let mut now: Option<S> = Some(first);
                let mut count: usize = 0;
                let mut more: bool = true;
                while more
                    invariant
                        forall|s: S| #[trigger] call_requires(drain, (s,)),
                        count <= MAX_DRAIN_BATCHES,
                        batches.len() == count,
                        rings.len() == count + 1,
                        rings[0] == start,
                        now == Some(rings.last()),
                        readings == Readings::of(Listener::Plugin, drained(batches)),
                        forall|i: int|
                            0 <= i < batches.len() ==> batch_given(
                                drain,
                                rings[i],
                                #[trigger] batches[i],
                                rings[i + 1],
                            ),
                        more ==> count < MAX_DRAIN_BATCHES && forall|i: int|
                            0 <= i < batches.len() ==> (#[trigger] batches[i]).len()
                                >= TELEMETRY_BATCH,
                        !more ==> frame_drain(drain, rings, batches),
                    decreases MAX_DRAIN_BATCHES - count + (if more {
                        1int
                    } else {
                        0
                    }),
                {
                    let from: S = now.take().unwrap();
                    let ghost earlier = from;
                    let (batch, after) = drain(from);
                    readings.read(Listener::Plugin, &batch, Ghost(drained(batches)));
                    count += 1;
                    more = batch.len() >= TELEMETRY_BATCH && count < MAX_DRAIN_BATCHES;
                    proof {
                        let grown = batches.push(batch@);
                        let along = rings.push(after);
                        assert(grown.drop_last() =~= batches);
                        assert(batch_given(drain, earlier, batch@, after));
                        assert forall|i: int| 0 <= i < grown.len() implies batch_given(
                            drain,
                            along[i],
                            #[trigger] grown[i],
                            along[i + 1],
                        ) by {
                            if i < batches.len() {
                                assert(grown[i] == batches[i]);
                            }
                        }
                        assert forall|i: int| 0 <= i < grown.len() - 1 implies (
                        #[trigger] grown[i]).len() >= TELEMETRY_BATCH by {
                            assert(grown[i] == batches[i]);
                        }
                        batches = grown;
                        rings = along;
                    }
                    now = Some(after);
                }
                self.take_readings(readings);
                now
            },
        }
    }

    /// A snapshot shows the instance, and the peaks as both readings of each meter. The plugin owns
    /// no audio device, and its two channels are always captured separately.
    pub open spec fn shows(&self, instance: InstanceView, s: UiSnapshot) -> bool {
        &&& s.params == instance.params
        &&& s.input_meter == (MeterReading {
            peak_db: self.input_peak_db,
            rms_db: self.input_peak_db,
        })
        &&& s.output_meter == (MeterReading {
            peak_db: self.output_peak_db,
            rms_db: self.output_peak_db,
        })
        &&& ui_host::text_view(s.loaded_model_name) == (match instance.nam {
            Some(f) => Some(f.display_name@),
            None => None,
        })
        &&& ui_host::text_view(s.loaded_ir_name) == (match instance.ir {
            Some(f) => Some(f.display_name@),
            None => None,
        })
        &&& s.library == instance.library
        &&& s.presets == instance.presets
        &&& s.audio_mode is None
        &&& s.unsaved_changes == instance.dirty
        &&& s.notices == instance.notices
        &&& s.independent_channels_relevant
    }

    /// What the screen is shown: the instance, and the peaks as both readings of each meter. The
    /// plugin owns no audio device, and its two channels are always captured separately.
    pub fn snapshot(&self, instance: InstanceView) -> (s: UiSnapshot)
        ensures
            self.shows(instance, s),
    {
        UiSnapshot {
            params: instance.params,
            input_meter: MeterReading {
                peak_db: self.input_peak_db,
                rms_db: self.input_peak_db,
            },
            output_meter: MeterReading {
                peak_db: self.output_peak_db,
                rms_db: self.output_peak_db,
            },
            loaded_model_name: match instance.nam {
                Some(f) => Some(f.display_name),
                None => None,
            },
            loaded_ir_name: match instance.ir {
                Some(f) => Some(f.display_name),
                None => None,
            },
            library: instance.library,
            presets: instance.presets,
            audio_mode: None,
            unsaved_changes: instance.dirty,
            notices: instance.notices,
            independent_channels_relevant: true,
        }
    }

    /// A save that would replace a preset which the user has not asked to replace: the name is
    /// taken, and the last save was not of the same name, refused, and recent enough.
    pub open spec fn refuses(&self, intent: UiIntent, name_taken: bool, now_ms: u64) -> bool {
        intent matches UiIntent::SavePreset { name } && name_taken && !app_host::overwrite_armed(
            app_host::refusal_view(self.pending_overwrite),
            name@,
            now_ms,
        )
    }

    /// What a request turns into here and now.
    pub open spec fn dispatched(&self, intent: UiIntent, name_taken: bool, now_ms: u64) -> Seq<
        ClapAction,
    > {
        actions_for(intent, self.refuses(intent, name_taken, now_ms))
    }

    /// The refusal that can be confirmed after a request: a save that was refused is, one that was
    /// not leaves none, and any other request leaves it as it was.
    pub open spec fn refusal_after(
        &self,
        intent: UiIntent,
        name_taken: bool,
        now_ms: u64,
    ) -> Option<(Seq<char>, u64)> {
        match intent {
            UiIntent::SavePreset { name } => if self.refuses(intent, name_taken, now_ms) {
                Some((name@, now_ms))
            } else {
                None
            },
            _ => app_host::refusal_view(self.pending_overwrite),
        }
    }

    /// Turns one request into what the shell is to do, in order. `name_taken` says, of a save, that
    /// a preset of its name exists: the first such save writes nothing and is reported, and the
    /// same name again, soon enough, is the confirmation and writes.
    pub fn dispatch(&mut self, intent: UiIntent, name_taken: bool, now_ms: u64) -> (actions: Vec<
        ClapAction,
    >)
        ensures
            actions@ == old(self).dispatched(intent, name_taken, now_ms),
            final(self).telemetry_generation == old(self).telemetry_generation,
            final(self).input_peak_db == old(self).input_peak_db,
            final(self).output_peak_db == old(self).output_peak_db,
            app_host::refusal_view(final(self).pending_overwrite) == old(self).refusal_after(
                intent,
                name_taken,
                now_ms,
            ),
    {
        let mut actions: Vec<ClapAction> = Vec::new();
        match intent {
            UiIntent::SetParam { key, value } => {
                actions = set_param(key, value);
                actions.push(ClapAction::MarkDirty);
            },
            UiIntent::ResetParamToDefault { key } => {
                if let Some(i) = registry::position(key) {
                    let entries: Vec<ParamDescriptor> = registry::registry();
                    proof {
                        registry::lemma_every_entry_is_valid(i as int);
                    }
                    actions = set_param(key, default_value_of(entries[i]));
                    actions.push(ClapAction::MarkDirty);
                }
            },
            UiIntent::SavePreset { name } => {
                if overwrite_refused(&mut self.pending_overwrite, name_taken, &name, now_ms) {
                    actions.push(ClapAction::ReportPresetExists(name));
                } else {
                    actions.push(ClapAction::SavePreset(name));
                }
            },
            UiIntent::RecallPreset { path } => {
                actions.push(ClapAction::RecallPreset(path));
            },
            UiIntent::LoadLibraryEntry(path) => {
                actions.push(ClapAction::LoadLibraryEntry(path));
                actions.push(ClapAction::MarkDirty);
            },
            UiIntent::RescanLibraryRequested => {
                actions.push(ClapAction::StartScan);
            },
            UiIntent::CancelScanRequested => {
                actions.push(ClapAction::CancelScan);
            },
            UiIntent::DismissNotice { id } => {
                actions.push(ClapAction::DismissNotice(id));
            },
        }
        actions
    }
}

/// A request marks the instance unsaved exactly where it can change the settings: neither a save
/// nor a recall does, nor a scan, a dismissed notice or the reset of an unknown parameter.
pub proof fn lemma_only_changed_settings_are_marked_unsaved(intent: UiIntent, refused: bool)
    ensures
        actions_for(intent, refused).contains(ClapAction::MarkDirty) <==> changes_settings(intent),
        changes_settings(intent) <==> intent is SetParam || intent is LoadLibraryEntry || (
        intent matches UiIntent::ResetParamToDefault { key } && registry::known(key@)),
{
    let actions = actions_for(intent, refused);
    if changes_settings(intent) {
        assert(actions[actions.len() - 1] == ClapAction::MarkDirty);
    }
}

/// Saving under the name of a preset that exists writes nothing the first time; the same name
/// again, soon enough, is the confirmation and writes; anything later or under another name is
/// refused like the first. A name that no preset has is saved at once.
pub proof fn lemma_overwriting_takes_two_presses(
    before: &ClapUiHost,
    after: &ClapUiHost,
    name: String,
    again: String,
    other: String,
    first_ms: u64,
    second_ms: u64,
)
    requires
        before.refuses(UiIntent::SavePreset { name }, true, first_ms),
        app_host::refusal_view(after.pending_overwrite) == Some((name@, first_ms)),
        again@ == name@,
        other@ != name@,
        first_ms <= second_ms,
    ensures
        ({
            let soon = second_ms - first_ms < app_host::OVERWRITE_CONFIRM_WINDOW_MS;
            let confirm = UiIntent::SavePreset { name: again };
            let elsewhere = UiIntent::SavePreset { name: other };
            &&& actions_for(UiIntent::SavePreset { name }, true) == seq![
                ClapAction::ReportPresetExists(name),
            ]
            &&& after.refuses(confirm, true, second_ms) == !soon
            &&& after.refuses(elsewhere, true, second_ms)
            &&& !after.refuses(confirm, false, second_ms)
            &&& actions_for(confirm, false) == seq![ClapAction::SavePreset(again)]
        }),
{
}

/// A frame that reads nothing holds the readings; one that reads something shows it whatever was
/// shown before, so a meter falls as well as it rises.
pub proof fn lemma_meters_hold_and_follow(
    host: &ClapUiHost,
    louder: &ClapUiHost,
    entries: Seq<TelemetryEntry>,
)
    ensures
        host.metered(Seq::empty()) == *host,
        meters::loudest(Listener::Plugin, entries, Signal::OutputPeak) is Some ==> host.metered(
            entries,
        ).output_peak_db == louder.metered(entries).output_peak_db,
        meters::newest(Listener::Plugin, entries, Signal::InputPeak) is Some ==> host.metered(entries).input_peak_db
            == louder.metered(entries).input_peak_db,
{
}

/// A parameter the registry has: setting it stores the very value for that key in the mirror, once,
/// and submits the very same value under that parameter's identity, once; and resetting it does
/// what setting its default does.
pub proof fn lemma_a_parameter_goes_to_the_mirror_and_the_engine(
    key: &'static str,
    value: Single,
    i: int,
    refused: bool,
)
    requires
        registry::keyed(key@, i),
    ensures
        ({
            let entry = registry::registry_entries()[i];
            let set = actions_for(UiIntent::SetParam { key, value }, refused);
            let reset = actions_for(UiIntent::ResetParamToDefault { key }, refused);
            let store = ClapAction::StoreFromGui { key, value };
            let submit = ClapAction::SubmitParam(ParamChange { id: param::id_of(key@), value });
            &&& set.contains(store)
            &&& set.contains(submit)
            &&& forall|a: int|
                0 <= a < set.len() && #[trigger] set[a] is StoreFromGui ==> set[a] == store
            &&& forall|a: int|
                0 <= a < set.len() && #[trigger] set[a] is SubmitParam ==> set[a] == submit
            &&& forall|a: int, b: int|
                0 <= a < b < set.len() ==> #[trigger] set[a] != #[trigger] set[b]
            &&& set.contains(ClapAction::MarkDirty)
            &&& set.len() == 3
            &&& reset == actions_for(
                UiIntent::SetParam { key, value: entry.kind.default_spec() },
                refused,
            )
        }),
{
    identity::lemma_a_key_has_one_place(key@, i);
    registry::lemma_every_id_derives_from_its_key(i);
    let set = actions_for(UiIntent::SetParam { key, value }, refused);
    assert(set[0] == ClapAction::StoreFromGui { key, value });
    assert(set[1] == ClapAction::SubmitParam(ParamChange { id: param::id_of(key@), value }));
    assert(set[2] == ClapAction::MarkDirty);
}

/// A key the registry does not have is never submitted, and its reset does nothing at all.
pub proof fn lemma_an_unknown_key_is_not_submitted(
    key: &'static str,
    value: Single,
    refused: bool,
)
    requires
        forall|i: int|
            0 <= i < registry::registry_entries().len() ==> (
            #[trigger] registry::registry_entries()[i]).key@ != key@,
    ensures
        forall|change: ParamChange|
            !(#[trigger] actions_for(UiIntent::SetParam { key, value }, refused).contains(
                ClapAction::SubmitParam(change),
            )),
        actions_for(UiIntent::SetParam { key, value }, refused).contains(
            ClapAction::StoreFromGui { key, value },
        ),
        actions_for(UiIntent::ResetParamToDefault { key }, refused).len() == 0,
{
    assert(!registry::known(key@));
    let set = actions_for(UiIntent::SetParam { key, value }, refused);
    assert(set[0] == ClapAction::StoreFromGui { key, value });
}

/// Every other request becomes the one action it names, with what it carries: a save is written
/// under its name, or reported under it where it was refused, a recall and a load take their path,
/// and a notice is dismissed by its number. Only a load leaves the instance unsaved.
pub proof fn lemma_other_requests_are_passed_on(
    name: String,
    path: String,
    id: u64,
    refused: bool,
)
    ensures
        actions_for(UiIntent::SavePreset { name }, refused) == seq![
            if refused {
                ClapAction::ReportPresetExists(name)
            } else {
                ClapAction::SavePreset(name)
            },
        ],
        actions_for(UiIntent::RecallPreset { path }, refused) == seq![
            ClapAction::RecallPreset(path),
        ],
        actions_for(UiIntent::LoadLibraryEntry(path), refused) == seq![
            ClapAction::LoadLibraryEntry(path),
            ClapAction::MarkDirty,
        ],
        actions_for(UiIntent::RescanLibraryRequested, refused) == seq![ClapAction::StartScan],
        actions_for(UiIntent::CancelScanRequested, refused) == seq![ClapAction::CancelScan],
        actions_for(UiIntent::DismissNotice { id }, refused) == seq![
            ClapAction::DismissNotice(id),
        ],
{
}

/// Every reading moves its own meter and no other: a level of the input after the trim is shown as
/// the input's, the loudest of the output channels' levels as the output's, and anything else moves
/// neither.
pub proof fn lemma_each_reading_moves_its_own_meter(
    host: &ClapUiHost,
    entries: Seq<TelemetryEntry>,
    e: TelemetryEntry,
    c: nat,
)
    requires
        c < 2,
    ensures
        ({
            let before = host.metered(entries);
            let after = host.metered(entries.push(e));
            &&& e.id == param::id_of("telemetry.trim.peak_db"@).value ==> after == (ClapUiHost {
                input_peak_db: e.value,
                ..before
            })
            &&& e.id == meters::output_peak_id(c) ==> {
                &&& after == (ClapUiHost { output_peak_db: after.output_peak_db, ..before })
                &&& entries.len() == 0 ==> after.output_peak_db == e.value
                &&& !e.value.is_nan() ==> e.value.rank() <= after.output_peak_db.rank()
            }
            &&& (e.id != param::id_of("telemetry.trim.peak_db"@).value && e.id
                != meters::output_peak_id(0) && e.id != meters::output_peak_id(1)) ==> after
                == before
        }),
{
    let all = entries.push(e);
    let last = entries.len() as int;
    assert(all.drop_last() =~= entries);
    assert(all[last] == e);
    meters::lemma_readings_are_told_apart();
    if e.id == meters::output_peak_id(c) {
        meters::lemma_loudest_is_the_loudest(Listener::Plugin, all, Signal::OutputPeak, last);
    }
}

/// One frame reads at most eight batches, one after the other from where the last one left the
/// ring, and stops at the first that is not full; what it reads is all of them, in order.
pub proof fn lemma_a_frame_reads_until_a_batch_is_short<D, S>(
    drain: D,
    rings: Seq<S>,
    batches: Seq<Seq<TelemetryEntry>>,
    batch: Seq<TelemetryEntry>,
    at: int,
) where D: Fn(S) -> (Vec<TelemetryEntry>, S)
    requires
        frame_drain(drain, rings, batches),
    ensures
        1 <= batches.len() <= 8,
        rings.len() == batches.len() + 1,
        forall|i: int|
            #![trigger batches[i]]
            0 <= i < batches.len() - 1 ==> batches[i].len() >= 64,
        batches.last().len() < 64 || batches.len() == 8,
        0 <= at < batches.len() ==> exists|v: Vec<TelemetryEntry>| #[trigger]
            call_ensures(drain, (rings[at],), (v, rings[at + 1])) && v@ == batches[at],
        drained(seq![batch]) == batch,
        drained(batches.push(batch)) == drained(batches) + batch,
{
    assert(batches.push(batch).drop_last() =~= batches);
    assert(seq![batch].drop_last() =~= Seq::empty());
    assert(drained(Seq::<Seq<TelemetryEntry>>::empty()) =~= Seq::empty());
    assert(drained(seq![batch]) =~= batch);
    if 0 <= at < batches.len() {
        assert(batch_given(drain, rings[at], batches[at], rings[at + 1]));
    }
}

/// The screen shows the instance as it is: its settings, its files each under its own name, its
/// library, presets and notices, and the unsaved marker exactly where it is marked; the level that
/// was last read of the input is on the input meter and that of the output on the output meter, as
/// peak and as average.
pub proof fn lemma_the_screen_shows_the_instance(
    host: &ClapUiHost,
    instance: InstanceView,
    s: UiSnapshot,
    e: TelemetryEntry,
    c: nat,
)
    requires
        c < 2,
        host.metered(seq![e]).shows(instance, s),
    ensures
        e.id == param::id_of("telemetry.trim.peak_db"@).value ==> {
            &&& s.input_meter == (MeterReading { peak_db: e.value, rms_db: e.value })
            &&& s.output_meter.peak_db == host.output_peak_db
            &&& s.output_meter.rms_db == host.output_peak_db
        },
        e.id == meters::output_peak_id(c) ==> {
            &&& s.output_meter == (MeterReading { peak_db: e.value, rms_db: e.value })
            &&& s.input_meter.peak_db == host.input_peak_db
            &&& s.input_meter.rms_db == host.input_peak_db
        },
        instance.nam matches Some(f) ==> s.loaded_model_name matches Some(name) && name@
            == f.display_name@,
        instance.nam is None ==> s.loaded_model_name is None,
        instance.ir matches Some(f) ==> s.loaded_ir_name matches Some(name) && name@
            == f.display_name@,
        instance.ir is None ==> s.loaded_ir_name is None,
        s.params == instance.params,
        s.library == instance.library,
        s.presets == instance.presets,
        s.notices == instance.notices,
        s.unsaved_changes == instance.dirty,
        s.audio_mode is None,
        s.independent_channels_relevant,
{
    assert(Seq::<TelemetryEntry>::empty().push(e) =~= seq![e]);
    lemma_each_reading_moves_its_own_meter(host, Seq::empty(), e, c);
    lemma_meters_hold_and_follow(host, host, Seq::empty());
}

/// The same ring again changes nothing; another one is noted, and both meters read silence until it
/// has been read. A refused save stays as it is either way.
pub proof fn lemma_another_ring_starts_from_silence(host: &ClapUiHost, generation: u64)
    ensures
        host.rebound(host.telemetry_generation) == *host,
        host.rebound(generation).telemetry_generation == generation,
        host.rebound(generation).rebound(generation) == host.rebound(generation),
        host.rebound(generation).pending_overwrite == host.pending_overwrite,
        generation != host.telemetry_generation ==> host.rebound(generation).input_peak_db
            == Single::silence() && host.rebound(generation).output_peak_db == Single::silence(),
{
}

/// A refused save can be confirmed by its own name for thirty seconds, from when it was refused;
/// the save that confirms it uses it up, and so does any save that is made. No other request arms
/// or disarms it.
pub proof fn lemma_a_refusal_is_used_up_by_a_save(
    before: &ClapUiHost,
    after: &ClapUiHost,
    intent: UiIntent,
    taken: bool,
    at_ms: u64,
    again: String,
    now_ms: u64,
)
    requires
        app_host::refusal_view(after.pending_overwrite) == before.refusal_after(
            intent,
            taken,
            at_ms,
        ),
        at_ms <= now_ms,
    ensures
        ({
            let once_more = after.refuses(UiIntent::SavePreset { name: again }, true, now_ms);
            &&& intent matches UiIntent::SavePreset { name } ==> {
                &&& before.refuses(intent, taken, at_ms) ==> (once_more <==> again@ != name@
                    || now_ms - at_ms >= 30_000)
                &&& !before.refuses(intent, taken, at_ms) ==> once_more
            }
            &&& !(intent is SavePreset) ==> (once_more <==> before.refuses(
                UiIntent::SavePreset { name: again },
                true,
                now_ms,
            ))
            &&& !after.refuses(UiIntent::SavePreset { name: again }, false, now_ms)
        }),
{
}

/// A save is written under its name, or reported under it: reported exactly where a preset of that
/// name exists and the last save was not of this very name, refused, and less than thirty seconds
/// ago. Nothing else comes of it either way, and whether a name is taken makes no difference to any
/// other request.
pub proof fn lemma_a_save_is_written_or_reported(
    host: &ClapUiHost,
    name: String,
    taken: bool,
    now_ms: u64,
    other: UiIntent,
    later_ms: u64,
)
    ensures
        ({
            let confirmed = host.pending_overwrite matches Some((armed, at)) && armed@ == name@ && (
            now_ms < at || now_ms - at < 30_000);
            let actions = host.dispatched(UiIntent::SavePreset { name }, taken, now_ms);
            &&& actions.len() == 1
            &&& taken && !confirmed ==> actions[0] == ClapAction::ReportPresetExists(name)
            &&& !taken || confirmed ==> actions[0] == ClapAction::SavePreset(name)
            &&& !(other is SavePreset) ==> host.dispatched(other, taken, now_ms)
                == host.dispatched(other, !taken, later_ms)
        }),
{
}

/// What a request turns into is what its kind asks for: a parameter that is set or reset goes to
/// the mirror and, where the registry has it, to the engine; everything else is passed on.
pub proof fn lemma_a_request_turns_into_its_actions(
    host: &ClapUiHost,
    key: &'static str,
    value: Single,
    i: int,
    path: String,
    id: u64,
    taken: bool,
    now_ms: u64,
)
    requires
        registry::keyed(key@, i),
    ensures
        host.dispatched(UiIntent::SetParam { key, value }, taken, now_ms) == seq![
            ClapAction::StoreFromGui { key, value },
            ClapAction::SubmitParam(ParamChange { id: param::id_of(key@), value }),
            ClapAction::MarkDirty,
        ],
        host.dispatched(UiIntent::ResetParamToDefault { key }, taken, now_ms) == host.dispatched(
            UiIntent::SetParam {
                key,
                value: registry::registry_entries()[i].kind.default_spec(),
            },
            taken,
            now_ms,
        ),
        host.dispatched(UiIntent::RecallPreset { path }, taken, now_ms) == seq![
            ClapAction::RecallPreset(path),
        ],
        host.dispatched(UiIntent::LoadLibraryEntry(path), taken, now_ms) == seq![
            ClapAction::LoadLibraryEntry(path),
            ClapAction::MarkDirty,
        ],
        host.dispatched(UiIntent::RescanLibraryRequested, taken, now_ms) == seq![
            ClapAction::StartScan,
        ],
        host.dispatched(UiIntent::CancelScanRequested, taken, now_ms) == seq![
            ClapAction::CancelScan,
        ],
        host.dispatched(UiIntent::DismissNotice { id }, taken, now_ms) == seq![
            ClapAction::DismissNotice(id),
        ],
{
    identity::lemma_a_key_has_one_place(key@, i);
    registry::lemma_every_id_derives_from_its_key(i);
    let set = host.dispatched(UiIntent::SetParam { key, value }, taken, now_ms);
    assert(set =~= seq![
        ClapAction::StoreFromGui { key, value },
        ClapAction::SubmitParam(ParamChange { id: param::id_of(key@), value }),
        ClapAction::MarkDirty,
    ]);
}

/// Of everything one drain reads of the output channels' levels the loudest is shown: it is one of
/// them, and none of them that is a number is louder.
pub proof fn lemma_the_loudest_output_channel_is_shown(
    host: &ClapUiHost,
    entries: Seq<TelemetryEntry>,
    i: int,
    c: nat,
)
    requires
        0 <= i < entries.len(),
        c < 2,
        entries[i].id == meters::output_peak_id(c),
    ensures
        !entries[i].value.is_nan() ==> !host.metered(entries).output_peak_db.is_nan()
            && entries[i].value.rank() <= host.metered(entries).output_peak_db.rank(),
        exists|j: int|
            0 <= j < entries.len() && ((#[trigger] entries[j]).id == meters::output_peak_id(0)
                || entries[j].id == meters::output_peak_id(1)) && entries[j].value == host.metered(
                entries,
            ).output_peak_db,
{
    meters::lemma_readings_are_told_apart();
    meters::lemma_loudest_is_the_loudest(Listener::Plugin, entries, Signal::OutputPeak, i);
    let j = choose|j: int|
        0 <= j < entries.len() && meters::signal_of(Listener::Plugin, (#[trigger] entries[j]).id)
            == Signal::OutputPeak && entries[j].value == meters::loudest(
            Listener::Plugin,
            entries,
            Signal::OutputPeak,
        )->0;
    assert(entries[j].value == host.metered(entries).output_peak_db);
}

} // verus!
