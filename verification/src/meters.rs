//! What the meters read off one drain of the telemetry ring.

use vstd::prelude::*;
use vstd::string::*;

use crate::param;
use crate::param::{ParamId, TelemetryEntry};
use crate::single::Single;
use crate::text;

verus! {

/// One meter's reading in decibels.
#[derive(Debug, Clone, Copy, PartialEq, Eq, Structural)]
pub struct MeterReading {
    pub peak_db: Single,
    pub rms_db: Single,
}

impl MeterReading {
    /// Digital silence.
    #[verifier::allow_in_spec]
    pub fn silent() -> MeterReading
        returns
            (MeterReading { peak_db: Single::silence(), rms_db: Single::silence() }),
    {
        MeterReading { peak_db: Single::silence(), rms_db: Single::silence() }
    }
}

impl Default for MeterReading {
    fn default() -> (r: Self)
        ensures
            r == MeterReading::silent(),
    {
        MeterReading::silent()
    }
}

/// `prefix`, a channel number, `suffix`.
pub open spec fn channel_key(prefix: Seq<char>, channel: nat, suffix: Seq<char>) -> Seq<char> {
    prefix + text::digits(channel) + suffix
}

/// The identity of the input level after the trim.
pub fn telemetry_input_peak_id() -> (id: u32)
    ensures
        id == param::id_of("telemetry.trim.peak_db"@).value,
{
    ParamId::from_key("telemetry.trim.peak_db").value
}

/// The identity of the input level's average.
pub fn telemetry_input_average_id() -> (id: u32)
    ensures
        id == param::id_of("telemetry.trim.average_db"@).value,
{
    ParamId::from_key("telemetry.trim.average_db").value
}

pub open spec fn output_peak_id(channel: nat) -> u32 {
    param::id_of(channel_key("telemetry.out.ch"@, channel, ".peak_db"@)).value
}

pub open spec fn output_average_id(channel: nat) -> u32 {
    param::id_of(channel_key("telemetry.out.ch"@, channel, ".average_db"@)).value
}

/// The identity of one output channel's level.
pub fn telemetry_output_peak_id(channel: usize) -> (id: u32)
    ensures
        id == output_peak_id(channel as nat),
{
    let mut key: String = "telemetry.out.ch".to_owned();
    key.append(text::decimal(channel as u64).as_str());
    key.append(".peak_db");
    ParamId::from_key(key.as_str()).value
}

/// The identity of one output channel's average.
pub fn telemetry_output_average_id(channel: usize) -> (id: u32)
    ensures
        id == output_average_id(channel as nat),
{
    let mut key: String = "telemetry.out.ch".to_owned();
    key.append(text::decimal(channel as u64).as_str());
    key.append(".average_db");
    ParamId::from_key(key.as_str()).value
}

/// What an entry is a reading of.
#[derive(Debug, Clone, Copy, PartialEq, Eq, Structural)]
pub enum Signal {
    InputPeak,
    InputAverage,
    OutputPeak,
    OutputAverage,
    Other,
}

/// Who reads: the application looks at peaks and averages, the plugin at peaks alone.
#[derive(Debug, Clone, Copy, PartialEq, Eq, Structural)]
pub enum Listener {
    Application,
    Plugin,
}

/// What an identity stands for; at most two output channels are looked at.
pub open spec fn signal_of(listener: Listener, id: u32) -> Signal {
    let averages = listener == Listener::Application;
    if id == param::id_of("telemetry.trim.peak_db"@).value {
        Signal::InputPeak
    } else if averages && id == param::id_of("telemetry.trim.average_db"@).value {
        Signal::InputAverage
    } else if id == output_peak_id(0) || id == output_peak_id(1) {
        Signal::OutputPeak
    } else if averages && (id == output_average_id(0) || id == output_average_id(1)) {
        Signal::OutputAverage
    } else {
        Signal::Other
    }
}

/// The newest reading of a signal.
pub open spec fn newest(
    listener: Listener,
    entries: Seq<TelemetryEntry>,
    signal: Signal,
) -> Option<Single>
    decreases entries.len(),
{
    if entries.len() == 0 {
        None
    } else if signal_of(listener, entries.last().id) == signal {
        Some(entries.last().value)
    } else {
        newest(listener, entries.drop_last(), signal)
    }
}

/// The loudest reading of a signal.
pub open spec fn loudest(
    listener: Listener,
    entries: Seq<TelemetryEntry>,
    signal: Signal,
) -> Option<Single>
    decreases entries.len(),
{
    if entries.len() == 0 {
        None
    } else {
        let before = loudest(listener, entries.drop_last(), signal);
        if signal_of(listener, entries.last().id) == signal {
            match before {
                Some(held) => Some(held.louder(entries.last().value)),
                None => Some(entries.last().value),
            }
        } else {
            before
        }
    }
}

/// What one drain says of every signal.
#[derive(Debug, Clone, Copy, PartialEq, Eq, Structural)]
pub struct Readings {
    pub input_peak: Option<Single>,
    pub input_average: Option<Single>,
    pub output_peak: Option<Single>,
    pub output_average: Option<Single>,
}

impl Readings {
    /// The newest input readings and the loudest output readings.
    pub open spec fn of(listener: Listener, entries: Seq<TelemetryEntry>) -> Readings {
        Readings {
            input_peak: newest(listener, entries, Signal::InputPeak),
            input_average: newest(listener, entries, Signal::InputAverage),
            output_peak: loudest(listener, entries, Signal::OutputPeak),
            output_average: loudest(listener, entries, Signal::OutputAverage),
        }
    }

    /// Nothing read yet.
    pub fn none() -> (r: Readings)
        ensures
            forall|listener: Listener| r == Readings::of(listener, Seq::<TelemetryEntry>::empty()),
    {
        Readings { input_peak: None, input_average: None, output_peak: None, output_average: None }
    }

    /// Takes in the entries that come after those already `seen`.
    pub(crate) fn read(
        &mut self,
        listener: Listener,
        entries: &Vec<TelemetryEntry>,
        Ghost(seen): Ghost<Seq<TelemetryEntry>>,
    )
        requires
            *old(self) == Readings::of(listener, seen),
        ensures
            *final(self) == Readings::of(listener, seen + entries@),
    {
        let input_peak_id: u32 = telemetry_input_peak_id();
        let input_average_id: u32 = telemetry_input_average_id();
        let peak_0: u32 = telemetry_output_peak_id(0);
        let peak_1: u32 = telemetry_output_peak_id(1);
        let average_0: u32 = telemetry_output_average_id(0);
        let average_1: u32 = telemetry_output_average_id(1);
        let averages: bool = listener == Listener::Application;
        let mut i: usize = 0;
        proof {
            assert(seen + entries@.take(0) =~= seen);
        }
        while i < entries.len()
            invariant
                i <= entries@.len(),
                averages == (listener == Listener::Application),
                *self == Readings::of(listener, seen + entries@.take(i as int)),
                input_peak_id == param::id_of("telemetry.trim.peak_db"@).value,
                input_average_id == param::id_of("telemetry.trim.average_db"@).value,
                peak_0 == output_peak_id(0),
                peak_1 == output_peak_id(1),
                average_0 == output_average_id(0),
                average_1 == output_average_id(1),
            decreases entries@.len() - i,
        {
            let entry: TelemetryEntry = entries[i];
            proof {
                let so_far = seen + entries@.take(i as int);
                let next = seen + entries@.take(i + 1);
                assert(next.drop_last() =~= so_far);
                assert(next.last() == entry);
            }
            if entry.id == input_peak_id {
                self.input_peak = Some(entry.value);
            } else if averages && entry.id == input_average_id {
                self.input_average = Some(entry.value);
            } else if entry.id == peak_0 || entry.id == peak_1 {
                self.output_peak = Some(louder_of(self.output_peak, entry.value));
            } else if averages && (entry.id == average_0 || entry.id == average_1) {
                self.output_average = Some(louder_of(self.output_average, entry.value));
            }
            i += 1;
        }
        proof {
            assert(entries@.take(entries@.len() as int) =~= entries@);
        }
    }
}

fn louder_of(held: Option<Single>, value: Single) -> (r: Single)
    ensures
        r == (match held {
            Some(h) => h.louder(value),
            None => value,
        }),
{
    match held {
        Some(h) => h.max(value),
        None => value,
    }
}

/// The loudest reading is one of the readings, and no reading that is a number is louder.
pub proof fn lemma_loudest_is_the_loudest(
    listener: Listener,
    entries: Seq<TelemetryEntry>,
    signal: Signal,
    i: int,
)
    requires
        0 <= i < entries.len(),
        signal_of(listener, entries[i].id) == signal,
    ensures
        loudest(listener, entries, signal) is Some,
        !entries[i].value.is_nan() ==> !loudest(listener, entries, signal)->0.is_nan() && entries[i].value.rank()
            <= loudest(listener, entries, signal)->0.rank(),
        exists|j: int|
            0 <= j < entries.len() && signal_of(listener, (#[trigger] entries[j]).id) == signal
                && entries[j].value == loudest(listener, entries, signal)->0,
    decreases entries.len(),
{
    let rest = entries.drop_last();
    let last = entries.len() - 1;
    if i < last {
        lemma_loudest_is_the_loudest(listener, rest, signal, i);
        let j = choose|j: int|
            0 <= j < rest.len() && signal_of(listener, (#[trigger] rest[j]).id) == signal && rest[j].value
                == loudest(listener, rest, signal)->0;
        assert(entries[j] == rest[j]);
        assert(entries[last] == entries.last());
    } else {
        assert(entries[last] == entries.last());
        if let Some(held) = loudest(listener, rest, signal) {
            lemma_loudest_comes_from_a_reading(listener, rest, signal);
            let j = choose|j: int|
                0 <= j < rest.len() && signal_of(listener, (#[trigger] rest[j]).id) == signal
                    && rest[j].value == held;
            assert(entries[j] == rest[j]);
        }
    }
}

proof fn lemma_loudest_comes_from_a_reading(
    listener: Listener,
    entries: Seq<TelemetryEntry>,
    signal: Signal,
)
    requires
        loudest(listener, entries, signal) is Some,
    ensures
        exists|j: int|
            0 <= j < entries.len() && signal_of(listener, (#[trigger] entries[j]).id) == signal
                && entries[j].value == loudest(listener, entries, signal)->0,
    decreases entries.len(),
{
    if entries.len() > 0 {
        let rest = entries.drop_last();
        let last = entries.len() - 1;
        assert(entries[last] == entries.last());
        if loudest(listener, rest, signal) is Some {
            lemma_loudest_comes_from_a_reading(listener, rest, signal);
            let j = choose|j: int|
                0 <= j < rest.len() && signal_of(listener, (#[trigger] rest[j]).id) == signal
                    && rest[j].value == loudest(listener, rest, signal)->0;
            assert(entries[j] == rest[j]);
        }
    }
}

/// One byte of the hash.
spec fn hashed(hash: u32, byte: u32) -> u32 {
    param::hashed(hash, byte)
}

proof fn lemma_hash_of_telemetry()
    ensures
        param::hashed_on(0x811C_9DC5u32, "telemetry."@) == 0x3684_8EEAu32,
{
    reveal_strlit("telemetry.");
    reveal_with_fuel(param::hashed_on, 11);
    assert(
        hashed(hashed(hashed(hashed(hashed(hashed(hashed(hashed(hashed(hashed(0x811C_9DC5u32,
        116u32), 101u32), 108u32), 101u32), 109u32), 101u32), 116u32), 114u32), 121u32), 46u32)
        == 0x3684_8EEAu32
    ) by (bit_vector);
}

proof fn lemma_hash_of_trim()
    ensures
        param::hashed_on(0x3684_8EEAu32, "trim"@) == 0xF24B_C64Au32,
{
    reveal_strlit("trim");
    reveal_with_fuel(param::hashed_on, 5);
    assert(
        hashed(hashed(hashed(hashed(0x3684_8EEAu32, 116u32), 114u32), 105u32), 109u32)
        == 0xF24B_C64Au32
    ) by (bit_vector);
}

proof fn lemma_hash_of_out()
    ensures
        param::hashed_on(0x3684_8EEAu32, "out.ch"@) == 0x4D0B_4E73u32,
{
    reveal_strlit("out.ch");
    reveal_with_fuel(param::hashed_on, 7);
    assert(
        hashed(hashed(hashed(hashed(hashed(hashed(0x3684_8EEAu32, 111u32), 117u32), 116u32),
        46u32), 99u32), 104u32)
        == 0x4D0B_4E73u32
    ) by (bit_vector);
}

proof fn lemma_hash_of_0()
    ensures
        param::hashed_on(0x4D0B_4E73u32, "0"@) == 0x8BCC_3379u32,
{
    reveal_strlit("0");
    reveal_with_fuel(param::hashed_on, 2);
    assert(
        hashed(0x4D0B_4E73u32, 48u32)
        == 0x8BCC_3379u32
    ) by (bit_vector);
}

proof fn lemma_hash_of_1()
    ensures
        param::hashed_on(0x4D0B_4E73u32, "1"@) == 0x8ACC_31E6u32,
{
    reveal_strlit("1");
    reveal_with_fuel(param::hashed_on, 2);
    assert(
        hashed(0x4D0B_4E73u32, 49u32)
        == 0x8ACC_31E6u32
    ) by (bit_vector);
}

proof fn lemma_hash_of_peak()
    ensures
        param::hashed_on(0xF24B_C64Au32, ".peak_db"@) == 0xE0B2_7982u32,
        param::hashed_on(0x8BCC_3379u32, ".peak_db"@) == 0x132B_7121u32,
        param::hashed_on(0x8ACC_31E6u32, ".peak_db"@) == 0x4FD9_44AEu32,
{
    reveal_strlit(".peak_db");
    reveal_with_fuel(param::hashed_on, 9);
    assert(
        hashed(hashed(hashed(hashed(hashed(hashed(hashed(hashed(0xF24B_C64Au32, 46u32), 112u32),
        101u32), 97u32), 107u32), 95u32), 100u32), 98u32)
        == 0xE0B2_7982u32
    ) by (bit_vector);
    assert(
        hashed(hashed(hashed(hashed(hashed(hashed(hashed(hashed(0x8BCC_3379u32, 46u32), 112u32),
        101u32), 97u32), 107u32), 95u32), 100u32), 98u32)
        == 0x132B_7121u32
    ) by (bit_vector);
    assert(
        hashed(hashed(hashed(hashed(hashed(hashed(hashed(hashed(0x8ACC_31E6u32, 46u32), 112u32),
        101u32), 97u32), 107u32), 95u32), 100u32), 98u32)
        == 0x4FD9_44AEu32
    ) by (bit_vector);
}

proof fn lemma_hash_of_average()
    ensures
        param::hashed_on(0xF24B_C64Au32, ".average_db"@) == 0x9062_16DEu32,
        param::hashed_on(0x8BCC_3379u32, ".average_db"@) == 0x5D7A_C5E3u32,
        param::hashed_on(0x8ACC_31E6u32, ".average_db"@) == 0xC97A_E97Au32,
{
    reveal_strlit(".average_db");
    reveal_with_fuel(param::hashed_on, 12);
    assert(
        hashed(hashed(hashed(hashed(hashed(hashed(hashed(hashed(hashed(hashed(hashed(
        0xF24B_C64Au32, 46u32), 97u32), 118u32), 101u32), 114u32), 97u32), 103u32), 101u32),
        95u32), 100u32), 98u32)
        == 0x9062_16DEu32
    ) by (bit_vector);
    assert(
        hashed(hashed(hashed(hashed(hashed(hashed(hashed(hashed(hashed(hashed(hashed(
        0x8BCC_3379u32, 46u32), 97u32), 118u32), 101u32), 114u32), 97u32), 103u32), 101u32),
        95u32), 100u32), 98u32)
        == 0x5D7A_C5E3u32
    ) by (bit_vector);
    assert(
        hashed(hashed(hashed(hashed(hashed(hashed(hashed(hashed(hashed(hashed(hashed(
        0x8ACC_31E6u32, 46u32), 97u32), 118u32), 101u32), 114u32), 97u32), 103u32), 101u32),
        95u32), 100u32), 98u32)
        == 0xC97A_E97Au32
    ) by (bit_vector);
}

proof fn lemma_input_ids()
    ensures
        param::id_of("telemetry.trim.peak_db"@).value == 0xE0B2_7982u32,
        param::id_of("telemetry.trim.average_db"@).value == 0x9062_16DEu32,
{
    reveal_strlit("telemetry.");
    reveal_strlit("trim");
    reveal_strlit(".peak_db");
    reveal_strlit(".average_db");
    reveal_strlit("telemetry.trim.peak_db");
    reveal_strlit("telemetry.trim.average_db");
    let (start, trim) = ("telemetry."@, "trim"@);
    assert("telemetry.trim.peak_db"@ =~= start + trim + ".peak_db"@);
    assert("telemetry.trim.average_db"@ =~= start + trim + ".average_db"@);
    param::lemma_id_is_the_hash("telemetry.trim.peak_db"@);
    param::lemma_id_is_the_hash("telemetry.trim.average_db"@);
    param::lemma_hash_goes_on(param::FNV_OFFSET_BASIS, start, trim);
    param::lemma_hash_goes_on(param::FNV_OFFSET_BASIS, start + trim, ".peak_db"@);
    param::lemma_hash_goes_on(param::FNV_OFFSET_BASIS, start + trim, ".average_db"@);
    lemma_hash_of_telemetry();
    lemma_hash_of_trim();
    lemma_hash_of_peak();
    lemma_hash_of_average();
}

proof fn lemma_output_ids()
    ensures
        output_peak_id(0) == 0x132B_7121u32,
        output_peak_id(1) == 0x4FD9_44AEu32,
        output_average_id(0) == 0x5D7A_C5E3u32,
        output_average_id(1) == 0xC97A_E97Au32,
{
    reveal_strlit("telemetry.");
    reveal_strlit("out.ch");
    reveal_strlit("0");
    reveal_strlit("1");
    reveal_strlit(".peak_db");
    reveal_strlit(".average_db");
    reveal_strlit("telemetry.out.ch");
    let (start, out) = ("telemetry."@, "out.ch"@);
    assert("telemetry.out.ch"@ =~= start + out);
    assert(text::digits(0) =~= "0"@);
    assert(text::digits(1) =~= "1"@);
    param::lemma_hash_goes_on(param::FNV_OFFSET_BASIS, start, out);
    lemma_hash_of_telemetry();
    lemma_hash_of_out();
    lemma_hash_of_0();
    lemma_hash_of_1();
    lemma_hash_of_peak();
    lemma_hash_of_average();
    lemma_output_id(0, "0"@, ".peak_db"@);
    lemma_output_id(1, "1"@, ".peak_db"@);
    lemma_output_id(0, "0"@, ".average_db"@);
    lemma_output_id(1, "1"@, ".average_db"@);
}

proof fn lemma_output_id(channel: nat, digit: Seq<char>, suffix: Seq<char>)
    requires
        text::digits(channel) == digit,
        vstd::utf8::is_ascii_chars(digit),
        vstd::utf8::is_ascii_chars(suffix),
    ensures
        param::id_of(channel_key("telemetry.out.ch"@, channel, suffix)).value
            == param::hashed_on(
            param::hashed_on(
                param::hashed_on(param::FNV_OFFSET_BASIS, "telemetry.out.ch"@),
                digit,
            ),
            suffix,
        ),
{
    reveal_strlit("telemetry.out.ch");
    let prefix = "telemetry.out.ch"@;
    param::lemma_id_is_the_hash(prefix + digit + suffix);
    param::lemma_hash_goes_on(param::FNV_OFFSET_BASIS, prefix, digit);
    param::lemma_hash_goes_on(param::FNV_OFFSET_BASIS, prefix + digit, suffix);
}

/// No two readings share an identity: the two output channels' levels and averages and the input's
/// are told apart, and each is taken for what it is by whoever listens to it.
pub proof fn lemma_readings_are_told_apart()
    ensures
        output_peak_id(0) != output_peak_id(1),
        output_average_id(0) != output_average_id(1),
        forall|c: nat, d: nat|
            c < 2 && d < 2 ==> #[trigger] output_peak_id(c) != #[trigger] output_average_id(d),
        param::id_of("telemetry.trim.peak_db"@) != param::id_of("telemetry.trim.average_db"@),
        forall|c: nat|
            c < 2 ==> {
                &&& #[trigger] output_peak_id(c) != param::id_of("telemetry.trim.peak_db"@).value
                &&& output_peak_id(c) != param::id_of("telemetry.trim.average_db"@).value
            },
        forall|c: nat|
            c < 2 ==> {
                &&& #[trigger] output_average_id(c) != param::id_of("telemetry.trim.peak_db"@).value
                &&& output_average_id(c) != param::id_of("telemetry.trim.average_db"@).value
            },
        forall|listener: Listener, c: nat|
            c < 2 ==> #[trigger] signal_of(listener, output_peak_id(c)) == Signal::OutputPeak,
        forall|c: nat|
            c < 2 ==> signal_of(Listener::Application, #[trigger] output_average_id(c))
                == Signal::OutputAverage,
        signal_of(Listener::Application, param::id_of("telemetry.trim.average_db"@).value)
            == Signal::InputAverage,
{
    lemma_input_ids();
    lemma_output_ids();
}

/// The newest reading of a signal is the last one there is of it, and there is none where nothing
/// was read of it; neither is there a loudest.
pub proof fn lemma_newest_is_the_last_of_its_signal(
    listener: Listener,
    entries: Seq<TelemetryEntry>,
    signal: Signal,
    i: int,
)
    ensures
        0 <= i < entries.len() && signal_of(listener, entries[i].id) == signal && (forall|j: int|
            i < j < entries.len() ==> signal_of(listener, (#[trigger] entries[j]).id) != signal)
            ==> newest(listener, entries, signal) == Some(entries[i].value),
        newest(listener, entries, signal) is None <==> forall|j: int|
            0 <= j < entries.len() ==> signal_of(listener, (#[trigger] entries[j]).id) != signal,
        loudest(listener, entries, signal) is None <==> forall|j: int|
            0 <= j < entries.len() ==> signal_of(listener, (#[trigger] entries[j]).id) != signal,
    decreases entries.len(),
{
    if entries.len() > 0 {
        let rest = entries.drop_last();
        let last = entries.len() - 1;
        lemma_newest_is_the_last_of_its_signal(listener, rest, signal, i);
        assert(entries[last] == entries.last());
        assert forall|j: int| 0 <= j < rest.len() implies #[trigger] rest[j] == entries[j] by {}
        assert forall|j: int| 0 <= j < rest.len() implies #[trigger] entries[j] == rest[j] by {}
    }
}

/// The plugin looks at levels alone: to it no average is a reading of anything.
pub proof fn lemma_the_plugin_looks_at_levels_alone(id: u32)
    ensures
        signal_of(Listener::Plugin, id) != Signal::InputAverage,
        signal_of(Listener::Plugin, id) != Signal::OutputAverage,
        signal_of(Listener::Plugin, id) == Signal::InputPeak <==> signal_of(
            Listener::Application,
            id,
        ) == Signal::InputPeak,
        signal_of(Listener::Plugin, id) == Signal::OutputPeak <==> signal_of(
            Listener::Application,
            id,
        ) == Signal::OutputPeak,
{
    lemma_readings_are_told_apart();
}

} // verus!
