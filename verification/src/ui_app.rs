//! The one screen: what it is made of, and what a frame of it does.

use vstd::prelude::*;
use vstd::string::*;

use crate::descriptor::ParamDescriptor;
use crate::meters::MeterReading;
use crate::registry;
use crate::single::Single;
use crate::state::ParamValues;
use crate::text;
use crate::ui_host;
use crate::ui_host::{AudioModeStatus, AudioShareMode, PresetSummary, UiHost, UiIntent, UiSnapshot};

verus! {

/// What the mode indicator says.
pub open spec fn mode_label(mode: AudioShareMode, device: Seq<char>) -> Seq<char> {
    (match mode {
        AudioShareMode::Shared => "Shared"@,
        AudioShareMode::Exclusive => "Exclusive"@,
    }) + " mode \u{2014} "@ + device
}

/// The granted mode and the device, in one line.
pub fn audio_mode_label(mode: &AudioModeStatus) -> (s: String)
    ensures
        s@ == mode_label(mode.share_mode, mode.device_name@),
{
    let mut s: String = match mode.share_mode {
        AudioShareMode::Shared => "Shared".to_owned(),
        AudioShareMode::Exclusive => "Exclusive".to_owned(),
    };
    s.append(" mode \u{2014} ");
    s.append(mode.device_name.as_str());
    s
}

/// The status line: the mode indicator where there is one, and the unsaved marker.
pub open spec fn status_line(mode: Option<(AudioShareMode, Seq<char>)>, unsaved: bool) -> Seq<
    Seq<char>,
> {
    (match mode {
        Some((granted, device)) => seq![mode_label(granted, device)],
        None => Seq::empty(),
    }) + (if unsaved {
        seq!["* unsaved changes"@]
    } else {
        Seq::empty()
    })
}

/// What a list of labels says.
pub open spec fn labels_view(labels: Seq<String>) -> Seq<Seq<char>> {
    Seq::new(labels.len(), |i: int| labels[i]@)
}

/// The status line: the mode indicator where there is one, and the unsaved marker.
pub fn status_labels(snapshot: &UiSnapshot) -> (labels: Vec<String>)
    ensures
        labels_view(labels@) == status_line(
            ui_host::mode_view(snapshot.audio_mode),
            snapshot.unsaved_changes,
        ),
{
    let mut labels: Vec<String> = Vec::new();
    if let Some(mode) = &snapshot.audio_mode {
        labels.push(audio_mode_label(mode));
    }
    if snapshot.unsaved_changes {
        labels.push("* unsaved changes".to_owned());
    }
    proof {
        assert(labels_view(labels@) =~= status_line(
            ui_host::mode_view(snapshot.audio_mode),
            snapshot.unsaved_changes,
        ));
    }
    labels
}

/// One thing on the main part of the screen.
#[derive(Debug, PartialEq)]
pub enum ScreenItem {
    Heading(&'static str),
    Label(String),
    Meter { title: &'static str, reading: MeterReading },
    /// The control of a registry entry, at a value.
    Control { entry: usize, value: Single },
    Separator,
}

/// What a thing on the screen says.
pub enum ItemView {
    Heading(Seq<char>),
    Label(Seq<char>),
    Meter(Seq<char>, MeterReading),
    Control(int, Single),
    Separator,
}

impl View for ScreenItem {
    type V = ItemView;

    open spec fn view(&self) -> ItemView {
        match self {
            ScreenItem::Heading(t) => ItemView::Heading(t@),
            ScreenItem::Label(t) => ItemView::Label(t@),
            ScreenItem::Meter { title, reading } => ItemView::Meter(title@, *reading),
            ScreenItem::Control { entry, value } => ItemView::Control(*entry as int, *value),
            ScreenItem::Separator => ItemView::Separator,
        }
    }
}

pub open spec fn items_view(items: Seq<ScreenItem>) -> Seq<ItemView> {
    Seq::new(items.len(), |i: int| items[i]@)
}

/// The controls of those of the first `n` registry entries whose keys open with `prefix`, in the
/// registry's order.
pub open spec fn section(values: Seq<Single>, prefix: Seq<char>, n: int) -> Seq<ItemView>
    decreases n,
{
    if n <= 0 {
        Seq::empty()
    } else {
        let before = section(values, prefix, n - 1);
        if text::opens(registry::registry_entries()[n - 1].key@, prefix) {
            before.push(ItemView::Control(n - 1, values[n - 1]))
        } else {
            before
        }
    }
}

/// The controls of every registry entry whose key opens with `prefix`.
pub open spec fn whole_section(values: Seq<Single>, prefix: Seq<char>) -> Seq<ItemView> {
    section(values, prefix, registry::registry_entries().len() as int)
}

/// The control of one registry entry.
pub open spec fn single(values: Seq<Single>, key: Seq<char>) -> Seq<ItemView> {
    if registry::known(key) {
        let i = registry::place_of(key);
        seq![ItemView::Control(i, values[i])]
    } else {
        Seq::empty()
    }
}

/// A name, or what stands for none.
pub open spec fn name_or(name: Option<Seq<char>>, none: Seq<char>) -> Seq<char> {
    match name {
        Some(n) => n,
        None => none,
    }
}

/// The main part of the screen from top to bottom. The control for independent channels is there
/// only where it has something to do.
pub open spec fn main_items(
    values: Seq<Single>,
    input: MeterReading,
    output: MeterReading,
    model: Option<Seq<char>>,
    ir: Option<Seq<char>>,
    independent_relevant: bool,
) -> Seq<ItemView> {
    seq![ItemView::Meter("Input"@, input), ItemView::Heading("Input Trim"@)] + whole_section(
        values,
        "trim."@,
    ) + seq![ItemView::Heading("Gate"@)] + whole_section(values, "gate."@) + seq![
        ItemView::Heading("Model"@),
        ItemView::Label(name_or(model, "(no model loaded)"@)),
        ItemView::Heading("NAM"@),
    ] + whole_section(values, "nam."@) + seq![
        ItemView::Heading("Impulse Response"@),
        ItemView::Label(name_or(ir, "(no IR loaded)"@)),
    ] + whole_section(values, "ir."@) + seq![ItemView::Heading("EQ"@)] + whole_section(
        values,
        "eq."@,
    ) + seq![ItemView::Meter("Output"@, output)] + whole_section(values, "out."@) + single(
        values,
        "global.output_ceiling_db"@,
    ) + seq![ItemView::Separator] + single(values, "global.bypass"@) + (if independent_relevant {
        single(values, "global.independent_channels"@)
    } else {
        Seq::empty()
    })
}

/// The main part of the screen, drawn from a snapshot.
pub open spec fn screen_of(snapshot: UiSnapshot) -> Seq<ItemView> {
    main_items(
        snapshot.params.values@,
        snapshot.input_meter,
        snapshot.output_meter,
        ui_host::text_view(snapshot.loaded_model_name),
        ui_host::text_view(snapshot.loaded_ir_name),
        snapshot.independent_channels_relevant,
    )
}

fn put(items: &mut Vec<ScreenItem>, item: ScreenItem)
    ensures
        items_view(final(items)@) == items_view(old(items)@) + seq![item@],
{
    items.push(item);
    proof {
        assert(items_view(items@) =~= items_view(old(items)@) + seq![item@]);
    }
}

fn put_section(items: &mut Vec<ScreenItem>, params: &ParamValues, prefix: &str)
    requires
        params.wf(),
    ensures
        items_view(final(items)@) == items_view(old(items)@) + whole_section(
            params.values@,
            prefix@,
        ),
{
    let entries: Vec<ParamDescriptor> = registry::registry();
    let ghost start = items_view(items@);
    let mut i: usize = 0;
    proof {
        assert(start + section(params.values@, prefix@, 0) =~= start);
    }
    while i < entries.len()
        invariant
            params.wf(),
            entries@ == registry::registry_entries(),
            i <= entries@.len(),
            items_view(items@) == start + section(params.values@, prefix@, i as int),
        decreases entries@.len() - i,
    {
        if text::starts_with(entries[i].key, prefix) {
            put(items, ScreenItem::Control { entry: i, value: params.values[i] });
            proof {
                assert(start + section(params.values@, prefix@, i as int) + seq![
                    ItemView::Control(i as int, params.values@[i as int]),
                ] =~= start + section(params.values@, prefix@, i + 1));
            }
        }
        i += 1;
    }
}

fn put_single(items: &mut Vec<ScreenItem>, params: &ParamValues, key: &str)
    requires
        params.wf(),
    ensures
        items_view(final(items)@) == items_view(old(items)@) + single(params.values@, key@),
{
    match registry::position(key) {
        Some(i) => {
            put(items, ScreenItem::Control { entry: i, value: params.values[i] });
        },
        None => {
            proof {
                assert(items_view(items@) + single(params.values@, key@) =~= items_view(items@));
            }
        },
    }
}

fn label_of(name: &Option<String>, none: &str) -> (s: String)
    ensures
        s@ == name_or(ui_host::text_view(*name), none@),
{
    match name {
        Some(n) => n.clone(),
        None => none.to_owned(),
    }
}

/// The main part of the screen from top to bottom.
pub fn screen_items(snapshot: &UiSnapshot) -> (items: Vec<ScreenItem>)
    requires
        snapshot.params.wf(),
    ensures
        items_view(items@) == screen_of(*snapshot),
{
    let mut items: Vec<ScreenItem> = Vec::new();
    let params: &ParamValues = &snapshot.params;
    let ghost values = params.values@;
    put(&mut items, ScreenItem::Meter { title: "Input", reading: snapshot.input_meter });
    put(&mut items, ScreenItem::Heading("Input Trim"));
    proof {
        assert(items_view(items@) =~= seq![
            ItemView::Meter("Input"@, snapshot.input_meter),
            ItemView::Heading("Input Trim"@),
        ]);
    }
    put_section(&mut items, params, "trim.");
    put(&mut items, ScreenItem::Heading("Gate"));
    put_section(&mut items, params, "gate.");
    let ghost so_far = items_view(items@);
    put(&mut items, ScreenItem::Heading("Model"));
    put(
        &mut items,
        ScreenItem::Label(label_of(&snapshot.loaded_model_name, "(no model loaded)")),
    );
    put(&mut items, ScreenItem::Heading("NAM"));
    proof {
        assert(items_view(items@) =~= so_far + seq![
            ItemView::Heading("Model"@),
            ItemView::Label(
                name_or(ui_host::text_view(snapshot.loaded_model_name), "(no model loaded)"@),
            ),
            ItemView::Heading("NAM"@),
        ]);
    }
    put_section(&mut items, params, "nam.");
    let ghost so_far = items_view(items@);
    put(&mut items, ScreenItem::Heading("Impulse Response"));
    put(&mut items, ScreenItem::Label(label_of(&snapshot.loaded_ir_name, "(no IR loaded)")));
    proof {
        assert(items_view(items@) =~= so_far + seq![
            ItemView::Heading("Impulse Response"@),
            ItemView::Label(
                name_or(ui_host::text_view(snapshot.loaded_ir_name), "(no IR loaded)"@),
            ),
        ]);
    }
    put_section(&mut items, params, "ir.");
    put(&mut items, ScreenItem::Heading("EQ"));
    put_section(&mut items, params, "eq.");
    put(&mut items, ScreenItem::Meter { title: "Output", reading: snapshot.output_meter });
    put_section(&mut items, params, "out.");
    put_single(&mut items, params, "global.output_ceiling_db");
    put(&mut items, ScreenItem::Separator);
    put_single(&mut items, params, "global.bypass");
    if snapshot.independent_channels_relevant {
        put_single(&mut items, params, "global.independent_channels");
    } else {
        proof {
            assert(items_view(items@) + Seq::empty() =~= items_view(items@));
        }
    }
    items
}

/// The settings at which an entry's control is on the screen, in order.
pub open spec fn settings_shown(items: Seq<ItemView>, entry: int) -> Seq<Single>
    decreases items.len(),
{
    if items.len() == 0 {
        Seq::empty()
    } else {
        let before = settings_shown(items.drop_last(), entry);
        match items.last() {
            ItemView::Control(e, value) => if e == entry {
                before.push(value)
            } else {
                before
            },
            _ => before,
        }
    }
}

/// The headings on the screen, in order.
pub open spec fn headings_shown(items: Seq<ItemView>) -> Seq<Seq<char>>
    decreases items.len(),
{
    if items.len() == 0 {
        Seq::empty()
    } else {
        let before = headings_shown(items.drop_last());
        match items.last() {
            ItemView::Heading(title) => before.push(title),
            _ => before,
        }
    }
}

proof fn lemma_shown_one_after_the_other(a: Seq<ItemView>, b: Seq<ItemView>, entry: int)
    ensures
        settings_shown(a + b, entry) == settings_shown(a, entry) + settings_shown(b, entry),
        headings_shown(a + b) == headings_shown(a) + headings_shown(b),
    decreases b.len(),
{
    if b.len() == 0 {
        assert(a + b =~= a);
    } else {
        assert((a + b).drop_last() =~= a + b.drop_last());
        assert((a + b).last() == b.last());
        lemma_shown_one_after_the_other(a, b.drop_last(), entry);
        assert(settings_shown(a + b, entry) =~= settings_shown(a, entry) + settings_shown(b, entry));
        assert(headings_shown(a + b) =~= headings_shown(a) + headings_shown(b));
    }
}

proof fn lemma_shown_of_one(item: ItemView, entry: int)
    ensures
        settings_shown(seq![item], entry) == (match item {
            ItemView::Control(e, value) => if e == entry {
                seq![value]
            } else {
                Seq::empty()
            },
            _ => Seq::empty(),
        }),
        headings_shown(seq![item]) == (match item {
            ItemView::Heading(title) => seq![title],
            _ => Seq::empty(),
        }),
{
    assert(seq![item].drop_last() =~= Seq::<ItemView>::empty());
    assert(settings_shown(seq![item].drop_last(), entry) == Seq::<Single>::empty());
    assert(headings_shown(seq![item].drop_last()) == Seq::<Seq<char>>::empty());
    assert(Seq::<Single>::empty().push(seq![item].last()->Control_1) =~= seq![
        seq![item].last()->Control_1,
    ]);
    assert(Seq::<Seq<char>>::empty().push(seq![item].last()->Heading_0) =~= seq![
        seq![item].last()->Heading_0,
    ]);
}

proof fn lemma_shown_of_a_section(values: Seq<Single>, prefix: Seq<char>, n: int, entry: int)
    requires
        0 <= n <= registry::registry_entries().len(),
    ensures
        settings_shown(section(values, prefix, n), entry) == (if 0 <= entry < n && text::opens(
            registry::registry_entries()[entry].key@,
            prefix,
        ) {
            seq![values[entry]]
        } else {
            Seq::empty()
        }),
        headings_shown(section(values, prefix, n)) == Seq::<Seq<char>>::empty(),
    decreases n,
{
    if n > 0 {
        lemma_shown_of_a_section(values, prefix, n - 1, entry);
        let before = section(values, prefix, n - 1);
        if text::opens(registry::registry_entries()[n - 1].key@, prefix) {
            assert(section(values, prefix, n).drop_last() =~= before);
            assert(settings_shown(before, entry).push(values[n - 1]) =~= settings_shown(
                before,
                entry,
            ) + seq![values[n - 1]]);
            if entry == n - 1 {
                assert(settings_shown(before, entry) + seq![values[n - 1]] =~= seq![values[n - 1]]);
            }
        }
    }
}

/// Everything on the screen but the controls, in order.
pub open spec fn outline(items: Seq<ItemView>) -> Seq<ItemView>
    decreases items.len(),
{
    if items.len() == 0 {
        Seq::empty()
    } else {
        let before = outline(items.drop_last());
        if items.last() is Control {
            before
        } else {
            before.push(items.last())
        }
    }
}

/// For every control of an entry, what it stands below: the last thing above it that is no control.
pub open spec fn stands_below(items: Seq<ItemView>, entry: int) -> Seq<ItemView>
    decreases items.len(),
{
    if items.len() == 0 {
        Seq::empty()
    } else {
        let before = stands_below(items.drop_last(), entry);
        match items.last() {
            ItemView::Control(e, _) => if e == entry {
                before.push(outline(items.drop_last()).last())
            } else {
                before
            },
            _ => before,
        }
    }
}

/// One more thing that is no control.
proof fn lemma_outline_grows(items: Seq<ItemView>, item: ItemView, entry: int)
    requires
        item !is Control,
    ensures
        outline(items + seq![item]) == outline(items).push(item),
        stands_below(items + seq![item], entry) == stands_below(items, entry),
{
    assert((items + seq![item]).drop_last() =~= items);
    assert((items + seq![item]).last() == item);
}

/// One more control.
proof fn lemma_control_stands_below(items: Seq<ItemView>, at: int, value: Single, entry: int)
    ensures
        outline(items + seq![ItemView::Control(at, value)]) == outline(items),
        stands_below(items + seq![ItemView::Control(at, value)], entry) == (if at == entry {
            stands_below(items, entry).push(outline(items).last())
        } else {
            stands_below(items, entry)
        }),
{
    let item = ItemView::Control(at, value);
    assert((items + seq![item]).drop_last() =~= items);
    assert((items + seq![item]).last() == item);
}

/// A whole section stands below what came last before it.
proof fn lemma_section_stands_below(
    items: Seq<ItemView>,
    values: Seq<Single>,
    prefix: Seq<char>,
    n: int,
    entry: int,
)
    requires
        0 <= n <= registry::registry_entries().len(),
    ensures
        outline(items + section(values, prefix, n)) == outline(items),
        stands_below(items + section(values, prefix, n), entry) == (if 0 <= entry < n
            && text::opens(registry::registry_entries()[entry].key@, prefix) {
            stands_below(items, entry).push(outline(items).last())
        } else {
            stands_below(items, entry)
        }),
    decreases n,
{
    if n <= 0 {
        assert(items + section(values, prefix, n) =~= items);
    } else {
        lemma_section_stands_below(items, values, prefix, n - 1, entry);
        let before = section(values, prefix, n - 1);
        if text::opens(registry::registry_entries()[n - 1].key@, prefix) {
            let control = ItemView::Control(n - 1, values[n - 1]);
            lemma_control_stands_below(items + before, n - 1, values[n - 1], entry);
            assert(items + section(values, prefix, n) =~= items + before + seq![control]);
        }
    }
}

/// Two texts that open alike agree on their first two characters.
proof fn lemma_openings_agree(key: Seq<char>, prefix: Seq<char>)
    requires
        text::opens(key, prefix),
        prefix.len() >= 2,
    ensures
        key.len() >= 2,
        key[0] == prefix[0],
        key[1] == prefix[1],
{
    assert(key.take(prefix.len() as int)[0] == key[0]);
    assert(key.take(prefix.len() as int)[1] == key[1]);
}

/// Whether the control of an entry is on the screen.
pub open spec fn has_a_control(entry: int, independent_relevant: bool) -> bool {
    independent_relevant || registry::registry_entries()[entry].key@
        != "global.independent_channels"@
}

/// A key that belongs to one of the six sections.
pub open spec fn of_a_section(key: Seq<char>) -> bool {
    ||| text::opens(key, "trim."@)
    ||| text::opens(key, "gate."@)
    ||| text::opens(key, "nam."@)
    ||| text::opens(key, "ir."@)
    ||| text::opens(key, "eq."@)
    ||| text::opens(key, "out."@)
}

proof fn lemma_a_stage_key_opens_like_its_section(i: int)
    requires
        0 <= i < 29,
    ensures
        registry::registry_entries().len() == 32,
        of_a_section(registry::registry_entries()[i].key@),
{
    reveal(registry::registry_entries);
    reveal_strlit("trim.");
    reveal_strlit("gate.");
    reveal_strlit("nam.");
    reveal_strlit("ir.");
    reveal_strlit("eq.");
    reveal_strlit("out.");
    if i == 0 {
        reveal_strlit("trim.gain_db");
        assert("trim.gain_db"@.take(5) =~= "trim."@);
    }
    if i == 1 {
        reveal_strlit("trim.dc_blocker_enabled");
        assert("trim.dc_blocker_enabled"@.take(5) =~= "trim."@);
    }
    if i == 2 {
        reveal_strlit("gate.enabled");
        assert("gate.enabled"@.take(5) =~= "gate."@);
    }
    if i == 3 {
        reveal_strlit("gate.threshold_db");
        assert("gate.threshold_db"@.take(5) =~= "gate."@);
    }
    if i == 4 {
        reveal_strlit("gate.attack_ms");
        assert("gate.attack_ms"@.take(5) =~= "gate."@);
    }
    if i == 5 {
        reveal_strlit("gate.hold_ms");
        assert("gate.hold_ms"@.take(5) =~= "gate."@);
    }
    if i == 6 {
        reveal_strlit("gate.release_ms");
        assert("gate.release_ms"@.take(5) =~= "gate."@);
    }
    if i == 7 {
        reveal_strlit("nam.enabled");
        assert("nam.enabled"@.take(4) =~= "nam."@);
    }
    if i == 8 {
        reveal_strlit("nam.normalize_enabled");
        assert("nam.normalize_enabled"@.take(4) =~= "nam."@);
    }
    if i == 9 {
        reveal_strlit("nam.normalize_offset_db");
        assert("nam.normalize_offset_db"@.take(4) =~= "nam."@);
    }
    if i == 10 {
        reveal_strlit("ir.enabled");
        assert("ir.enabled"@.take(3) =~= "ir."@);
    }
    if i == 11 {
        reveal_strlit("ir.level_db");
        assert("ir.level_db"@.take(3) =~= "ir."@);
    }
    if i == 12 {
        reveal_strlit("ir.low_cut_enabled");
        assert("ir.low_cut_enabled"@.take(3) =~= "ir."@);
    }
    if i == 13 {
        reveal_strlit("ir.low_cut_freq_hz");
        assert("ir.low_cut_freq_hz"@.take(3) =~= "ir."@);
    }
    if i == 14 {
        reveal_strlit("ir.high_cut_enabled");
        assert("ir.high_cut_enabled"@.take(3) =~= "ir."@);
    }
    if i == 15 {
        reveal_strlit("ir.high_cut_freq_hz");
        assert("ir.high_cut_freq_hz"@.take(3) =~= "ir."@);
    }
    if i == 16 {
        reveal_strlit("eq.enabled");
        assert("eq.enabled"@.take(3) =~= "eq."@);
    }
    if i == 17 {
        reveal_strlit("eq.low_shelf_freq_hz");
        assert("eq.low_shelf_freq_hz"@.take(3) =~= "eq."@);
    }
    if i == 18 {
        reveal_strlit("eq.low_shelf_gain_db");
        assert("eq.low_shelf_gain_db"@.take(3) =~= "eq."@);
    }
    if i == 19 {
        reveal_strlit("eq.mid_freq_hz");
        assert("eq.mid_freq_hz"@.take(3) =~= "eq."@);
    }
    if i == 20 {
        reveal_strlit("eq.mid_gain_db");
        assert("eq.mid_gain_db"@.take(3) =~= "eq."@);
    }
    if i == 21 {
        reveal_strlit("eq.mid_q");
        assert("eq.mid_q"@.take(3) =~= "eq."@);
    }
    if i == 22 {
        reveal_strlit("eq.high_shelf_freq_hz");
        assert("eq.high_shelf_freq_hz"@.take(3) =~= "eq."@);
    }
    if i == 23 {
        reveal_strlit("eq.high_shelf_gain_db");
        assert("eq.high_shelf_gain_db"@.take(3) =~= "eq."@);
    }
    if i == 24 {
        reveal_strlit("eq.high_pass_enabled");
        assert("eq.high_pass_enabled"@.take(3) =~= "eq."@);
    }
    if i == 25 {
        reveal_strlit("eq.high_pass_freq_hz");
        assert("eq.high_pass_freq_hz"@.take(3) =~= "eq."@);
    }
    if i == 26 {
        reveal_strlit("eq.low_pass_enabled");
        assert("eq.low_pass_enabled"@.take(3) =~= "eq."@);
    }
    if i == 27 {
        reveal_strlit("eq.low_pass_freq_hz");
        assert("eq.low_pass_freq_hz"@.take(3) =~= "eq."@);
    }
    if i == 28 {
        reveal_strlit("out.gain_db");
        assert("out.gain_db"@.take(4) =~= "out."@);
    }
}

/// Every parameter has its place on the screen: in the section its key opens with, or as one of the
/// three that concern the whole chain.
pub proof fn lemma_every_entry_has_a_place_on_the_screen(i: int)
    requires
        0 <= i < registry::registry_entries().len(),
    ensures
        ({
            let key = registry::registry_entries()[i].key@;
            ||| of_a_section(key)
            ||| key == "global.bypass"@
            ||| key == "global.output_ceiling_db"@
            ||| key == "global.independent_channels"@
        }),
{
    reveal(registry::registry_entries);
    if i < 29 {
        lemma_a_stage_key_opens_like_its_section(i);
    }
}

/// The six sections have no key in common, and none with the parameters of the whole chain.
proof fn lemma_sections_do_not_overlap(key: Seq<char>)
    ensures
        text::opens(key, "trim."@) ==> key.len() >= 2 && key[0] == 't' && key[1] == 'r',
        text::opens(key, "gate."@) ==> key.len() >= 2 && key[0] == 'g' && key[1] == 'a',
        text::opens(key, "nam."@) ==> key.len() >= 2 && key[0] == 'n' && key[1] == 'a',
        text::opens(key, "ir."@) ==> key.len() >= 2 && key[0] == 'i' && key[1] == 'r',
        text::opens(key, "eq."@) ==> key.len() >= 2 && key[0] == 'e' && key[1] == 'q',
        text::opens(key, "out."@) ==> key.len() >= 2 && key[0] == 'o' && key[1] == 'u',
        "global.bypass"@[1] == 'l',
        "global.output_ceiling_db"@[1] == 'l',
        "global.independent_channels"@[1] == 'l',
{
    reveal_strlit("trim.");
    reveal_strlit("gate.");
    reveal_strlit("nam.");
    reveal_strlit("ir.");
    reveal_strlit("eq.");
    reveal_strlit("out.");
    reveal_strlit("global.bypass");
    reveal_strlit("global.output_ceiling_db");
    reveal_strlit("global.independent_channels");
    if text::opens(key, "trim."@) {
        lemma_openings_agree(key, "trim."@);
    }
    if text::opens(key, "gate."@) {
        lemma_openings_agree(key, "gate."@);
    }
    if text::opens(key, "nam."@) {
        lemma_openings_agree(key, "nam."@);
    }
    if text::opens(key, "ir."@) {
        lemma_openings_agree(key, "ir."@);
    }
    if text::opens(key, "eq."@) {
        lemma_openings_agree(key, "eq."@);
    }
    if text::opens(key, "out."@) {
        lemma_openings_agree(key, "out."@);
    }
}

/// Only the three parameters that concern the whole chain have keys that open with `gl`, and each
/// of the three is the only one with its key.
proof fn lemma_the_singles_stand_alone(i: int)
    requires
        0 <= i < registry::registry_entries().len(),
    ensures
        ({
            let key = registry::registry_entries()[i].key@;
            &&& key == "global.bypass"@ <==> i == 29
            &&& key == "global.output_ceiling_db"@ <==> i == 30
            &&& key == "global.independent_channels"@ <==> i == 31
        }),
{
    reveal(registry::registry_entries);
    reveal_strlit("global.bypass");
    reveal_strlit("global.output_ceiling_db");
    reveal_strlit("global.independent_channels");
    if i == 29 {
        assert("global.bypass"@.len() != "global.output_ceiling_db"@.len());
        assert("global.bypass"@.len() != "global.independent_channels"@.len());
    } else if i == 30 {
        assert("global.bypass"@.len() != "global.output_ceiling_db"@.len());
        assert("global.independent_channels"@.len() != "global.output_ceiling_db"@.len());
    } else if i == 31 {
        assert("global.bypass"@.len() != "global.independent_channels"@.len());
        assert("global.independent_channels"@.len() != "global.output_ceiling_db"@.len());
    } else {
        lemma_a_stage_key_opens_like_its_section(i);
        lemma_sections_do_not_overlap(registry::registry_entries()[i].key@);
    }
}

proof fn lemma_shown_of_a_single(values: Seq<Single>, key: Seq<char>, place: int, entry: int)
    requires
        registry::keyed(key, place),
        forall|i: int| #[trigger] registry::keyed(key, i) ==> i == place,
    ensures
        settings_shown(single(values, key), entry) == (if entry == place {
            seq![values[place]]
        } else {
            Seq::empty()
        }),
        headings_shown(single(values, key)) == Seq::<Seq<char>>::empty(),
{
    registry::lemma_a_known_key_has_a_first_place(key, place);
    lemma_shown_of_one(ItemView::Control(place, values[place]), entry);
}

/// Every parameter has exactly one control on the screen, at its own value, but that the one for
/// independent channels is left out where it has nothing to do; and every heading stands there
/// once, in this order.
pub proof fn lemma_every_control_is_on_the_screen_once(
    values: Seq<Single>,
    input: MeterReading,
    output: MeterReading,
    model: Option<Seq<char>>,
    ir: Option<Seq<char>>,
    independent_relevant: bool,
    entry: int,
)
    requires
        0 <= entry < registry::registry_entries().len(),
    ensures
        ({
            let items = main_items(values, input, output, model, ir, independent_relevant);
            &&& settings_shown(items, entry) == (if has_a_control(entry, independent_relevant) {
                seq![values[entry]]
            } else {
                Seq::empty()
            })
            &&& headings_shown(items) == seq![
                "Input Trim"@,
                "Gate"@,
                "Model"@,
                "NAM"@,
                "Impulse Response"@,
                "EQ"@,
            ]
        }),
{
    let n = registry::registry_entries().len() as int;
    let key = registry::registry_entries()[entry].key@;
    lemma_every_entry_has_a_place_on_the_screen(entry);
    lemma_sections_do_not_overlap(key);
    assert forall|i: int| 0 <= i < n implies ({
        let k = (#[trigger] registry::registry_entries()[i]).key@;
        &&& k == "global.bypass"@ <==> i == 29
        &&& k == "global.output_ceiling_db"@ <==> i == 30
        &&& k == "global.independent_channels"@ <==> i == 31
    }) by {
        lemma_the_singles_stand_alone(i);
    }
    lemma_a_stage_key_opens_like_its_section(0);
    let ceiling = single(values, "global.output_ceiling_db"@);
    let bypass = single(values, "global.bypass"@);
    let independent = single(values, "global.independent_channels"@);
    lemma_shown_of_a_single(values, "global.output_ceiling_db"@, 30, entry);
    lemma_shown_of_a_single(values, "global.bypass"@, 29, entry);
    lemma_shown_of_a_single(values, "global.independent_channels"@, 31, entry);
    lemma_shown_of_a_section(values, "trim."@, n, entry);
    lemma_shown_of_a_section(values, "gate."@, n, entry);
    lemma_shown_of_a_section(values, "nam."@, n, entry);
    lemma_shown_of_a_section(values, "ir."@, n, entry);
    lemma_shown_of_a_section(values, "eq."@, n, entry);
    lemma_shown_of_a_section(values, "out."@, n, entry);
    let input_meter = ItemView::Meter("Input"@, input);
    let output_meter = ItemView::Meter("Output"@, output);
    let model_label = ItemView::Label(name_or(model, "(no model loaded)"@));
    let ir_label = ItemView::Label(name_or(ir, "(no IR loaded)"@));
    let trim_heading = ItemView::Heading("Input Trim"@);
    let gate_heading = ItemView::Heading("Gate"@);
    let model_heading = ItemView::Heading("Model"@);
    let nam_heading = ItemView::Heading("NAM"@);
    let ir_heading = ItemView::Heading("Impulse Response"@);
    let eq_heading = ItemView::Heading("EQ"@);
    lemma_shown_of_one(input_meter, entry);
    lemma_shown_of_one(output_meter, entry);
    lemma_shown_of_one(model_label, entry);
    lemma_shown_of_one(ir_label, entry);
    lemma_shown_of_one(trim_heading, entry);
    lemma_shown_of_one(gate_heading, entry);
    lemma_shown_of_one(model_heading, entry);
    lemma_shown_of_one(nam_heading, entry);
    lemma_shown_of_one(ir_heading, entry);
    lemma_shown_of_one(eq_heading, entry);
    lemma_shown_of_one(ItemView::Separator, entry);
    lemma_shown_one_after_the_other(seq![input_meter], seq![trim_heading], entry);
    assert(seq![input_meter, trim_heading] =~= seq![input_meter] + seq![trim_heading]);
    lemma_shown_one_after_the_other(seq![model_heading], seq![model_label], entry);
    lemma_shown_one_after_the_other(
        seq![model_heading] + seq![model_label],
        seq![nam_heading],
        entry,
    );
    assert(seq![model_heading, model_label, nam_heading] =~= seq![model_heading] + seq![
        model_label,
    ] + seq![nam_heading]);
    lemma_shown_one_after_the_other(seq![ir_heading], seq![ir_label], entry);
    assert(seq![ir_heading, ir_label] =~= seq![ir_heading] + seq![ir_label]);
    let a0 = seq![input_meter, trim_heading];
    let a1 = a0 + whole_section(values, "trim."@);
    let a2 = a1 + seq![gate_heading];
    let a3 = a2 + whole_section(values, "gate."@);
    let a4 = a3 + seq![model_heading, model_label, nam_heading];
    let a5 = a4 + whole_section(values, "nam."@);
    let a6 = a5 + seq![ir_heading, ir_label];
    let a7 = a6 + whole_section(values, "ir."@);
    let a8 = a7 + seq![eq_heading];
    let a9 = a8 + whole_section(values, "eq."@);
    let a10 = a9 + seq![output_meter];
    let a11 = a10 + whole_section(values, "out."@);
    let a12 = a11 + ceiling;
    let a13 = a12 + seq![ItemView::Separator];
    let a14 = a13 + bypass;
    let last = if independent_relevant {
        independent
    } else {
        Seq::empty()
    };
    lemma_shown_one_after_the_other(a0, whole_section(values, "trim."@), entry);
    lemma_shown_one_after_the_other(a1, seq![gate_heading], entry);
    lemma_shown_one_after_the_other(a2, whole_section(values, "gate."@), entry);
    lemma_shown_one_after_the_other(
        a3,
        seq![model_heading, model_label, nam_heading],
        entry,
    );
    lemma_shown_one_after_the_other(a4, whole_section(values, "nam."@), entry);
    lemma_shown_one_after_the_other(a5, seq![ir_heading, ir_label], entry);
    lemma_shown_one_after_the_other(a6, whole_section(values, "ir."@), entry);
    lemma_shown_one_after_the_other(a7, seq![eq_heading], entry);
    lemma_shown_one_after_the_other(a8, whole_section(values, "eq."@), entry);
    lemma_shown_one_after_the_other(a9, seq![output_meter], entry);
    lemma_shown_one_after_the_other(a10, whole_section(values, "out."@), entry);
    lemma_shown_one_after_the_other(a11, ceiling, entry);
    lemma_shown_one_after_the_other(a12, seq![ItemView::Separator], entry);
    lemma_shown_one_after_the_other(a13, bypass, entry);
    lemma_shown_one_after_the_other(a14, last, entry);
    assert(main_items(values, input, output, model, ir, independent_relevant) == a14 + last);
    assert(headings_shown(a14 + last) =~= seq![
        "Input Trim"@,
        "Gate"@,
        "Model"@,
        "NAM"@,
        "Impulse Response"@,
        "EQ"@,
    ]);
    if has_a_control(entry, independent_relevant) {
        assert(settings_shown(a14 + last, entry) =~= seq![values[entry]]);
    } else {
        assert(settings_shown(a14 + last, entry) =~= Seq::<Single>::empty());
    }
}

/// From top to bottom, between the controls: the input meter with the reading of the input, the
/// name of the model below the heading for the model, the name of the impulse response below the
/// heading for the impulse response, and the output meter with the reading of the output. There is
/// no third meter and no third label, and what stands for a name that is not there says which one
/// is missing.
pub proof fn lemma_meters_and_names_are_where_they_belong(
    values: Seq<Single>,
    input: MeterReading,
    output: MeterReading,
    model: Option<Seq<char>>,
    ir: Option<Seq<char>>,
    independent_relevant: bool,
)
    ensures
        outline(main_items(values, input, output, model, ir, independent_relevant)) == seq![
            ItemView::Meter("Input"@, input),
            ItemView::Heading("Input Trim"@),
            ItemView::Heading("Gate"@),
            ItemView::Heading("Model"@),
            ItemView::Label(
                if model is Some {
                    model->0
                } else {
                    "(no model loaded)"@
                },
            ),
            ItemView::Heading("NAM"@),
            ItemView::Heading("Impulse Response"@),
            ItemView::Label(
                if ir is Some {
                    ir->0
                } else {
                    "(no IR loaded)"@
                },
            ),
            ItemView::Heading("EQ"@),
            ItemView::Meter("Output"@, output),
            ItemView::Separator,
        ],
{
    lemma_the_screen_in_outline(values, input, output, model, ir, independent_relevant, 0);
}

/// A control stands below the heading of the stage that its key names; those of the output stage
/// and the ceiling stand below the output meter, and those of the whole chain at the bottom.
pub proof fn lemma_a_control_stands_with_its_stage(
    values: Seq<Single>,
    input: MeterReading,
    output: MeterReading,
    model: Option<Seq<char>>,
    ir: Option<Seq<char>>,
    independent_relevant: bool,
    entry: int,
)
    requires
        0 <= entry < registry::registry_entries().len(),
    ensures
        ({
            let key = registry::registry_entries()[entry].key@;
            let below = stands_below(
                main_items(values, input, output, model, ir, independent_relevant),
                entry,
            );
            &&& text::opens(key, "trim."@) ==> below == seq![ItemView::Heading("Input Trim"@)]
            &&& text::opens(key, "gate."@) ==> below == seq![ItemView::Heading("Gate"@)]
            &&& text::opens(key, "nam."@) ==> below == seq![ItemView::Heading("NAM"@)]
            &&& text::opens(key, "ir."@) ==> below.len() == 1 && below[0] is Label
            &&& text::opens(key, "eq."@) ==> below == seq![ItemView::Heading("EQ"@)]
            &&& text::opens(key, "out."@) ==> below == seq![ItemView::Meter("Output"@, output)]
            &&& key == "global.output_ceiling_db"@ ==> below == seq![
                ItemView::Meter("Output"@, output),
            ]
            &&& key == "global.bypass"@ ==> below == seq![ItemView::Separator]
            &&& key == "global.independent_channels"@ && independent_relevant ==> below == seq![
                ItemView::Separator,
            ]
        }),
{
    lemma_the_screen_in_outline(values, input, output, model, ir, independent_relevant, entry);
}

/// The outline, and what the controls of an entry stand below, built up from top to bottom.
proof fn lemma_the_screen_in_outline(
    values: Seq<Single>,
    input: MeterReading,
    output: MeterReading,
    model: Option<Seq<char>>,
    ir: Option<Seq<char>>,
    independent_relevant: bool,
    entry: int,
)
    ensures
        ({
            let items = main_items(values, input, output, model, ir, independent_relevant);
            let inside = 0 <= entry < registry::registry_entries().len();
            let key = registry::registry_entries()[entry].key@;
            let below = stands_below(items, entry);
            &&& outline(items) == seq![
                ItemView::Meter("Input"@, input),
                ItemView::Heading("Input Trim"@),
                ItemView::Heading("Gate"@),
                ItemView::Heading("Model"@),
                ItemView::Label(name_or(model, "(no model loaded)"@)),
                ItemView::Heading("NAM"@),
                ItemView::Heading("Impulse Response"@),
                ItemView::Label(name_or(ir, "(no IR loaded)"@)),
                ItemView::Heading("EQ"@),
                ItemView::Meter("Output"@, output),
                ItemView::Separator,
            ]
            &&& inside && text::opens(key, "trim."@) ==> below == seq![
                ItemView::Heading("Input Trim"@),
            ]
            &&& inside && text::opens(key, "gate."@) ==> below == seq![ItemView::Heading("Gate"@)]
            &&& inside && text::opens(key, "nam."@) ==> below == seq![ItemView::Heading("NAM"@)]
            &&& inside && text::opens(key, "ir."@) ==> below == seq![
                ItemView::Label(name_or(ir, "(no IR loaded)"@)),
            ]
            &&& inside && text::opens(key, "eq."@) ==> below == seq![ItemView::Heading("EQ"@)]
            &&& inside && text::opens(key, "out."@) ==> below == seq![
                ItemView::Meter("Output"@, output),
            ]
            &&& inside && key == "global.output_ceiling_db"@ ==> below == seq![
                ItemView::Meter("Output"@, output),
            ]
            &&& inside && key == "global.bypass"@ ==> below == seq![ItemView::Separator]
            &&& inside && key == "global.independent_channels"@ && independent_relevant ==> below
                == seq![ItemView::Separator]
        }),
{
    let n = registry::registry_entries().len() as int;
    lemma_a_stage_key_opens_like_its_section(0);
    lemma_the_single_has_its_place("global.bypass"@, 29);
    lemma_the_single_has_its_place("global.output_ceiling_db"@, 30);
    lemma_the_single_has_its_place("global.independent_channels"@, 31);
    if 0 <= entry < n {
        lemma_sections_do_not_overlap(registry::registry_entries()[entry].key@);
        lemma_the_singles_stand_alone(entry);
    }
    let input_meter = ItemView::Meter("Input"@, input);
    let output_meter = ItemView::Meter("Output"@, output);
    let model_label = ItemView::Label(name_or(model, "(no model loaded)"@));
    let ir_label = ItemView::Label(name_or(ir, "(no IR loaded)"@));
    let none = Seq::<ItemView>::empty();
    let a0 = none + seq![input_meter];
    let a1 = a0 + seq![ItemView::Heading("Input Trim"@)];
    let a2 = a1 + whole_section(values, "trim."@);
    let a3 = a2 + seq![ItemView::Heading("Gate"@)];
    let a4 = a3 + whole_section(values, "gate."@);
    let a5 = a4 + seq![ItemView::Heading("Model"@)];
    let a6 = a5 + seq![model_label];
    let a7 = a6 + seq![ItemView::Heading("NAM"@)];
    let a8 = a7 + whole_section(values, "nam."@);
    let a9 = a8 + seq![ItemView::Heading("Impulse Response"@)];
    let a10 = a9 + seq![ir_label];
    let a11 = a10 + whole_section(values, "ir."@);
    let a12 = a11 + seq![ItemView::Heading("EQ"@)];
    let a13 = a12 + whole_section(values, "eq."@);
    let a14 = a13 + seq![output_meter];
    let a15 = a14 + whole_section(values, "out."@);
    let a16 = a15 + seq![ItemView::Control(30, values[30])];
    let a17 = a16 + seq![ItemView::Separator];
    let a18 = a17 + seq![ItemView::Control(29, values[29])];
    let a19 = a18 + seq![ItemView::Control(31, values[31])];
    lemma_outline_grows(none, input_meter, entry);
    lemma_outline_grows(a0, ItemView::Heading("Input Trim"@), entry);
    lemma_section_stands_below(a1, values, "trim."@, n, entry);
    lemma_outline_grows(a2, ItemView::Heading("Gate"@), entry);
    lemma_section_stands_below(a3, values, "gate."@, n, entry);
    lemma_outline_grows(a4, ItemView::Heading("Model"@), entry);
    lemma_outline_grows(a5, model_label, entry);
    lemma_outline_grows(a6, ItemView::Heading("NAM"@), entry);
    lemma_section_stands_below(a7, values, "nam."@, n, entry);
    lemma_outline_grows(a8, ItemView::Heading("Impulse Response"@), entry);
    lemma_outline_grows(a9, ir_label, entry);
    lemma_section_stands_below(a10, values, "ir."@, n, entry);
    lemma_outline_grows(a11, ItemView::Heading("EQ"@), entry);
    lemma_section_stands_below(a12, values, "eq."@, n, entry);
    lemma_outline_grows(a13, output_meter, entry);
    lemma_section_stands_below(a14, values, "out."@, n, entry);
    lemma_control_stands_below(a15, 30, values[30], entry);
    lemma_outline_grows(a16, ItemView::Separator, entry);
    lemma_control_stands_below(a17, 29, values[29], entry);
    lemma_control_stands_below(a18, 31, values[31], entry);
    let items = main_items(values, input, output, model, ir, independent_relevant);
    assert(none + seq![input_meter] + seq![ItemView::Heading("Input Trim"@)] =~= seq![
        input_meter,
        ItemView::Heading("Input Trim"@),
    ]);
    assert(a7 =~= a4 + seq![ItemView::Heading("Model"@), model_label, ItemView::Heading("NAM"@)]);
    assert(a10 =~= a8 + seq![ItemView::Heading("Impulse Response"@), ir_label]);
    if independent_relevant {
        assert(items =~= a19);
    } else {
        assert(items =~= a18);
    }
    assert(outline(items) =~= seq![
        input_meter,
        ItemView::Heading("Input Trim"@),
        ItemView::Heading("Gate"@),
        ItemView::Heading("Model"@),
        model_label,
        ItemView::Heading("NAM"@),
        ItemView::Heading("Impulse Response"@),
        ir_label,
        ItemView::Heading("EQ"@),
        output_meter,
        ItemView::Separator,
    ]);
}

/// One of the three parameters that concern the whole chain is found at its place.
proof fn lemma_the_single_has_its_place(key: Seq<char>, place: int)
    requires
        key == "global.bypass"@ && place == 29 || key == "global.output_ceiling_db"@ && place == 30
            || key == "global.independent_channels"@ && place == 31,
    ensures
        registry::known(key),
        registry::place_of(key) == place,
{
    lemma_a_stage_key_opens_like_its_section(0);
    lemma_the_singles_stand_alone(place);
    assert(registry::keyed(key, place));
    assert forall|i: int| #[trigger] registry::keyed(key, i) implies i == place by {
        lemma_the_singles_stand_alone(i);
        lemma_the_singles_stand_alone(place);
    }
    registry::lemma_a_known_key_has_a_first_place(key, place);
}

/// What the row of preset controls offers this frame.
#[derive(Debug, Clone, Copy, PartialEq, Eq)]
pub struct PresetRow {
    pub save_enabled: bool,
    pub recall_enabled: bool,
    pub recall_text: &'static str,
}

/// A save is offered under any name that holds more than white space, a recall where a preset is
/// listed.
pub open spec fn row_offers(row: PresetRow, typed: Seq<char>, listed: nat) -> bool {
    &&& forall|name: Seq<char>| #[trigger]
        text::is_trimmed(typed, name) ==> row.save_enabled == (name.len() > 0)
    &&& row.recall_enabled == (listed > 0)
    &&& row.recall_text@ == if listed > 0 {
        "Recall preset"@
    } else {
        "No saved presets"@
    }
}

/// What the row of preset controls offers.
pub fn preset_row(preset_name: &str, presets: &Vec<PresetSummary>) -> (row: PresetRow)
    ensures
        row_offers(row, preset_name@, presets@.len()),
{
    let name: String = text::trimmed(preset_name);
    proof {
        assert forall|other: Seq<char>| #[trigger] text::is_trimmed(preset_name@, other) implies
            other == name@ by {
            text::lemma_trimming_is_unique(preset_name@, name@, other);
        }
    }
    PresetRow {
        save_enabled: name.as_str().unicode_len() > 0,
        recall_enabled: presets.len() > 0,
        recall_text: if presets.len() > 0 {
            "Recall preset"
        } else {
            "No saved presets"
        },
    }
}

/// What the row of preset controls asks for: a save under the name in the box, where it holds one
/// and the button was pressed or Enter was; and a recall of the preset that was picked.
pub open spec fn preset_asks(
    intents: Seq<UiIntent>,
    name: Seq<char>,
    save: bool,
    picked: Option<Seq<char>>,
) -> bool {
    let saves = save && name.len() > 0;
    &&& intents.len() == (if saves {
        1int
    } else {
        0
    }) + (if picked is Some {
        1int
    } else {
        0
    })
    &&& saves ==> (intents[0] matches UiIntent::SavePreset { name: n } && n@ == name)
    &&& picked matches Some(path) ==> (intents.last() matches UiIntent::RecallPreset { path: p }
        && p@ == path)
}

/// The path of the last preset that was clicked.
pub open spec fn last_clicked(
    presets: Seq<PresetSummary>,
    clicked: Seq<bool>,
    n: int,
) -> Option<Seq<char>>
    decreases n,
{
    if n <= 0 {
        None
    } else if clicked[n - 1] {
        Some(presets[n - 1].path@)
    } else {
        last_clicked(presets, clicked, n - 1)
    }
}

/// Turns one frame's use of the preset controls into requests. `clicked` says of every listed
/// preset whether it was picked.
pub fn preset_controls(
    preset_name: &str,
    save_clicked: bool,
    entered: bool,
    presets: &Vec<PresetSummary>,
    clicked: &Vec<bool>,
) -> (intents: Vec<UiIntent>)
    requires
        clicked@.len() == presets@.len(),
    ensures
        exists|name: Seq<char>| #[trigger]
            text::is_trimmed(preset_name@, name) && preset_asks(
                intents@,
                name,
                save_clicked || entered,
                last_clicked(presets@, clicked@, presets@.len() as int),
            ),
{
    let mut intents: Vec<UiIntent> = Vec::new();
    let name: String = text::trimmed(preset_name);
    let ghost said = name@;
    if name.as_str().unicode_len() > 0 && (save_clicked || entered) {
        intents.push(UiIntent::SavePreset { name });
    }
    let ghost saved = intents@;
    let mut recalled: Option<String> = None;
    let mut i: usize = 0;
    while i < presets.len()
        invariant
            clicked@.len() == presets@.len(),
            i <= presets@.len(),
            ui_host::text_view(recalled) == last_clicked(presets@, clicked@, i as int),
        decreases presets@.len() - i,
    {
        if clicked[i] {
            recalled = Some(presets[i].path.clone());
        }
        i += 1;
    }
    if let Some(path) = recalled {
        intents.push(UiIntent::RecallPreset { path });
    }
    proof {
        assert(text::is_trimmed(preset_name@, said));
        assert(saved.len() > 0 ==> intents@[0] == saved[0]);
    }
    intents
}

/// What the screen itself remembers between frames.
#[derive(Debug)]
pub struct ViewState {
    pub preset_name: String,
}

impl ViewState {
    pub fn new() -> (v: ViewState)
        ensures
            v.preset_name@ == Seq::<char>::empty(),
    {
        ViewState { preset_name: String::new() }
    }
}

/// The screen and its host.
pub struct NamirUi<H: UiHost> {
    pub host: H,
    pub view: ViewState,
}

impl<H: UiHost> NamirUi<H> {
    pub fn new(host: H) -> (ui: Self)
        ensures
            ui.host == host,
            ui.view.preset_name@ == Seq::<char>::empty(),
    {
        NamirUi { host, view: ViewState::new() }
    }

    /// Hands a frame's requests to the host, each once and in order, as the record of a host that
    /// keeps one shows.
    pub fn dispatch_all(&mut self, intents: Vec<UiIntent>)
        ensures
            old(self).host.keeps_record() ==> {
                &&& final(self).host.keeps_record()
                &&& final(self).host.seen() == old(self).host.seen() + intents@
                &&& final(self).host.shown() == old(self).host.shown()
            },
            final(self).view == old(self).view,
    {
        let ghost all = intents@;
        let ghost mut done: int = 0;
        let mut left: Vec<UiIntent> = intents;
        proof {
            assert(all.skip(0) =~= all);
            assert(self.host.seen() + all.take(0) =~= self.host.seen());
        }
        while left.len() > 0
            invariant
                0 <= done <= all.len(),
                left@ == all.skip(done),
                old(self).host.keeps_record() ==> {
                    &&& self.host.keeps_record()
                    &&& self.host.seen() == old(self).host.seen() + all.take(done)
                    &&& self.host.shown() == old(self).host.shown()
                },
                self.view == old(self).view,
            decreases left@.len(),
        {
            let intent: UiIntent = left.remove(0);
            self.host.dispatch(intent);
            proof {
                assert(all.skip(done).skip(1) =~= all.skip(done + 1));
                assert(all.take(done + 1) =~= all.take(done).push(all[done]));
                if old(self).host.keeps_record() {
                    assert(self.host.seen() =~= old(self).host.seen() + all.take(done + 1));
                }
                done = done + 1;
            }
        }
        proof {
            assert(all.take(all.len() as int) =~= all);
        }
    }

    /// One frame: one snapshot, one rendering of it, and every request the rendering brought, in
    /// order. `desk` is what the rendering draws on, and comes back as the rendering leaves it.
    pub fn frame<S, R>(&mut self, desk: S, render: R) -> (drawn: S) where
        R: Fn(ViewState, UiSnapshot, S) -> (ViewState, Vec<UiIntent>, S),

        requires
            forall|v: ViewState, s: UiSnapshot, d: S|
                s.params.wf() ==> #[trigger] call_requires(render, (v, s, d)),
        ensures
            frame_done(*old(self), *final(self), render, desk, drawn),
    {
        let snapshot: UiSnapshot = self.host.snapshot();
        let mut view: ViewState = ViewState::new();
        std::mem::swap(&mut view, &mut self.view);
        let ghost shown = snapshot;
        let ghost blank = desk;
        let (next, intents, drawn) = render(view, snapshot, desk);
        proof {
            assert(call_ensures(
                render,
                (old(self).view, shown, blank),
                (next, intents, drawn),
            ));
        }
        self.view = next;
        self.dispatch_all(intents);
        drawn
    }
}

/// What one frame does: it asks the host for one snapshot and has it rendered once, what the
/// rendering leaves behind stays, and the host sees what the rendering asked for and nothing else,
/// as the record of a host that keeps one shows.
pub open spec fn frame_done<H: UiHost, S, R>(
    before: NamirUi<H>,
    after: NamirUi<H>,
    render: R,
    desk: S,
    drawn: S,
) -> bool where R: Fn(ViewState, UiSnapshot, S) -> (ViewState, Vec<UiIntent>, S) {
    exists|s: UiSnapshot, r: (ViewState, Vec<UiIntent>, S)| #[trigger]
        call_ensures(render, (before.view, s, desk), r) && s.params.wf() && after.view == r.0
            && drawn == r.2 && (before.host.keeps_record() ==> after.host.keeps_record()
            && after.host.shown() == before.host.shown().push(s) && after.host.seen()
            == before.host.seen() + r.1@)
}

/// How a window is opened.
#[derive(Debug, Clone, Copy, PartialEq, Eq, Structural)]
pub struct WindowSettings {
    pub width: u32,
    pub height: u32,
    /// Ask for a framebuffer that can hold sRGB.
    pub srgb: bool,
}

impl WindowSettings {
    /// The window both products open.
    #[verifier::allow_in_spec]
    pub fn standard() -> WindowSettings
        returns
            (WindowSettings { width: 960, height: 640, srgb: true }),
    {
        WindowSettings { width: 960, height: 640, srgb: true }
    }
}

/// The attempts at a window, by what each leaves behind: the first as asked, which is the only one
/// where it succeeds; and one more without sRGB where it fails, whatever comes of that.
pub open spec fn attempted<T, S, O>(
    open: O,
    settings: WindowSettings,
    desk: S,
    r: (Option<T>, S),
) -> bool where O: Fn(WindowSettings, S) -> (Option<T>, S) {
    ||| r.0 is Some && call_ensures(open, (settings, desk), r)
    ||| exists|between: S|
        #![trigger call_ensures(open, (settings, desk), (None, between))]
        call_ensures(open, (settings, desk), (None, between)) && call_ensures(
            open,
            (WindowSettings { srgb: false, ..settings }, between),
            r,
        )
}

/// Opens a window as asked; where that fails, tries once more without sRGB and gives what comes of
/// that. `desk` is what an attempt works on: each takes it from the one before.
pub fn open_with_srgb_fallback<T, S, O>(settings: WindowSettings, desk: S, open: O) -> (r: (
    Option<T>,
    S,
)) where O: Fn(WindowSettings, S) -> (Option<T>, S)
    requires
        forall|w: WindowSettings, s: S| #[trigger] call_requires(open, (w, s)),
    ensures
        attempted(open, settings, desk, r),
{
    let (opened, between) = open(settings, desk);
    match opened {
        Some(window) => (Some(window), between),
        None => open(WindowSettings { srgb: false, ..settings }, between),
    }
}

/// The mode indicator opens with the mode that was granted and ends with the device that granted
/// it.
pub proof fn lemma_the_mode_indicator_names_mode_and_device(
    mode: AudioShareMode,
    device: Seq<char>,
)
    ensures
        text::opens(
            mode_label(mode, device),
            if mode == AudioShareMode::Exclusive {
                "Exclusive"@
            } else {
                "Shared"@
            },
        ),
        device.len() <= mode_label(mode, device).len(),
        mode_label(mode, device).skip(mode_label(mode, device).len() - device.len()) == device,
{
    let label = mode_label(mode, device);
    let word = if mode == AudioShareMode::Exclusive {
        "Exclusive"@
    } else {
        "Shared"@
    };
    assert(label.take(word.len() as int) =~= word);
    assert(label.skip(label.len() - device.len()) =~= device);
}

/// The status line holds the mode indicator exactly where there is a mode, and the unsaved marker
/// exactly where something is unsaved, the indicator first; and nothing else.
pub proof fn lemma_the_status_line_says_what_is_so(
    mode: Option<(AudioShareMode, Seq<char>)>,
    unsaved: bool,
)
    ensures
        ({
            let line = status_line(mode, unsaved);
            let indicators = if mode is Some {
                1nat
            } else {
                0
            };
            let markers = if unsaved {
                1nat
            } else {
                0
            };
            &&& line.len() == indicators + markers
            &&& mode matches Some((granted, device)) ==> line[0] == mode_label(granted, device)
            &&& unsaved ==> line[line.len() - 1] == "* unsaved changes"@
        }),
{
}

/// Of the presets that were clicked the last one listed is recalled, and none where none was
/// clicked.
pub proof fn lemma_the_last_click_counts(
    presets: Seq<PresetSummary>,
    clicked: Seq<bool>,
    n: int,
    i: int,
)
    requires
        0 <= n <= presets.len(),
        clicked.len() == presets.len(),
    ensures
        last_clicked(presets, clicked, n) is None <==> forall|j: int| 0 <= j < n ==> !clicked[j],
        0 <= i < n && clicked[i] && (forall|j: int| i < j < n ==> !clicked[j]) ==> last_clicked(
            presets,
            clicked,
            n,
        ) == Some(presets[i].path@),
    decreases n,
{
    if n > 0 {
        lemma_the_last_click_counts(presets, clicked, n - 1, i);
    }
}

/// The row of preset controls asks for a save where it was asked for one and the name is not empty,
/// under that name, and for a recall where a preset was picked, of that preset; a save comes before
/// a recall, and nothing else is ever asked for.
pub proof fn lemma_the_preset_row_asks_for_what_was_done(
    intents: Seq<UiIntent>,
    name: Seq<char>,
    save: bool,
    picked: Option<Seq<char>>,
    i: int,
)
    requires
        preset_asks(intents, name, save, picked),
    ensures
        save && name.len() > 0 ==> intents.len() > 0 && (intents[0] matches UiIntent::SavePreset {
            name: under,
        } && under@ == name),
        picked is Some ==> intents.len() > 0 && (intents[intents.len()
            - 1] matches UiIntent::RecallPreset { path } && path@ == picked->0),
        0 <= i < intents.len() ==> intents[i] is SavePreset || intents[i] is RecallPreset,
        0 <= i < intents.len() && intents[i] is SavePreset ==> i == 0 && save && name.len() > 0,
        0 <= i < intents.len() && intents[i] is RecallPreset ==> i == intents.len() - 1
            && picked is Some,
{
}

/// A window is asked for as it was ordered, and where that opens, for nothing else; where it does
/// not, once more with everything as ordered but the sRGB framebuffer, from what the first attempt
/// left behind, and what comes of that is what comes of it all.
pub proof fn lemma_a_window_is_tried_again_without_srgb<T, S, O>(
    open: O,
    settings: WindowSettings,
    desk: S,
    r: (Option<T>, S),
) where O: Fn(WindowSettings, S) -> (Option<T>, S)
    requires
        attempted(open, settings, desk, r),
    ensures
        (forall|w: WindowSettings, d: S, a: (Option<T>, S)| #[trigger]
            call_ensures(open, (w, d), a) ==> a.0 is Some) ==> r.0 is Some && call_ensures(
            open,
            (settings, desk),
            r,
        ),
        (forall|a: (Option<T>, S)| #[trigger]
            call_ensures(open, (settings, desk), a) ==> a.0 is None) ==> exists|between: S|
            #![trigger call_ensures(open, (settings, desk), (None, between))]
            call_ensures(open, (settings, desk), (None, between)) && call_ensures(
                open,
                (
                    WindowSettings {
                        width: settings.width,
                        height: settings.height,
                        srgb: false,
                    },
                    between,
                ),
                r,
            ),
{
}

/// One frame shows exactly one more snapshot, and the host is asked for nothing that it was not
/// asked for before but what the rendering of that snapshot brought, in order.
pub proof fn lemma_a_frame_is_one_snapshot_and_its_requests<H: UiHost, S, R>(
    before: NamirUi<H>,
    after: NamirUi<H>,
    render: R,
    desk: S,
    drawn: S,
) where R: Fn(ViewState, UiSnapshot, S) -> (ViewState, Vec<UiIntent>, S)
    requires
        frame_done(before, after, render, desk, drawn),
        before.host.keeps_record(),
    ensures
        after.host.keeps_record(),
        after.host.shown().len() == before.host.shown().len() + 1,
        after.host.shown().drop_last() == before.host.shown(),
        after.host.shown().last().params.wf(),
        exists|r: (ViewState, Vec<UiIntent>, S)|
            {
                &&& #[trigger] call_ensures(
                    render,
                    (before.view, after.host.shown().last(), desk),
                    r,
                )
                &&& after.view == r.0
                &&& after.host.seen() == before.host.seen() + r.1@
                &&& drawn == r.2
            },
{
    let (s, r) = choose|s: UiSnapshot, r: (ViewState, Vec<UiIntent>, S)| #[trigger]
        call_ensures(render, (before.view, s, desk), r) && s.params.wf() && after.view == r.0
            && drawn == r.2 && (before.host.keeps_record() ==> after.host.keeps_record()
            && after.host.shown() == before.host.shown().push(s) && after.host.seen()
            == before.host.seen() + r.1@);
    assert(after.host.shown().drop_last() =~= before.host.shown());
    assert(after.host.shown().last() == s);
    assert(call_ensures(render, (before.view, after.host.shown().last(), desk), r));
}

/// A name of white space alone is not offered for a save, and any other is, whatever white space
/// stands around it; a recall is offered exactly where there is something to recall, and says so.
pub proof fn lemma_the_preset_row_offers_what_can_be_done(
    row: PresetRow,
    front: Seq<char>,
    name: Seq<char>,
    back: Seq<char>,
    listed: nat,
)
    requires
        row_offers(row, front + name + back, listed),
        forall|i: int| 0 <= i < front.len() ==> text::is_white_space(#[trigger] front[i]),
        forall|i: int| 0 <= i < back.len() ==> text::is_white_space(#[trigger] back[i]),
        name.len() > 0 ==> !text::is_white_space(name[0]) && !text::is_white_space(
            name[name.len() - 1],
        ),
    ensures
        row.save_enabled <==> name.len() > 0,
        row.recall_enabled <==> listed > 0,
        listed == 0 ==> row.recall_text@ == "No saved presets"@,
        listed > 0 ==> row.recall_text@ == "Recall preset"@,
{
    let typed = front + name + back;
    assert(text::around(typed, front, name, back));
    assert(text::is_trimmed(typed, name));
}

/// The readings among the meters on the screen, with their titles, in order.
pub open spec fn meters_shown(items: Seq<ItemView>) -> Seq<(Seq<char>, MeterReading)>
    decreases items.len(),
{
    if items.len() == 0 {
        Seq::empty()
    } else {
        let before = meters_shown(items.drop_last());
        match items.last() {
            ItemView::Meter(title, reading) => before.push((title, reading)),
            _ => before,
        }
    }
}

proof fn lemma_meters_are_in_the_outline(items: Seq<ItemView>)
    ensures
        meters_shown(items) == meters_shown(outline(items)),
    decreases items.len(),
{
    if items.len() > 0 {
        lemma_meters_are_in_the_outline(items.drop_last());
        if !(items.last() is Control) {
            assert(outline(items).drop_last() =~= outline(items.drop_last()));
        }
    }
}

/// The screen is drawn from the snapshot and from nothing else: its two meters are the input's with
/// the input reading and the output's with the output reading, in this order; the label below the
/// heading for the model is the model's name and the one below the heading for the impulse response
/// that one's; and every control stands at its own parameter's value.
pub proof fn lemma_the_screen_is_drawn_from_the_snapshot(s: UiSnapshot, entry: int)
    requires
        s.params.wf(),
        0 <= entry < registry::registry_entries().len(),
    ensures
        ({
            let items = screen_of(s);
            let marks = outline(items);
            &&& meters_shown(items) == seq![
                ("Input"@, s.input_meter),
                ("Output"@, s.output_meter),
            ]
            &&& marks.len() == 11
            &&& marks[3] == ItemView::Heading("Model"@)
            &&& s.loaded_model_name matches Some(name) ==> marks[4] == ItemView::Label(name@)
            &&& s.loaded_model_name is None ==> marks[4] == ItemView::Label("(no model loaded)"@)
            &&& marks[6] == ItemView::Heading("Impulse Response"@)
            &&& s.loaded_ir_name matches Some(name) ==> marks[7] == ItemView::Label(name@)
            &&& s.loaded_ir_name is None ==> marks[7] == ItemView::Label("(no IR loaded)"@)
            &&& s.independent_channels_relevant || registry::registry_entries()[entry].key@
                != "global.independent_channels"@ ==> settings_shown(items, entry) == seq![
                s.params.values@[entry],
            ]
            &&& !s.independent_channels_relevant && registry::registry_entries()[entry].key@
                == "global.independent_channels"@ ==> settings_shown(items, entry).len() == 0
        }),
{
    let (values, model, ir) = (
        s.params.values@,
        ui_host::text_view(s.loaded_model_name),
        ui_host::text_view(s.loaded_ir_name),
    );
    let (input, output) = (s.input_meter, s.output_meter);
    let relevant = s.independent_channels_relevant;
    lemma_meters_and_names_are_where_they_belong(values, input, output, model, ir, relevant);
    lemma_every_control_is_on_the_screen_once(values, input, output, model, ir, relevant, entry);
    let items = screen_of(s);
    let marks = outline(items);
    lemma_meters_are_in_the_outline(items);
    assert(marks.len() == 11);
    lemma_meters_up_to(marks, 1);
    lemma_no_meter_between(marks, 1, 9);
    lemma_meters_up_to(marks, 10);
    lemma_no_meter_between(marks, 10, 11);
    assert(marks.take(11) =~= marks);
    assert(marks.take(0) =~= Seq::empty());
    assert(meters_shown(marks) =~= seq![("Input"@, input), ("Output"@, output)]);
}

/// The item at the end of a beginning adds its reading if it is a meter.
proof fn lemma_meters_up_to(items: Seq<ItemView>, n: int)
    requires
        0 < n <= items.len(),
    ensures
        meters_shown(items.take(n)) == (match items[n - 1] {
            ItemView::Meter(title, reading) => meters_shown(items.take(n - 1)).push(
                (title, reading),
            ),
            _ => meters_shown(items.take(n - 1)),
        }),
{
    assert(items.take(n).drop_last() =~= items.take(n - 1));
    assert(items.take(n).last() == items[n - 1]);
}

/// Items that are no meters add no reading.
proof fn lemma_no_meter_between(items: Seq<ItemView>, from: int, to: int)
    requires
        0 <= from <= to <= items.len(),
        forall|i: int| from <= i < to ==> !((#[trigger] items[i]) is Meter),
    ensures
        meters_shown(items.take(to)) == meters_shown(items.take(from)),
    decreases to - from,
{
    if from < to {
        lemma_no_meter_between(items, from, to - 1);
        lemma_meters_up_to(items, to);
    }
}

} // verus!
