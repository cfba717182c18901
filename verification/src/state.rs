//! The settings a session carries: every parameter's value and which files are loaded.

use vstd::prelude::*;

use crate::descriptor::{default_value_of, ParamDescriptor};
use crate::identity;
use crate::registry;
use crate::single::Single;

verus! {

/// A value for every entry of the registry, in the registry's order.
#[derive(Debug)]
pub struct ParamValues {
    pub values: Vec<Single>,
}

/// Entry for entry the same numbers.
pub open spec fn same_values(a: Seq<Single>, b: Seq<Single>) -> bool {
    &&& a.len() == b.len()
    &&& forall|i: int| 0 <= i < a.len() ==> (#[trigger] a[i]).same_number(b[i])
}

/// The values with `value`, brought into its range, stored for a key.
pub open spec fn with_value(values: Seq<Single>, key: Seq<char>, value: Single) -> Seq<Single> {
    if registry::known(key) {
        let i = registry::place_of(key);
        values.update(i, registry::registry_entries()[i].kind.held(value))
    } else {
        values
    }
}

impl ParamValues {
    pub open spec fn wf(&self) -> bool {
        self.values@.len() == registry::registry_entries().len()
    }

    /// Every parameter at its default.
    pub fn defaults() -> (v: ParamValues)
        ensures
            v.wf(),
            forall|i: int|
                #![trigger v.values@[i]]
                0 <= i < v.values@.len() ==> v.values@[i]
                    == registry::registry_entries()[i].kind.default_spec(),
    {
        let entries: Vec<ParamDescriptor> = registry::registry();
        let mut values: Vec<Single> = Vec::new();
        let mut i: usize = 0;
        while i < entries.len()
            invariant
                entries@ == registry::registry_entries(),
                i <= entries@.len(),
                values@.len() == i,
                forall|j: int|
                    #![trigger values@[j]]
                    0 <= j < i ==> values@[j]
                        == registry::registry_entries()[j].kind.default_spec(),
            decreases entries@.len() - i,
        {
            proof {
                registry::lemma_every_entry_is_valid(i as int);
            }
            values.push(default_value_of(entries[i]));
            i += 1;
        }
        ParamValues { values }
    }

    /// The value of a parameter, if the registry has it.
    pub fn get(&self, key: &str) -> (r: Option<Single>)
        requires
            self.wf(),
        ensures
            r == (if registry::known(key@) {
                Some(self.values@[registry::place_of(key@)])
            } else {
                None
            }),
    {
        match registry::position(key) {
            Some(i) => Some(self.values[i]),
            None => None,
        }
    }

    /// Stores a value, brought into its range; says whether the registry has the key. Nothing else
    /// changes, and nothing at all where it has not.
    pub fn set(&mut self, key: &str, value: Single) -> (known: bool)
        requires
            old(self).wf(),
        ensures
            final(self).wf(),
            known == registry::known(key@),
            final(self).values@ == with_value(old(self).values@, key@, value),
    {
        match registry::position(key) {
            Some(i) => {
                let entries: Vec<ParamDescriptor> = registry::registry();
                let held: Single = entries[i].kind.hold(value);
                self.values.set(i, held);
                true
            },
            None => false,
        }
    }

    pub fn copy(&self) -> (r: ParamValues)
        ensures
            r.values@ == self.values@,
    {
        ParamValues { values: crate::dsp::copy_samples(&self.values) }
    }

    pub fn same(&self, other: &ParamValues) -> (r: bool)
        ensures
            r == same_values(self.values@, other.values@),
    {
        if self.values.len() != other.values.len() {
            return false;
        }
        let mut i: usize = 0;
        while i < self.values.len()
            invariant
                self.values@.len() == other.values@.len(),
                i <= self.values@.len(),
                forall|j: int|
                    0 <= j < i ==> (#[trigger] self.values@[j]).same_number(other.values@[j]),
            decreases self.values@.len() - i,
        {
            if !self.values[i].equals(other.values[i]) {
                return false;
            }
            i += 1;
        }
        true
    }
}

/// A reference to a file that is loaded.
#[derive(Debug)]
pub struct FileRef {
    pub display_name: String,
    /// Stands for the content hash and the paths: equal exactly where they are.
    pub identity: u64,
}

impl FileRef {
    pub fn copy(&self) -> (r: FileRef)
        ensures
            r.display_name@ == self.display_name@,
            r.identity == self.identity,
    {
        FileRef { display_name: self.display_name.clone(), identity: self.identity }
    }
}

/// What a reference says.
pub open spec fn reference_view(r: Option<FileRef>) -> Option<(Seq<char>, u64)> {
    match r {
        Some(f) => Some((f.display_name@, f.identity)),
        None => None,
    }
}

fn copy_reference(r: &Option<FileRef>) -> (c: Option<FileRef>)
    ensures
        reference_view(c) == reference_view(*r),
{
    match r {
        Some(f) => Some(f.copy()),
        None => None,
    }
}

fn same_reference(a: &Option<FileRef>, b: &Option<FileRef>) -> (r: bool)
    ensures
        r == (reference_view(*a) == reference_view(*b)),
{
    match (a, b) {
        (Some(x), Some(y)) => x.identity == y.identity && x.display_name == y.display_name,
        (None, None) => true,
        _ => false,
    }
}

/// The settings of a session.
#[derive(Debug)]
pub struct State {
    pub params: ParamValues,
    pub nam: Option<FileRef>,
    pub ir: Option<FileRef>,
}

/// What the settings say.
#[verifier::ext_equal]
pub struct StateView {
    pub params: Seq<Single>,
    pub nam: Option<(Seq<char>, u64)>,
    pub ir: Option<(Seq<char>, u64)>,
}

impl StateView {
    /// The same settings.
    pub open spec fn same(self, other: StateView) -> bool {
        &&& same_values(self.params, other.params)
        &&& self.nam == other.nam
        &&& self.ir == other.ir
    }

    pub open spec fn nam_name(self) -> Option<Seq<char>> {
        match self.nam {
            Some(f) => Some(f.0),
            None => None,
        }
    }

    pub open spec fn ir_name(self) -> Option<Seq<char>> {
        match self.ir {
            Some(f) => Some(f.0),
            None => None,
        }
    }
}

impl View for State {
    type V = StateView;

    open spec fn view(&self) -> StateView {
        StateView {
            params: self.params.values@,
            nam: reference_view(self.nam),
            ir: reference_view(self.ir),
        }
    }
}

impl State {
    pub open spec fn wf(&self) -> bool {
        self.params.wf()
    }

    /// Every parameter at its default and nothing loaded.
    pub fn defaults() -> (s: State)
        ensures
            s.wf(),
            s.nam is None,
            s.ir is None,
            forall|i: int|
                #![trigger s.params.values@[i]]
                0 <= i < s.params.values@.len() ==> s.params.values@[i]
                    == registry::registry_entries()[i].kind.default_spec(),
    {
        State { params: ParamValues::defaults(), nam: None, ir: None }
    }

    pub fn copy(&self) -> (s: State)
        ensures
            s@ == self@,
    {
        State {
            params: self.params.copy(),
            nam: copy_reference(&self.nam),
            ir: copy_reference(&self.ir),
        }
    }

    /// Whether two sessions have the same settings.
    pub fn same(&self, other: &State) -> (r: bool)
        ensures
            r == self@.same(other@),
    {
        self.params.same(&other.params) && same_reference(&self.nam, &other.nam) && same_reference(
            &self.ir,
            &other.ir,
        )
    }
}

/// A stored value is read back, brought into the range of its own entry; every other entry keeps
/// what it had, and a key that no entry has stores nothing.
pub proof fn lemma_a_stored_value_is_read_back(
    values: Seq<Single>,
    key: Seq<char>,
    value: Single,
    i: int,
    j: int,
)
    requires
        values.len() == registry::registry_entries().len(),
        0 <= j < values.len(),
    ensures
        with_value(values, key, value).len() == values.len(),
        registry::keyed(key, i) ==> with_value(values, key, value)[i]
            == registry::registry_entries()[i].kind.held(value),
        !registry::keyed(key, j) ==> with_value(values, key, value)[j] == values[j],
{
    if registry::known(key) {
        let p = choose|p: int| registry::keyed(key, p);
        identity::lemma_a_key_has_one_place(key, p);
    }
}

/// Settings are the same as themselves where every value is a number, whichever way round they are
/// compared, and one value or one loaded file that differs makes them differ.
pub proof fn lemma_settings_differ_by_one_thing(a: StateView, b: StateView, i: int)
    ensures
        a.same(b) == b.same(a),
        (forall|j: int| 0 <= j < a.params.len() ==> !(#[trigger] a.params[j]).is_nan()) ==> a.same(
            a,
        ),
        a.nam != b.nam ==> !a.same(b),
        a.ir != b.ir ==> !a.same(b),
        a.params.len() == b.params.len() && 0 <= i < a.params.len() && a.params[i].below(
            b.params[i],
        ) ==> !a.same(b),
        a.same(b) && 0 <= i < a.params.len() ==> a.params[i].rank() == b.params[i].rank(),
{
    if a.same(b) {
        assert forall|j: int| 0 <= j < b.params.len() implies (#[trigger] b.params[j]).same_number(
            a.params[j],
        ) by {
            assert(a.params[j].same_number(b.params[j]));
        }
    }
    if b.same(a) {
        assert forall|j: int| 0 <= j < a.params.len() implies (#[trigger] a.params[j]).same_number(
            b.params[j],
        ) by {
            assert(b.params[j].same_number(a.params[j]));
        }
    }
    if a.same(b) && 0 <= i < a.params.len() {
        assert(a.params[i].same_number(b.params[i]));
    }
}

} // verus!
