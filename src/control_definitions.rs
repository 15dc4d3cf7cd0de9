use vstd::prelude::*;
use vstd::utf8::{decode_utf8, valid_utf8};

use crate::controls::{
    ControlDef, ControlDefs, ControlOutputs, InputDef, InputDefKind, Output, OutputDef,
    OutputDefKind, Outputs,
};
use crate::names::NameMap;

verus! {

/// Name of the string control that tells which airframe is flown.
pub const AIRCRAFT_NAME_CONTROL: &'static str = "_ACFT_NAME";

/// How a raw input definition takes input.
#[derive(Debug, Clone, Copy, PartialEq, Eq, Structural)]
pub enum RawInputKind {
    FixedStep,
    SetState,
    VariableStep,
    Action,
}

/// An input of a control as the control-reference files describe it.
#[derive(Debug, Clone)]
pub struct RawInput {
    pub description: String,
    pub kind: RawInputKind,
    pub max_value: Option<u16>,
    pub suggested_step: Option<u16>,
    pub argument: Option<String>,
}

/// How a raw output definition is stored in the mirror.
#[derive(Debug, Clone, Copy, PartialEq, Eq, Structural)]
pub enum RawOutputKind {
    String,
    Integer,
}

/// An output of a control as the control-reference files describe it.
#[derive(Debug, Clone)]
pub struct RawOutput {
    pub address: u16,
    pub description: String,
    pub kind: RawOutputKind,
    pub mask: Option<u16>,
    pub max_value: Option<u16>,
    pub shift_by: Option<u16>,
    pub max_length: Option<u16>,
    pub suffix: String,
}

/// A control as the control-reference files describe it.
#[derive(Debug, Clone)]
pub struct RawControl {
    pub category: String,
    pub name: String,
    pub kind: String,
    pub description: String,
    pub momentary_positions: Option<String>,
    pub physical_variant: Option<String>,
    pub inputs: Vec<RawInput>,
    pub outputs: Vec<RawOutput>,
}

impl RawInput {
    /// The fields that its kind needs are there.
    pub open spec fn is_well_formed(&self) -> bool {
        match self.kind {
            RawInputKind::FixedStep => true,
            RawInputKind::SetState => self.max_value is Some,
            RawInputKind::VariableStep => self.max_value is Some && self.suggested_step is Some,
            RawInputKind::Action => self.argument is Some,
        }
    }

    pub fn check(&self) -> (r: bool)
        ensures
            r == self.is_well_formed(),
    {
        match self.kind {
            RawInputKind::FixedStep => true,
            RawInputKind::SetState => self.max_value.is_some(),
            RawInputKind::VariableStep => self.max_value.is_some()
                && self.suggested_step.is_some(),
            RawInputKind::Action => self.argument.is_some(),
        }
    }

    pub fn to_def(&self) -> (r: InputDef)
        requires
            self.is_well_formed(),
        ensures
            input_def_of(r, *self),
    {
        let kind = match self.kind {
            RawInputKind::FixedStep => InputDefKind::FixedStep,
            RawInputKind::SetState => InputDefKind::SetState {
                max_value: self.max_value.unwrap() as usize,
            },
            RawInputKind::VariableStep => InputDefKind::VariableStep {
                max_value: self.max_value.unwrap() as usize,
                suggested_step: self.suggested_step.unwrap() as usize,
            },
            RawInputKind::Action => {
                let argument = self.argument.as_ref().unwrap().clone();
                InputDefKind::Action { argument }
            },
        };
        InputDef { description: self.description.clone(), kind }
    }
}

/// `d` is the definition that `raw` describes.
pub open spec fn input_def_of(d: InputDef, raw: RawInput) -> bool {
    &&& d.description@ == raw.description@
    &&& match raw.kind {
        RawInputKind::FixedStep => d.kind is FixedStep,
        RawInputKind::SetState => d.kind == InputDefKind::SetState {
            max_value: raw.max_value.unwrap() as usize,
        },
        RawInputKind::VariableStep => d.kind == InputDefKind::VariableStep {
            max_value: raw.max_value.unwrap() as usize,
            suggested_step: raw.suggested_step.unwrap() as usize,
        },
        RawInputKind::Action => d.kind is Action && d.kind->argument@
            == raw.argument.unwrap()@,
    }
}

/// `d` is the definition that `raw` describes.
pub open spec fn output_def_of(d: OutputDef, raw: RawOutput) -> bool {
    &&& d.description@ == raw.description@
    &&& match raw.kind {
        RawOutputKind::String => d.kind == OutputDefKind::String {
            max_length: raw.max_length.unwrap() as usize,
        },
        RawOutputKind::Integer => d.kind == OutputDefKind::Integer {
            max_value: raw.max_value.unwrap() as usize,
        },
    }
}

/// `d` is the definition that `raw` describes.
pub open spec fn control_def_of(d: ControlDef, raw: RawControl) -> bool {
    &&& d.category@ == raw.category@
    &&& d.kind@ == raw.kind@
    &&& d.description@ == raw.description@
    &&& d.inputs@.len() == raw.inputs@.len()
    &&& forall|i: int|
        0 <= i < raw.inputs@.len() ==> input_def_of(#[trigger] d.inputs@[i], raw.inputs@[i])
    &&& d.outputs@.len() == raw.outputs@.len()
    &&& forall|i: int|
        0 <= i < raw.outputs@.len() ==> output_def_of(#[trigger] d.outputs@[i], raw.outputs@[i])
}

/// Index of the first zero byte, or the length if there is none.
pub open spec fn first_zero(s: Seq<u8>) -> nat
    decreases s.len(),
{
    if s.len() == 0 {
        0
    } else if s[0] == 0 {
        0
    } else {
        1 + first_zero(s.drop_first())
    }
}

/// The little-endian word at `address`.
pub open spec fn word_at(buffer: Seq<u8>, address: int) -> u16 {
    (buffer[address] as u16) | ((buffer[address + 1] as u16) << 8u16)
}

/// An integer output: the masked and shifted word at `address`, read as signed.
pub open spec fn integer_output(buffer: Seq<u8>, address: int, mask: u16, shift_by: u16) -> Option<
    i16,
> {
    if address + 2 > buffer.len() {
        None
    } else {
        Some(((word_at(buffer, address) & mask) >> shift_by) as i16)
    }
}

/// The bytes of a string output: those at `address`, up to `max_length` of
/// them and up to the first zero.
pub open spec fn string_output_bytes(buffer: Seq<u8>, address: int, max_length: int) -> Seq<u8> {
    let field = buffer.subrange(address, address + max_length);
    field.take(first_zero(field) as int)
}

/// A string output: the text of its bytes, if they are in the buffer and are
/// valid UTF-8.
pub open spec fn string_output(buffer: Seq<u8>, address: int, max_length: int) -> Option<
    Seq<char>,
> {
    if address + max_length > buffer.len() {
        None
    } else if valid_utf8(string_output_bytes(buffer, address, max_length)) {
        Some(decode_utf8(string_output_bytes(buffer, address, max_length)))
    } else {
        None
    }
}

/// `r` is what reading the output `o` from `buffer` gives.
pub open spec fn output_read(o: RawOutput, buffer: Seq<u8>, r: Option<Output>) -> bool {
    match o.kind {
        RawOutputKind::String => match string_output(
            buffer,
            o.address as int,
            o.max_length.unwrap() as int,
        ) {
            None => r is None,
            Some(text) => r is Some && r.unwrap() is String && r.unwrap()->String_0@ == text,
        },
        RawOutputKind::Integer => match integer_output(
            buffer,
            o.address as int,
            o.mask.unwrap(),
            o.shift_by.unwrap(),
        ) {
            None => r is None,
            Some(i) => r == Some(Output::Integer(i)),
        },
    }
}

/// Whether reading `o` from `buffer` gives an output.
pub open spec fn output_present(o: RawOutput, buffer: Seq<u8>) -> bool {
    match o.kind {
        RawOutputKind::String => string_output(
            buffer,
            o.address as int,
            o.max_length.unwrap() as int,
        ) is Some,
        RawOutputKind::Integer => integer_output(
            buffer,
            o.address as int,
            o.mask.unwrap(),
            o.shift_by.unwrap(),
        ) is Some,
    }
}

/// `res` lists, in order, the outputs of `os` that `buffer` gives.
pub open spec fn outputs_read(os: Seq<RawOutput>, buffer: Seq<u8>, res: Seq<Output>) -> bool
    decreases os.len(),
{
    if os.len() == 0 {
        res.len() == 0
    } else if output_present(os.last(), buffer) {
        &&& res.len() > 0
        &&& output_read(os.last(), buffer, Some(res.last()))
        &&& outputs_read(os.drop_last(), buffer, res.drop_last())
    } else {
        outputs_read(os.drop_last(), buffer, res)
    }
}

/// Relies on std::str::from_utf8: it accepts exactly the valid UTF-8 byte
/// strings, and the text is what they encode.
#[verifier::external_body]
fn utf8_to_string(bytes: &[u8]) -> (r: Option<String>)
    ensures
        r is Some <==> valid_utf8(bytes@),
        r is Some ==> r.unwrap()@ == decode_utf8(bytes@),
{
    std::str::from_utf8(bytes).ok().map(String::from)
}

proof fn lemma_first_zero(s: Seq<u8>, i: int)
    requires
        0 <= i <= s.len(),
        forall|j: int| 0 <= j < i ==> s[j] != 0,
        i == s.len() || s[i] == 0,
    ensures
        first_zero(s) == i,
    decreases i,
{
    if i > 0 {
        lemma_first_zero(s.drop_first(), i - 1);
    }
}

impl RawOutput {
    /// The fields that its kind needs are there, and the shift fits a word.
    pub open spec fn is_well_formed(&self) -> bool {
        match self.kind {
            RawOutputKind::String => self.max_length is Some,
            RawOutputKind::Integer => self.mask is Some && self.shift_by is Some
                && self.shift_by.unwrap() < 16 && self.max_value is Some,
        }
    }

    pub fn check(&self) -> (r: bool)
        ensures
            r == self.is_well_formed(),
    {
        match self.kind {
            RawOutputKind::String => self.max_length.is_some(),
            RawOutputKind::Integer => self.mask.is_some() && self.shift_by.is_some()
                && *self.shift_by.as_ref().unwrap() < 16 && self.max_value.is_some(),
        }
    }

    pub fn to_def(&self) -> (r: OutputDef)
        requires
            self.is_well_formed(),
        ensures
            output_def_of(r, *self),
    {
        let kind = match self.kind {
            RawOutputKind::String => OutputDefKind::String {
                max_length: self.max_length.unwrap() as usize,
            },
            RawOutputKind::Integer => OutputDefKind::Integer {
                max_value: self.max_value.unwrap() as usize,
            },
        };
        OutputDef { description: self.description.clone(), kind }
    }

    /// Reads this output from a mirror snapshot; `None` where its bytes lie
    /// past the end or, for a string, are not valid UTF-8.
    pub fn read(&self, buffer: &[u8]) -> (r: Option<Output>)
        requires
            self.is_well_formed(),
        ensures
            output_read(*self, buffer@, r),
            r is Some <==> output_present(*self, buffer@),
    {
        let len = buffer.len();
        let address = self.address as usize;
        match self.kind {
            RawOutputKind::String => {
                let max_len = self.max_length.unwrap() as usize;
                if address > len || max_len > len - address {
                    return None;
                }
                let field = &buffer[address..address + max_len];
                assert(field@ == buffer@.subrange(address as int, address + max_len));
                let mut end: usize = 0;
                while end < max_len && field[end] != 0
                    invariant
                        0 <= end <= max_len,
                        field@.len() == max_len,
                        forall|j: int| 0 <= j < end ==> field@[j] != 0,
                    decreases max_len - end,
                {
                    end += 1;
                }
                proof {
                    lemma_first_zero(field@, end as int);
                }
                let text = &field[0..end];
                assert(text@ == string_output_bytes(buffer@, address as int, max_len as int));
                match utf8_to_string(text) {
                    Some(s) => Some(Output::String(s)),
                    None => None,
                }
            },
            RawOutputKind::Integer => {
                if address > len || 2 > len - address {
                    return None;
                }
                let word: u16 = (buffer[address] as u16) | ((buffer[address + 1] as u16) << 8u16);
                let mask = self.mask.unwrap();
                let shift_by = self.shift_by.unwrap();
                let num: u16 = (word & mask) >> shift_by;
                Some(Output::Integer(num as i16))
            },
        }
    }
}

impl RawControl {
    pub open spec fn is_well_formed(&self) -> bool {
        &&& forall|i: int|
            0 <= i < self.inputs@.len() ==> (#[trigger] self.inputs@[i]).is_well_formed()
        &&& forall|i: int|
            0 <= i < self.outputs@.len() ==> (#[trigger] self.outputs@[i]).is_well_formed()
    }

    pub fn check(&self) -> (r: bool)
        ensures
            r == self.is_well_formed(),
    {
        let mut i: usize = 0;
        while i < self.inputs.len()
            invariant
                0 <= i <= self.inputs@.len(),
                forall|j: int| 0 <= j < i ==> (#[trigger] self.inputs@[j]).is_well_formed(),
            decreases self.inputs@.len() - i,
        {
            if !self.inputs[i].check() {
                return false;
            }
            i += 1;
        }
        let mut i: usize = 0;
        while i < self.outputs.len()
            invariant
                0 <= i <= self.outputs@.len(),
                forall|j: int| 0 <= j < self.inputs@.len() ==> (
                #[trigger] self.inputs@[j]).is_well_formed(),
                forall|j: int| 0 <= j < i ==> (#[trigger] self.outputs@[j]).is_well_formed(),
            decreases self.outputs@.len() - i,
        {
            if !self.outputs[i].check() {
                return false;
            }
            i += 1;
        }
        true
    }

    pub fn to_def(&self) -> (r: ControlDef)
        requires
            self.is_well_formed(),
        ensures
            control_def_of(r, *self),
    {
        let mut inputs: Vec<InputDef> = Vec::new();
        let mut i: usize = 0;
        while i < self.inputs.len()
            invariant
                0 <= i <= self.inputs@.len(),
                self.is_well_formed(),
                inputs@.len() == i,
                forall|j: int| 0 <= j < i ==> input_def_of(#[trigger] inputs@[j], self.inputs@[j]),
            decreases self.inputs@.len() - i,
        {
            inputs.push(self.inputs[i].to_def());
            i += 1;
        }
        let mut outputs: Vec<OutputDef> = Vec::new();
        let mut i: usize = 0;
        while i < self.outputs.len()
            invariant
                0 <= i <= self.outputs@.len(),
                self.is_well_formed(),
                outputs@.len() == i,
                forall|j: int|
                    0 <= j < i ==> output_def_of(#[trigger] outputs@[j], self.outputs@[j]),
            decreases self.outputs@.len() - i,
        {
            outputs.push(self.outputs[i].to_def());
            i += 1;
        }
        ControlDef {
            category: self.category.clone(),
            kind: self.kind.clone(),
            description: self.description.clone(),
            inputs,
            outputs,
        }
    }

    /// The outputs of this control that the mirror snapshot gives, in order.
    pub fn outputs(&self, buffer: &[u8]) -> (r: Outputs)
        requires
            self.is_well_formed(),
        ensures
            outputs_read(self.outputs@, buffer@, r@),
    {
        let mut res: Vec<Output> = Vec::new();
        let mut i: usize = 0;
        while i < self.outputs.len()
            invariant
                0 <= i <= self.outputs@.len(),
                self.is_well_formed(),
                outputs_read(self.outputs@.take(i as int), buffer@, res@),
            decreases self.outputs@.len() - i,
        {
            let o = self.outputs[i].read(buffer);
            let ghost before = res@;
            match o {
                Some(out) => {
                    res.push(out);
                },
                None => {},
            }
            proof {
                let next = self.outputs@.take(i + 1);
                assert(next.drop_last() == self.outputs@.take(i as int));
                assert(next.last() == self.outputs@[i as int]);
                if output_present(next.last(), buffer@) {
                    assert(res@.drop_last() == before);
                }
            }
            i += 1;
        }
        assert(self.outputs@.take(self.outputs@.len() as int) == self.outputs@);
        Outputs::from_vec(res)
    }
}

/// The map `m` after inserting each entry of `es` in turn.
pub open spec fn insert_all(m: Map<Seq<char>, RawControl>, es: Seq<(String, RawControl)>) -> Map<
    Seq<char>,
    RawControl,
>
    decreases es.len(),
{
    if es.len() == 0 {
        m
    } else {
        insert_all(m, es.drop_last()).insert(es.last().0@, es.last().1)
    }
}

/// The map `m` after inserting the controls of each category in turn.
pub open spec fn insert_categories(
    m: Map<Seq<char>, RawControl>,
    cats: Seq<(String, Vec<(String, RawControl)>)>,
) -> Map<Seq<char>, RawControl>
    decreases cats.len(),
{
    if cats.len() == 0 {
        m
    } else {
        insert_all(insert_categories(m, cats.drop_last()), cats.last().1@)
    }
}

/// Every control of the map is well formed.
pub open spec fn all_well_formed(m: Map<Seq<char>, RawControl>) -> bool {
    forall|k: Seq<char>| #[trigger] m.contains_key(k) ==> m[k].is_well_formed()
}

/// `defs` holds, for each raw control, the definition it describes.
pub open spec fn mirrors(defs: Map<Seq<char>, ControlDef>, raw: Map<Seq<char>, RawControl>) -> bool {
    &&& defs.dom() == raw.dom()
    &&& forall|k: Seq<char>| #[trigger] raw.contains_key(k) ==> control_def_of(defs[k], raw[k])
}

/// Raw controls by name.
#[derive(Debug)]
pub struct RawControls {
    inner: NameMap<RawControl>,
}

impl RawControls {
    pub closed spec fn view(&self) -> Map<Seq<char>, RawControl> {
        self.inner@
    }

    pub closed spec fn wf(&self) -> bool {
        self.inner.wf()
    }

    pub fn new() -> (r: RawControls)
        ensures
            r.wf(),
            r@ == Map::<Seq<char>, RawControl>::empty(),
    {
        RawControls { inner: NameMap::new() }
    }

    pub fn insert(&mut self, name: String, def: RawControl)
        requires
            old(self).wf(),
        ensures
            final(self).wf(),
            final(self)@ == old(self)@.insert(name@, def),
    {
        self.inner.insert(name, def);
    }

    pub fn get(&self, name: &str) -> (r: Option<&RawControl>)
        requires
            self.wf(),
        ensures
            r is Some <==> self@.contains_key(name@),
            r is Some ==> *r.unwrap() == self@[name@],
    {
        self.inner.get(name)
    }

    /// Number of controls.
    pub fn len(&self) -> (r: usize)
        requires
            self.wf(),
        ensures
            r == self@.len(),
            self@.dom().finite(),
    {
        proof {
            self.inner.lemma_len();
        }
        self.inner.len()
    }

    /// The control at a position; positions run from 0 to `len()`, each
    /// name once.
    pub fn entry_at(&self, i: usize) -> (r: (&String, &RawControl))
        requires
            self.wf(),
            i < self@.len(),
        ensures
            self@.contains_key(r.0@),
            self@[r.0@] == *r.1,
            forall|j: int| 0 <= j < i ==> #[trigger] self.key_at(j) != r.0@,
            r.0@ == self.key_at(i as int),
    {
        proof {
            self.inner.lemma_len();
            self.inner.lemma_value_at(i as int);
        }
        self.inner.entry_at(i)
    }

    /// The name at a position.
    pub closed spec fn key_at(&self, i: int) -> Seq<char> {
        crate::names::key_at(self.inner.entries(), i)
    }

    /// Every name of the map stands at some position.
    pub proof fn lemma_keys_at(&self)
        requires
            self.wf(),
        ensures
            forall|k: Seq<char>| #[trigger]
                self@.contains_key(k) ==> exists|i: int| 0 <= i < self@.len() && self.key_at(i) == k,
            forall|i: int| 0 <= i < self@.len() ==> self@.contains_key(#[trigger] self.key_at(i)),
    {
        self.inner.lemma_len();
        assert forall|k: Seq<char>| #[trigger] self@.contains_key(k) implies exists|i: int|
            0 <= i < self@.len() && self.key_at(i) == k by {
            let j = choose|j: int|
                0 <= j < self.inner.entries().len() && crate::names::key_at(
                    self.inner.entries(),
                    j,
                ) == k;
            assert(self.key_at(j) == k);
        }
        assert forall|i: int| 0 <= i < self@.len() implies self@.contains_key(
            #[trigger] self.key_at(i),
        ) by {
            self.inner.lemma_value_at(i);
        }
    }
}

/// A control-reference file: controls by category, then by name.
#[derive(Debug)]
pub struct File {
    pub inner: Vec<(String, Vec<(String, RawControl)>)>,
}

impl File {
    /// Every control of the file is well formed.
    pub open spec fn is_well_formed(&self) -> bool {
        forall|i: int, j: int|
            0 <= i < self.inner@.len() && 0 <= j < self.inner@[i].1@.len() ==> (
            #[trigger] self.inner@[i].1@[j]).1.is_well_formed()
    }

    pub fn check(&self) -> (r: bool)
        ensures
            r == self.is_well_formed(),
    {
        let mut i: usize = 0;
        while i < self.inner.len()
            invariant
                0 <= i <= self.inner@.len(),
                forall|a: int, b: int|
                    0 <= a < i && 0 <= b < self.inner@[a].1@.len() ==> (
                    #[trigger] self.inner@[a].1@[b]).1.is_well_formed(),
            decreases self.inner@.len() - i,
        {
            let controls = &self.inner[i].1;
            let mut j: usize = 0;
            while j < controls.len()
                invariant
                    0 <= i < self.inner@.len(),
                    *controls == self.inner@[i as int].1,
                    0 <= j <= controls@.len(),
                    forall|a: int, b: int|
                        0 <= a < i && 0 <= b < self.inner@[a].1@.len() ==> (
                        #[trigger] self.inner@[a].1@[b]).1.is_well_formed(),
                    forall|b: int| 0 <= b < j ==> (#[trigger] controls@[b]).1.is_well_formed(),
                decreases controls@.len() - j,
            {
                if !controls[j].1.check() {
                    assert(!self.inner@[i as int].1@[j as int].1.is_well_formed());
                    return false;
                }
                j += 1;
            }
            i += 1;
        }
        true
    }

    /// Adds every control of the file, and its definition, to the two maps;
    /// a name that is already there is replaced.
    pub fn insert_defs(self, raw: &mut RawControls, defs: &mut ControlDefs)
        requires
            self.is_well_formed(),
            old(raw).wf(),
            old(defs).wf(),
            mirrors(old(defs)@, old(raw)@),
            all_well_formed(old(raw)@),
        ensures
            final(raw).wf(),
            final(defs).wf(),
            final(raw)@ == insert_categories(old(raw)@, self.inner@),
            mirrors(final(defs)@, final(raw)@),
            all_well_formed(final(raw)@),
    {
        let ghost all = self.inner@;
        let ghost mut i: int = 0;
        let mut cats = self.inner;
        while cats.len() > 0
            invariant
                0 <= i <= all.len(),
                cats@ == all.skip(i),
                forall|a: int, b: int|
                    0 <= a < all.len() && 0 <= b < all[a].1@.len() ==> (
                    #[trigger] all[a].1@[b]).1.is_well_formed(),
                raw.wf(),
                defs.wf(),
                raw@ == insert_categories(old(raw)@, all.take(i)),
                mirrors(defs@, raw@),
                all_well_formed(raw@),
            decreases cats@.len(),
        {
            let (_, mut controls) = cats.remove(0);
            let ghost entries = controls@;
            assert(entries == all[i].1@);
            let ghost at_start = raw@;
            let ghost mut j: int = 0;
            while controls.len() > 0
                invariant
                    0 <= i < all.len(),
                    entries == all[i].1@,
                    0 <= j <= entries.len(),
                    controls@ == entries.skip(j),
                    forall|b: int| 0 <= b < entries.len() ==> (
                    #[trigger] entries[b]).1.is_well_formed(),
                    raw.wf(),
                    defs.wf(),
                    raw@ == insert_all(at_start, entries.take(j)),
                    mirrors(defs@, raw@),
                    all_well_formed(raw@),
                decreases controls@.len(),
            {
                let (name, control) = controls.remove(0);
                assert(entries[j] == (name, control));
                let def = control.to_def();
                defs.insert(name.clone(), def);
                raw.insert(name, control);
                assert(entries.take(j + 1).drop_last() == entries.take(j));
                proof {
                    j = j + 1;
                }
            }
            assert(entries.take(j) == entries);
            assert(all.take(i + 1).drop_last() == all.take(i));
            proof {
                i = i + 1;
            }
        }
        assert(all.take(i) == all);
    }
}

/// The controls of one airframe.
#[derive(Debug)]
pub struct AicraftControlDefs {
    defs: ControlDefs,
    raw_defs: RawControls,
}

impl AicraftControlDefs {
    pub closed spec fn raw(&self) -> Map<Seq<char>, RawControl> {
        self.raw_defs@
    }

    /// The two maps are in step and every control is well formed.
    pub closed spec fn wf(&self) -> bool {
        &&& self.defs.wf()
        &&& self.raw_defs.wf()
        &&& mirrors(self.defs@, self.raw_defs@)
        &&& all_well_formed(self.raw_defs@)
    }

    pub fn new() -> (r: AicraftControlDefs)
        ensures
            r.wf(),
            r.raw() == Map::<Seq<char>, RawControl>::empty(),
    {
        let r = AicraftControlDefs { defs: ControlDefs::new(), raw_defs: RawControls::new() };
        assert(r.defs@.dom() =~= r.raw_defs@.dom());
        r
    }

    /// The controls of one file.
    pub fn from_file(file: File) -> (r: AicraftControlDefs)
        requires
            file.is_well_formed(),
        ensures
            r.wf(),
            r.raw() == insert_categories(Map::empty(), file.inner@),
    {
        let mut r = AicraftControlDefs::new();
        file.insert_defs(&mut r.raw_defs, &mut r.defs);
        r
    }
}

/// The raw controls that each airframe file gives, by airframe name; a name
/// that comes twice takes its last file.
pub open spec fn aircraft_tables(files: Seq<(String, File)>) -> Map<
    Seq<char>,
    Map<Seq<char>, RawControl>,
>
    decreases files.len(),
{
    if files.len() == 0 {
        Map::empty()
    } else {
        aircraft_tables(files.drop_last()).insert(
            files.last().0@,
            insert_categories(Map::empty(), files.last().1.inner@),
        )
    }
}

/// The control definitions: those that every airframe has, those of each
/// airframe, and which airframe is active.
#[derive(Debug)]
pub struct InnerControlDefinitions {
    metadata: ControlDefs,
    raw_metadata: RawControls,
    aircraft: Option<String>,
    aircrafts: NameMap<AicraftControlDefs>,
}

impl InnerControlDefinitions {
    /// The controls that every airframe has.
    pub closed spec fn globals(&self) -> Map<Seq<char>, RawControl> {
        self.raw_metadata@
    }

    /// The controls of each airframe, by airframe name.
    pub closed spec fn airframes(&self) -> Map<Seq<char>, Map<Seq<char>, RawControl>> {
        Map::new(
            |k: Seq<char>| self.aircrafts@.contains_key(k),
            |k: Seq<char>| self.aircrafts@[k].raw(),
        )
    }

    /// The name of the active airframe.
    pub closed spec fn active_name(&self) -> Option<Seq<char>> {
        match self.aircraft {
            Some(a) => Some(a@),
            None => None,
        }
    }

    /// The controls of the active airframe; none when no airframe is active.
    pub open spec fn active(&self) -> Map<Seq<char>, RawControl> {
        match self.active_name() {
            Some(a) => if self.airframes().contains_key(a) {
                self.airframes()[a]
            } else {
                Map::empty()
            },
            None => Map::empty(),
        }
    }

    /// The control that a name resolves to: a global one first, else one of
    /// the active airframe.
    pub open spec fn lookup(&self, name: Seq<char>) -> Option<RawControl> {
        if self.globals().contains_key(name) {
            Some(self.globals()[name])
        } else if self.active().contains_key(name) {
            Some(self.active()[name])
        } else {
            None
        }
    }

    /// The control whose outputs a snapshot lists under a name: the active
    /// airframe's first, else the global one.
    pub open spec fn snapshot_source(&self, name: Seq<char>) -> RawControl {
        if self.active().contains_key(name) {
            self.active()[name]
        } else {
            self.globals()[name]
        }
    }

    pub closed spec fn wf(&self) -> bool {
        &&& self.metadata.wf()
        &&& self.raw_metadata.wf()
        &&& mirrors(self.metadata@, self.raw_metadata@)
        &&& all_well_formed(self.raw_metadata@)
        &&& self.aircrafts.wf()
        &&& forall|k: Seq<char>| #[trigger]
            self.aircrafts@.contains_key(k) ==> self.aircrafts@[k].wf()
    }

    /// Builds the definitions from the three global files and the files of
    /// the airframes that were found; no airframe is active.
    pub fn new(start: File, end: File, common: File, aircraft_files: Vec<(String, File)>) -> (r:
        InnerControlDefinitions)
        requires
            start.is_well_formed(),
            end.is_well_formed(),
            common.is_well_formed(),
            forall|i: int|
                0 <= i < aircraft_files@.len() ==> (#[trigger] aircraft_files@[i]).1.is_well_formed(),
        ensures
            r.wf(),
            r.globals() == insert_categories(
                insert_categories(insert_categories(Map::empty(), start.inner@), end.inner@),
                common.inner@,
            ),
            r.airframes() == aircraft_tables(aircraft_files@),
            r.active_name() is None,
    {
        let ghost start_cats = start.inner@;
        let ghost end_cats = end.inner@;
        let ghost common_cats = common.inner@;
        let mut metadata = ControlDefs::new();
        let mut raw_metadata = RawControls::new();
        assert(metadata@.dom() =~= raw_metadata@.dom());
        start.insert_defs(&mut raw_metadata, &mut metadata);
        end.insert_defs(&mut raw_metadata, &mut metadata);
        common.insert_defs(&mut raw_metadata, &mut metadata);

        let ghost all = aircraft_files@;
        let ghost mut i: int = 0;
        let mut files = aircraft_files;
        let mut aircrafts: NameMap<AicraftControlDefs> = NameMap::new();
        while files.len() > 0
            invariant
                0 <= i <= all.len(),
                files@ == all.skip(i),
                forall|a: int| 0 <= a < all.len() ==> (#[trigger] all[a]).1.is_well_formed(),
                aircrafts.wf(),
                forall|k: Seq<char>| #[trigger] aircrafts@.contains_key(k) ==> aircrafts@[k].wf(),
                aircrafts@.dom() == aircraft_tables(all.take(i)).dom(),
                forall|k: Seq<char>| #[trigger]
                    aircrafts@.contains_key(k) ==> aircrafts@[k].raw() == aircraft_tables(
                        all.take(i),
                    )[k],
            decreases files@.len(),
        {
            let (name, file) = files.remove(0);
            assert(all[i] == (name, file));
            let defs = AicraftControlDefs::from_file(file);
            aircrafts.insert(name, defs);
            assert(all.take(i + 1).drop_last() == all.take(i));
            proof {
                i = i + 1;
            }
        }
        assert(all.take(i) == all);
        let r = InnerControlDefinitions { metadata, raw_metadata, aircraft: None, aircrafts };
        assert(r.airframes() =~= aircraft_tables(all));
        r
    }

    /// The outputs of one control: a global one if the name is global, else
    /// one of the active airframe, else none.
    pub fn control_outputs(&self, name: &str, buffer: &[u8]) -> (r: Outputs)
        requires
            self.wf(),
        ensures
            self.lookup(name@) is None ==> r@.len() == 0,
            self.lookup(name@) is Some ==> outputs_read(
                self.lookup(name@).unwrap().outputs@,
                buffer@,
                r@,
            ),
    {
        match self.raw_metadata.get(name) {
            Some(def) => def.outputs(buffer),
            None => match self.active_defs() {
                Some(defs) => match defs.raw_defs.get(name) {
                    Some(def) => def.outputs(buffer),
                    None => Outputs::new(),
                },
                None => Outputs::new(),
            },
        }
    }

    fn active_defs(&self) -> (r: Option<&AicraftControlDefs>)
        requires
            self.wf(),
        ensures
            r is Some ==> r.unwrap().wf() && r.unwrap().raw() == self.active(),
            r is None ==> self.active() == Map::<Seq<char>, RawControl>::empty(),
    {
        match &self.aircraft {
            Some(a) => {
                let found = self.aircrafts.get(a.as_str());
                proof {
                    if found is None {
                        assert(!self.airframes().contains_key(a@));
                    }
                }
                found
            },
            None => None,
        }
    }

    /// Makes the named airframe active and says whether it is known; an
    /// unknown name leaves no airframe active.
    pub fn load_aircraft(&mut self, name: &str) -> (r: bool)
        requires
            old(self).wf(),
        ensures
            final(self).wf(),
            r == old(self).airframes().contains_key(name@),
            r ==> final(self).active_name() == Some(name@),
            !r ==> final(self).active_name() is None,
            final(self).globals() == old(self).globals(),
            final(self).airframes() == old(self).airframes(),
    {
        if self.aircrafts.contains_key(name) {
            self.aircraft = Some(name.to_owned());
            true
        } else {
            self.aircraft = None;
            false
        }
    }

    /// A snapshot of every active control: the global ones and those of the
    /// active airframe, which win where a name is in both.
    pub fn all_outputs(&self, buffer: &[u8]) -> (r: ControlOutputs)
        requires
            self.wf(),
        ensures
            r@.dom() == self.globals().dom().union(self.active().dom()),
            forall|k: Seq<char>| #[trigger]
                r@.contains_key(k) ==> outputs_read(
                    self.snapshot_source(k).outputs@,
                    buffer@,
                    r@[k]@,
                ),
    {
        let mut outputs = ControlOutputs::new();
        let n = self.raw_metadata.len();
        proof {
            self.raw_metadata.lemma_keys_at();
        }
        let mut i: usize = 0;
        while i < n
            invariant
                self.wf(),
                n == self.globals().len(),
                0 <= i <= n,
                outputs.wf(),
                forall|k: Seq<char>| #[trigger]
                    outputs@.contains_key(k) <==> exists|j: int|
                        0 <= j < i && self.raw_metadata.key_at(j) == k,
                forall|k: Seq<char>| #[trigger]
                    outputs@.contains_key(k) ==> self.globals().contains_key(k) && outputs_read(
                        self.globals()[k].outputs@,
                        buffer@,
                        outputs@[k]@,
                    ),
                forall|j: int| 0 <= j < n ==> self.globals().contains_key(
                    #[trigger] self.raw_metadata.key_at(j),
                ),
            decreases n - i,
        {
            let (name, def) = self.raw_metadata.entry_at(i);
            let out = def.outputs(buffer);
            outputs.insert(name.clone(), out);
            proof {
                assert forall|k: Seq<char>| #[trigger]
                    outputs@.contains_key(k) implies exists|j: int|
                    0 <= j < i + 1 && self.raw_metadata.key_at(j) == k by {
                    if k == name@ {
                        assert(self.raw_metadata.key_at(i as int) == k);
                    }
                }
            }
            i += 1;
        }
        assert forall|k: Seq<char>| #[trigger]
            self.globals().contains_key(k) implies outputs@.contains_key(k) by {
            let j = choose|j: int| 0 <= j < self.globals().len() && self.raw_metadata.key_at(j) == k;
        }
        match self.active_defs() {
            Some(defs) => {
                let m = defs.raw_defs.len();
                proof {
                    defs.raw_defs.lemma_keys_at();
                }
                let ghost from_globals = outputs@;
                let mut i: usize = 0;
                while i < m
                    invariant
                        self.wf(),
                        defs.wf(),
                        defs.raw() == self.active(),
                        m == self.active().len(),
                        0 <= i <= m,
                        outputs.wf(),
                        forall|k: Seq<char>| #[trigger]
                            outputs@.contains_key(k) <==> (self.globals().contains_key(k) || exists|
                                j: int,
                            | 0 <= j < i && defs.raw_defs.key_at(j) == k),
                        forall|k: Seq<char>| #[trigger]
                            outputs@.contains_key(k) ==> outputs_read(
                                (if exists|j: int| 0 <= j < i && defs.raw_defs.key_at(j) == k {
                                    self.active()[k]
                                } else {
                                    self.globals()[k]
                                }).outputs@,
                                buffer@,
                                outputs@[k]@,
                            ),
                        forall|j: int| 0 <= j < m ==> self.active().contains_key(
                            #[trigger] defs.raw_defs.key_at(j),
                        ),
                    decreases m - i,
                {
                    let (name, def) = defs.raw_defs.entry_at(i);
                    let out = def.outputs(buffer);
                    outputs.insert(name.clone(), out);
                    proof {
                        assert(defs.raw_defs.key_at(i as int) == name@);
                        assert forall|k: Seq<char>| #[trigger]
                            outputs@.contains_key(k) implies outputs_read(
                            (if exists|j: int| 0 <= j < i + 1 && defs.raw_defs.key_at(j) == k {
                                self.active()[k]
                            } else {
                                self.globals()[k]
                            }).outputs@,
                            buffer@,
                            outputs@[k]@,
                        ) by {
                            if k != name@ {
                                if exists|j: int| 0 <= j < i + 1 && defs.raw_defs.key_at(j) == k {
                                    let j = choose|j: int|
                                        0 <= j < i + 1 && defs.raw_defs.key_at(j) == k;
                                    assert(j < i);
                                }
                            }
                        }
                        assert forall|k: Seq<char>|
                            self.globals().contains_key(k) || exists|j: int|
                                0 <= j < i + 1 && defs.raw_defs.key_at(j) == k implies #[trigger]
                            outputs@.contains_key(k) by {
                            if k != name@ && !self.globals().contains_key(k) {
                                if exists|j: int| 0 <= j < i + 1 && defs.raw_defs.key_at(j) == k {
                                    let j = choose|j: int|
                                        0 <= j < i + 1 && defs.raw_defs.key_at(j) == k;
                                    assert(j < i);
                                }
                            }
                        }
                    }
                    i += 1;
                }
                assert forall|k: Seq<char>| #[trigger]
                    self.active().contains_key(k) implies exists|j: int|
                    0 <= j < m && defs.raw_defs.key_at(j) == k by {}
                assert(outputs@.dom() =~= self.globals().dom().union(self.active().dom()));
            },
            None => {
                assert(outputs@.dom() =~= self.globals().dom().union(self.active().dom()));
            },
        }
        outputs
    }
}

} // verus!
