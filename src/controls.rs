use vstd::prelude::*;

use crate::names::NameMap;

verus! {

/// The definitions of controls, by name.
#[derive(Debug)]
pub struct ControlDefs {
    controls: NameMap<ControlDef>,
}

impl ControlDefs {
    pub closed spec fn wf(&self) -> bool {
        self.controls.wf()
    }

    pub closed spec fn view(&self) -> Map<Seq<char>, ControlDef> {
        self.controls@
    }

    pub fn new() -> (r: ControlDefs)
        ensures
            r.wf(),
            r@ == Map::<Seq<char>, ControlDef>::empty(),
    {
        ControlDefs { controls: NameMap::new() }
    }

    pub fn insert(&mut self, name: String, def: ControlDef)
        requires
            old(self).wf(),
        ensures
            final(self).wf(),
            final(self)@ == old(self)@.insert(name@, def),
    {
        self.controls.insert(name, def);
    }

    pub fn get(&self, name: &str) -> (r: Option<&ControlDef>)
        requires
            self.wf(),
        ensures
            r is Some <==> self@.contains_key(name@),
            r is Some ==> *r.unwrap() == self@[name@],
    {
        self.controls.get(name)
    }
}

/// What a control is and what it takes and shows.
#[derive(Debug, Clone)]
pub struct ControlDef {
    pub category: String,
    pub kind: String,
    pub description: String,
    pub inputs: Vec<InputDef>,
    pub outputs: Vec<OutputDef>,
}

#[derive(Debug, Clone)]
pub struct InputDef {
    pub description: String,
    pub kind: InputDefKind,
}

/// The ways a control takes input.
#[derive(Debug, Clone)]
pub enum InputDefKind {
    FixedStep,
    SetState { max_value: usize },
    VariableStep { max_value: usize, suggested_step: usize },
    Action { argument: String },
}

#[derive(Debug, Clone)]
pub struct OutputDef {
    pub description: String,
    pub kind: OutputDefKind,
}

/// The ways a control shows its state.
#[derive(Debug, Clone)]
pub enum OutputDefKind {
    String { max_length: usize },
    Integer { max_value: usize },
}

/// A snapshot: the outputs of every active control, by name.
#[derive(Debug)]
pub struct ControlOutputs {
    inner: NameMap<Outputs>,
}

impl ControlOutputs {
    pub closed spec fn wf(&self) -> bool {
        self.inner.wf()
    }

    pub closed spec fn view(&self) -> Map<Seq<char>, Outputs> {
        self.inner@
    }

    pub fn new() -> (r: ControlOutputs)
        ensures
            r.wf(),
            r@ == Map::<Seq<char>, Outputs>::empty(),
    {
        ControlOutputs { inner: NameMap::new() }
    }

    pub fn get(&self, name: &str) -> (r: Option<&Outputs>)
        requires
            self.wf(),
        ensures
            r is Some <==> self@.contains_key(name@),
            r is Some ==> *r.unwrap() == self@[name@],
    {
        self.inner.get(name)
    }

    pub fn insert(&mut self, name: String, outputs: Outputs)
        requires
            old(self).wf(),
        ensures
            final(self).wf(),
            final(self)@ == old(self)@.insert(name@, outputs),
    {
        self.inner.insert(name, outputs);
    }

    /// Number of controls in the snapshot.
    pub fn len(&self) -> (r: usize)
        requires
            self.wf(),
        ensures
            r == self@.len(),
    {
        proof {
            self.inner.lemma_len();
        }
        self.inner.len()
    }
}

/// The outputs of one control, in the order of its definition.
#[derive(Debug, Clone, PartialEq, Eq)]
pub struct Outputs {
    inner: Vec<Output>,
}

impl Outputs {
    pub closed spec fn view(&self) -> Seq<Output> {
        self.inner@
    }

    pub fn new() -> (r: Outputs)
        ensures
            r@ == Seq::<Output>::empty(),
    {
        Outputs { inner: Vec::new() }
    }

    pub fn from_vec(inner: Vec<Output>) -> (r: Outputs)
        ensures
            r@ == inner@,
    {
        Outputs { inner }
    }

    /// An equal copy of the outputs.
    pub fn copied(&self) -> (r: Outputs)
        ensures
            r@ == self@,
    {
        let mut inner: Vec<Output> = Vec::new();
        let mut i: usize = 0;
        while i < self.inner.len()
            invariant
                0 <= i <= self@.len(),
                self@ == self.inner@,
                inner@ == self@.take(i as int),
            decreases self@.len() - i,
        {
            let item = match &self.inner[i] {
                Output::String(s) => Output::String(s.clone()),
                Output::Integer(n) => Output::Integer(*n),
            };
            inner.push(item);
            assert(self@.take(i + 1) == self@.take(i as int).push(self@[i as int]));
            i += 1;
        }
        assert(self@.take(self@.len() as int) == self@);
        Outputs { inner }
    }

    /// The list of outputs.
    pub fn as_slice(&self) -> (r: &[Output])
        ensures
            r@ == self@,
    {
        self.inner.as_slice()
    }

    /// The first string output, if any.
    pub fn into_string(self) -> (r: Option<String>)
        ensures
            r is Some <==> exists|i: int| 0 <= i < self@.len() && self@[i] is String,
            r is Some ==> exists|i: int|
                0 <= i < self@.len() && self@[i] == Output::String(r.unwrap()) && forall|j: int|
                    0 <= j < i ==> !(self@[j] is String),
    {
        let mut i: usize = 0;
        while i < self.inner.len()
            invariant
                0 <= i <= self@.len(),
                self@ == self.inner@,
                forall|j: int| 0 <= j < i ==> !(self@[j] is String),
            decreases self@.len() - i,
        {
            if let Output::String(s) = &self.inner[i] {
                let found = s.clone();
                assert(self@[i as int] == Output::String(found));
                return Some(found);
            }
            i += 1;
        }
        None
    }
}

impl From<Vec<Output>> for Outputs {
    fn from(inner: Vec<Output>) -> (r: Outputs) {
        Outputs { inner }
    }
}

impl vstd::std_specs::convert::FromSpecImpl<Vec<Output>> for Outputs {
    open spec fn obeys_from_spec() -> bool {
        true
    }

    closed spec fn from_spec(inner: Vec<Output>) -> Outputs {
        Outputs { inner }
    }
}

/// Converting a list of outputs keeps it as it is.
pub proof fn lemma_from_vec_view(inner: Vec<Output>)
    ensures
        <Outputs as vstd::std_specs::convert::FromSpec<Vec<Output>>>::from_spec(inner)@ == inner@,
{
}

/// One concrete output of a control.
#[derive(Debug, Clone, PartialEq, Eq)]
pub enum Output {
    String(String),
    Integer(i16),
}

/// A command for the simulator: set a control to a value.
#[derive(Debug, Clone)]
pub struct Input {
    name: String,
    value: InputValue,
}

/// The value of a command.
#[derive(Debug, Clone, Copy, PartialEq, Eq, Structural)]
pub enum InputValue {
    Increase,
    Decrease,
    Toggle,
    Integer(i16),
}

/// The character of a decimal digit.
pub open spec fn digit_char(d: int) -> char {
    if d == 0 {
        '0'
    } else if d == 1 {
        '1'
    } else if d == 2 {
        '2'
    } else if d == 3 {
        '3'
    } else if d == 4 {
        '4'
    } else if d == 5 {
        '5'
    } else if d == 6 {
        '6'
    } else if d == 7 {
        '7'
    } else if d == 8 {
        '8'
    } else {
        '9'
    }
}

/// The decimal digits of a natural number, most significant first.
pub open spec fn decimal_digits(n: nat) -> Seq<char>
    decreases n,
{
    if n < 10 {
        seq![digit_char(n as int)]
    } else {
        decimal_digits(n / 10).push(digit_char((n % 10) as int))
    }
}

/// An integer written in decimal, with a leading `-` when negative.
pub open spec fn decimal(n: int) -> Seq<char> {
    if n < 0 {
        seq!['-'] + decimal_digits((-n) as nat)
    } else {
        decimal_digits(n as nat)
    }
}

/// How a command value is written on the wire.
pub open spec fn value_text(v: InputValue) -> Seq<char> {
    match v {
        InputValue::Increase => seq!['I', 'N', 'C'],
        InputValue::Decrease => seq!['D', 'E', 'C'],
        InputValue::Toggle => seq!['T', 'O', 'G', 'G', 'L', 'E'],
        InputValue::Integer(i) => decimal(i as int),
    }
}

fn digit_str(d: u32) -> (r: &'static str)
    requires
        d < 10,
    ensures
        r@ == seq![digit_char(d as int)],
{
    proof {
        reveal_strlit("0");
        reveal_strlit("1");
        reveal_strlit("2");
        reveal_strlit("3");
        reveal_strlit("4");
        reveal_strlit("5");
        reveal_strlit("6");
        reveal_strlit("7");
        reveal_strlit("8");
        reveal_strlit("9");
    }
    match d {
        0 => "0",
        1 => "1",
        2 => "2",
        3 => "3",
        4 => "4",
        5 => "5",
        6 => "6",
        7 => "7",
        8 => "8",
        _ => "9",
    }
}

fn append_digits(out: &mut String, n: u32)
    ensures
        final(out)@ == old(out)@ + decimal_digits(n as nat),
    decreases n,
{
    if n >= 10 {
        append_digits(out, n / 10);
    }
    out.append(digit_str(n % 10));
    proof {
        if n >= 10 {
            assert(decimal_digits(n as nat) == decimal_digits((n / 10) as nat).push(
                digit_char((n % 10) as int),
            ));
        }
    }
}

/// An integer written in decimal.
pub fn i16_to_decimal(n: i16) -> (r: String)
    ensures
        r@ == decimal(n as int),
{
    let mut out = String::new();
    if n < 0 {
        proof {
            reveal_strlit("-");
        }
        out.append("-");
        let magnitude: u32 = (-(n as i32)) as u32;
        append_digits(&mut out, magnitude);
    } else {
        append_digits(&mut out, n as u32);
    }
    out
}

impl InputValue {
    /// The value as the simulator reads it.
    pub fn to_string(&self) -> (r: String)
        ensures
            r@ == value_text(*self),
    {
        match self {
            InputValue::Increase => {
                proof {
                    reveal_strlit("INC");
                }
                String::from_str("INC")
            },
            InputValue::Decrease => {
                proof {
                    reveal_strlit("DEC");
                }
                String::from_str("DEC")
            },
            InputValue::Toggle => {
                proof {
                    reveal_strlit("TOGGLE");
                }
                String::from_str("TOGGLE")
            },
            InputValue::Integer(i) => i16_to_decimal(*i),
        }
    }
}

impl Input {
    pub closed spec fn name(&self) -> Seq<char> {
        self.name@
    }

    pub closed spec fn value(&self) -> InputValue {
        self.value
    }

    pub fn new(name: String, value: InputValue) -> (r: Input)
        ensures
            r.name() == name@,
            r.value() == value,
    {
        Input { name, value }
    }

    /// The command as `NAME VALUE`.
    pub fn to_string(&self) -> (r: String)
        ensures
            r@ == self.name() + seq![' '] + value_text(self.value()),
    {
        proof {
            reveal_strlit(" ");
        }
        let mut out = self.name.clone();
        out.append(" ");
        let value = self.value.to_string();
        out.append(value.as_str());
        out
    }

    /// The command as one line of the uplink: `NAME VALUE` and a line feed.
    pub fn command_line(&self) -> (r: String)
        ensures
            r@ == self.name() + seq![' '] + value_text(self.value()) + seq!['\n'],
    {
        proof {
            reveal_strlit("\n");
        }
        let mut out = self.to_string();
        out.append("\n");
        out
    }
}

} // verus!
