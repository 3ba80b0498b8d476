//! Short tags naming ports and slots.
//!
//! Every port, static, state and parameter slot of a block is keyed by one of
//! these tags; `name` gives the canonical short string of each.

use vstd::prelude::*;

verus! {

/// A slot or port tag.
#[derive(Clone, Copy, Debug, PartialEq, Eq, Structural, Hash)]
pub enum Tag {
    Input,
    Output,
    RealSignal,
    ComplexSignal,
    OutputTransform,
    Control,
    Measurement,
    Order,
    Coefficient,
    ACoefficient,
    BCoefficient,
    Numerator,
    Denominator,
    X0,
    Zeros,
    Poles,
    Gain,
    MatA,
    MatB,
    MatC,
    MatD,
    MatH,
    MatQ,
    MatR,
    MatP0,
    InitialState,
    Alpha,
    Beta,
    Gamma,
    FftSize,
    Inverse,
    ComplexInput,
    InputsMemory,
    OutputsMemory,
    State,
    LastUpdate,
    Init,
    MatP,
}

impl Tag {
    /// The canonical short name of the tag.
    pub open spec fn spec_name(self) -> Seq<char> {
        match self {
            Tag::Input => "input"@,
            Tag::Output => "output"@,
            Tag::RealSignal => "real_signal"@,
            Tag::ComplexSignal => "complex_signal"@,
            Tag::OutputTransform => "output_transform"@,
            Tag::Control => "control"@,
            Tag::Measurement => "measurement"@,
            Tag::Order => "order"@,
            Tag::Coefficient => "coefficient"@,
            Tag::ACoefficient => "a_coefficient"@,
            Tag::BCoefficient => "b_coefficient"@,
            Tag::Numerator => "numerator"@,
            Tag::Denominator => "denominator"@,
            Tag::X0 => "x0"@,
            Tag::Zeros => "zeros"@,
            Tag::Poles => "poles"@,
            Tag::Gain => "gain"@,
            Tag::MatA => "A"@,
            Tag::MatB => "B"@,
            Tag::MatC => "C"@,
            Tag::MatD => "D"@,
            Tag::MatH => "H"@,
            Tag::MatQ => "Q"@,
            Tag::MatR => "R"@,
            Tag::MatP0 => "P0"@,
            Tag::InitialState => "initial_state"@,
            Tag::Alpha => "alpha"@,
            Tag::Beta => "beta"@,
            Tag::Gamma => "gamma"@,
            Tag::FftSize => "fft_size"@,
            Tag::Inverse => "inverse"@,
            Tag::ComplexInput => "complex_input"@,
            Tag::InputsMemory => "inputs_memory"@,
            Tag::OutputsMemory => "outputs_memory"@,
            Tag::State => "state"@,
            Tag::LastUpdate => "last_update"@,
            Tag::Init => "init"@,
            Tag::MatP => "P"@,
        }
    }

    /// The canonical short name of the tag.
    pub fn name(&self) -> (r: &'static str)
        ensures
            r@ == self.spec_name(),
    {
        match self {
            Tag::Input => "input",
            Tag::Output => "output",
            Tag::RealSignal => "real_signal",
            Tag::ComplexSignal => "complex_signal",
            Tag::OutputTransform => "output_transform",
            Tag::Control => "control",
            Tag::Measurement => "measurement",
            Tag::Order => "order",
            Tag::Coefficient => "coefficient",
            Tag::ACoefficient => "a_coefficient",
            Tag::BCoefficient => "b_coefficient",
            Tag::Numerator => "numerator",
            Tag::Denominator => "denominator",
            Tag::X0 => "x0",
            Tag::Zeros => "zeros",
            Tag::Poles => "poles",
            Tag::Gain => "gain",
            Tag::MatA => "A",
            Tag::MatB => "B",
            Tag::MatC => "C",
            Tag::MatD => "D",
            Tag::MatH => "H",
            Tag::MatQ => "Q",
            Tag::MatR => "R",
            Tag::MatP0 => "P0",
            Tag::InitialState => "initial_state",
            Tag::Alpha => "alpha",
            Tag::Beta => "beta",
            Tag::Gamma => "gamma",
            Tag::FftSize => "fft_size",
            Tag::Inverse => "inverse",
            Tag::ComplexInput => "complex_input",
            Tag::InputsMemory => "inputs_memory",
            Tag::OutputsMemory => "outputs_memory",
            Tag::State => "state",
            Tag::LastUpdate => "last_update",
            Tag::Init => "init",
            Tag::MatP => "P",
        }
    }
}

} // verus!
