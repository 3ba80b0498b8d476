//! Module descriptors and the block catalogue.
//!
//! Each dynamically loadable module advertises a constant descriptor —
//! name, description, authors, release date, semantic version, dependency
//! list and the block names it provides — and the host asks it for a
//! block by type name.  The C-stable symbol plumbing at the library
//! boundary belongs to the host; here are the descriptors and the typed
//! catalogue behind them.

use vstd::prelude::*;

verus! {

/// A semantic version.
#[derive(Clone, Copy, Debug, PartialEq, Eq, Structural)]
pub struct Version {
    pub major: u32,
    pub minor: u32,
    pub build: u32,
}

/// The constant record a module exports.
pub struct ModuleDescriptor {
    pub name: String,
    pub description: String,
    pub authors: String,
    pub release_date: String,
    pub version: Version,
    pub dependencies: Vec<String>,
    pub provides: Vec<BlockKind>,
}

/// Every block type the library provides, by module.
#[derive(Clone, Copy, Debug, PartialEq, Eq, Structural)]
pub enum BlockKind {
    Fir,
    Iir,
    MedianFilter,
    MovingAverage,
    Ss,
    Tf,
    Zpk,
    AlphaBetaGamma,
    KalmanFilter,
    Fft,
}

/// The digital-filter module: FIR, IIR, median and moving average.
pub fn filters_module() -> (d: ModuleDescriptor)
    ensures
        d.provides@ == seq![
            BlockKind::Fir,
            BlockKind::Iir,
            BlockKind::MedianFilter,
            BlockKind::MovingAverage,
        ],
{
    let mut provides: Vec<BlockKind> = Vec::new();
    provides.push(BlockKind::Fir);
    provides.push(BlockKind::Iir);
    provides.push(BlockKind::MedianFilter);
    provides.push(BlockKind::MovingAverage);
    let d = ModuleDescriptor {
        name: String::new(),
        description: String::new(),
        authors: String::new(),
        release_date: String::new(),
        version: Version { major: 0, minor: 0, build: 0 },
        dependencies: Vec::new(),
        provides,
    };
    proof {
        assert(d.provides@ =~= seq![
            BlockKind::Fir,
            BlockKind::Iir,
            BlockKind::MedianFilter,
            BlockKind::MovingAverage,
        ]);
    }
    d
}

/// The linear-time-invariant module: state-space, transfer function and
/// zero-pole-gain simulators.
pub fn lti_module() -> (d: ModuleDescriptor)
    ensures
        d.provides@ == seq![BlockKind::Zpk, BlockKind::Ss, BlockKind::Tf],
{
    let mut provides: Vec<BlockKind> = Vec::new();
    provides.push(BlockKind::Zpk);
    provides.push(BlockKind::Ss);
    provides.push(BlockKind::Tf);
    let d = ModuleDescriptor {
        name: String::new(),
        description: String::new(),
        authors: String::new(),
        release_date: String::new(),
        version: Version { major: 0, minor: 0, build: 0 },
        dependencies: Vec::new(),
        provides,
    };
    proof {
        assert(d.provides@ =~= seq![BlockKind::Zpk, BlockKind::Ss, BlockKind::Tf]);
    }
    d
}

/// The observer module: the alpha-beta-gamma tracker and the Kalman
/// filter.
pub fn observer_module() -> (d: ModuleDescriptor)
    ensures
        d.provides@ == seq![BlockKind::AlphaBetaGamma, BlockKind::KalmanFilter],
{
    let mut provides: Vec<BlockKind> = Vec::new();
    provides.push(BlockKind::AlphaBetaGamma);
    provides.push(BlockKind::KalmanFilter);
    let d = ModuleDescriptor {
        name: String::new(),
        description: String::new(),
        authors: String::new(),
        release_date: String::new(),
        version: Version { major: 0, minor: 0, build: 0 },
        dependencies: Vec::new(),
        provides,
    };
    proof {
        assert(d.provides@ =~= seq![BlockKind::AlphaBetaGamma, BlockKind::KalmanFilter]);
    }
    d
}

/// The transform module: the spectral-transform block.
pub fn transform_module() -> (d: ModuleDescriptor)
    ensures
        d.provides@ == seq![BlockKind::Fft],
        d.version == (Version { major: 1, minor: 0, build: 0 }),
{
    let mut provides: Vec<BlockKind> = Vec::new();
    provides.push(BlockKind::Fft);
    let d = ModuleDescriptor {
        name: new_string("Digital Fourier Transform"),
        description: new_string(
            "The library provides digital Fourier transform functionalities.",
        ),
        authors: new_string("Sofia Silvestri"),
        release_date: new_string("2025/12/06"),
        version: Version { major: 1, minor: 0, build: 0 },
        dependencies: Vec::new(),
        provides,
    };
    proof {
        assert(d.provides@ =~= seq![BlockKind::Fft]);
    }
    d
}

impl BlockKind {
    /// The canonical type name under which a block is requested.
    pub open spec fn spec_name(self) -> Seq<char> {
        match self {
            BlockKind::Fir => "Fir"@,
            BlockKind::Iir => "Iir"@,
            BlockKind::MedianFilter => "MedianFilter"@,
            BlockKind::MovingAverage => "MovingAverage"@,
            BlockKind::Ss => "Ss"@,
            BlockKind::Tf => "Tf"@,
            BlockKind::Zpk => "Zpk"@,
            BlockKind::AlphaBetaGamma => "AlphaBetaGamma"@,
            BlockKind::KalmanFilter => "KalmanFilter"@,
            BlockKind::Fft => "Fft"@,
        }
    }

    /// The canonical type name under which a block is requested.
    pub fn name(&self) -> (r: &'static str)
        ensures
            r@ == self.spec_name(),
    {
        match self {
            BlockKind::Fir => "Fir",
            BlockKind::Iir => "Iir",
            BlockKind::MedianFilter => "MedianFilter",
            BlockKind::MovingAverage => "MovingAverage",
            BlockKind::Ss => "Ss",
            BlockKind::Tf => "Tf",
            BlockKind::Zpk => "Zpk",
            BlockKind::AlphaBetaGamma => "AlphaBetaGamma",
            BlockKind::KalmanFilter => "KalmanFilter",
            BlockKind::Fft => "Fft",
        }
    }
}

/// The block type a requested name denotes: exactly the kind whose
/// canonical name it is, and nothing for an unknown name.
pub fn kind_of_name(name: &str) -> (r: Option<BlockKind>)
    ensures
        r matches Some(k) ==> name@ == k.spec_name(),
        r is None ==> forall|k: BlockKind| name@ != #[trigger] k.spec_name(),
{
    let owned = name.to_owned();
    if owned == new_string("Fir") {
        Some(BlockKind::Fir)
    } else if owned == new_string("Iir") {
        Some(BlockKind::Iir)
    } else if owned == new_string("MedianFilter") {
        Some(BlockKind::MedianFilter)
    } else if owned == new_string("MovingAverage") {
        Some(BlockKind::MovingAverage)
    } else if owned == new_string("Ss") {
        Some(BlockKind::Ss)
    } else if owned == new_string("Tf") {
        Some(BlockKind::Tf)
    } else if owned == new_string("Zpk") {
        Some(BlockKind::Zpk)
    } else if owned == new_string("AlphaBetaGamma") {
        Some(BlockKind::AlphaBetaGamma)
    } else if owned == new_string("KalmanFilter") {
        Some(BlockKind::KalmanFilter)
    } else if owned == new_string("Fft") {
        Some(BlockKind::Fft)
    } else {
        proof {
            assert(forall|k: BlockKind| name@ != #[trigger] k.spec_name());
        }
        None
    }
}

/// Builds an owned string from a literal.
fn new_string(s: &str) -> (r: String)
    ensures
        r@ == s@,
{
    s.to_owned()
}

} // verus!
