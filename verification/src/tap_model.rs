//! The tap classifier's integer side: where a model came from, the
//! pseudo-random generator its training draws from, and the check that a
//! model's declared dimensions match its arrays before it is ever used.
//! The weights, the forward pass and training (all floating point) are the
//! caller's part; it describes a model to `validate` by its shape.
use vstd::prelude::*;
use crate::text::{decimal, decimal_chars, string_of, push_str, push_all};

verus! {

/// Bumped whenever the feature vector's order or count changes; a model
/// with another version is refused.
pub const FEATURE_SCHEMA_VERSION: u32 = 2;

/// The folder name the app's data lives under.
pub const APP_IDENTIFIER: &'static str = "org.djimic.control";

/// Where a model came from (informational).
#[derive(Clone, Copy, Debug, PartialEq, Eq, Structural)]
pub enum ModelSource {
    /// The baseline built into the binary.
    Embedded,
    /// A fit from scratch over the full dataset.
    FullRetrain,
    /// A bounded update from user feedback.
    Incremental,
}

/// The seed used in place of 0, which would keep xorshift at 0 forever.
pub const DEFAULT_SEED: u64 = 0x9E3779B97F4A7C15;

/// A small deterministic xorshift64 generator.
pub struct Rng {
    pub state: u64,
}

/// One xorshift64 step: shift left 13, right 7, left 17, each xored in.
pub open spec fn xorshift(x: u64) -> u64 {
    let a = x ^ ((x << 13u64) as u64);
    let b = a ^ (a >> 7u64);
    b ^ ((b << 17u64) as u64)
}

/// A non-zero state never steps to zero (each of the three xor-shifts can
/// be undone), which is why a zero seed is replaced.
pub proof fn law_rng_never_stalls(x: u64)
    requires
        x != 0,
    ensures
        xorshift(x) != 0,
{
    let a = x ^ ((x << 13u64) as u64);
    let b = a ^ (a >> 7u64);
    let c = b ^ ((b << 17u64) as u64);
    assert(x != 0 ==> a != 0) by (bit_vector)
        requires a == x ^ ((x << 13u64) as u64);
    assert(a != 0 ==> b != 0) by (bit_vector)
        requires b == a ^ (a >> 7u64);
    assert(b != 0 ==> c != 0) by (bit_vector)
        requires c == b ^ ((b << 17u64) as u64);
}

impl Rng {
    /// A generator seeded with `seed` (0 is replaced by `DEFAULT_SEED`).
    pub fn new(seed: u64) -> (r: Rng)
        ensures
            r.state == if seed == 0 { DEFAULT_SEED } else { seed },
    {
        Rng { state: if seed == 0 { DEFAULT_SEED } else { seed } }
    }

    /// Advances the state one step and returns it; the caller scales it to
    /// a number in `[-1, 1]`.
    pub fn next_u64(&mut self) -> (v: u64)
        ensures
            v == xorshift(old(self).state),
            final(self).state == v,
    {
        let mut x = self.state;
        x = x ^ (x << 13u64);
        x = x ^ (x >> 7u64);
        x = x ^ (x << 17u64);
        self.state = x;
        x
    }
}

/// A model as `validate` sees it: its declared dimensions and the lengths
/// of its arrays (`*_rows` hold the length of each row), plus whether every
/// normalisation deviation is positive and finite.
pub struct ModelShape {
    pub feature_schema_version: u32,
    pub n_features: usize,
    pub n_hidden: usize,
    pub n_classes: usize,
    pub n_bands: usize,
    pub conv_channels: usize,
    pub conv_kernel: usize,
    pub conv_w_rows: Vec<usize>,
    pub conv_b_len: usize,
    pub w1_rows: Vec<usize>,
    pub b1_len: usize,
    pub w2_rows: Vec<usize>,
    pub b2_len: usize,
    pub mean_len: usize,
    pub std_len: usize,
    pub class_names_len: usize,
    pub std_positive_finite: bool,
}

/// Whether every row has length `n`.
pub open spec fn rows_are(rows: Seq<usize>, n: usize) -> bool {
    forall|i: int| 0 <= i < rows.len() ==> #[trigger] rows[i] == n
}

/// What validation finds wrong first, in the order the checks run.
#[derive(Clone, Copy, Debug, PartialEq, Eq, Structural)]
pub enum ShapeError {
    SchemaMismatch,
    Degenerate,
    BandsExceedFeatures,
    KernelNotOdd,
    NoChannels,
    ConvW,
    ConvB,
    ConvFieldsNotEmpty,
    W1,
    B1,
    W2,
    B2,
    MeanStd,
    ClassNames,
    StdNotPositive,
}

/// The first failing check, if any.
pub open spec fn shape_error(m: ModelShape) -> Option<ShapeError> {
    if m.feature_schema_version != FEATURE_SCHEMA_VERSION {
        Some(ShapeError::SchemaMismatch)
    } else if m.n_features == 0 || m.n_hidden == 0 || m.n_classes < 2 {
        Some(ShapeError::Degenerate)
    } else if m.n_bands > m.n_features {
        Some(ShapeError::BandsExceedFeatures)
    } else if m.n_bands > 0 && (m.conv_kernel == 0 || m.conv_kernel % 2 == 0) {
        Some(ShapeError::KernelNotOdd)
    } else if m.n_bands > 0 && m.conv_channels == 0 {
        Some(ShapeError::NoChannels)
    } else if m.n_bands > 0 && (m.conv_w_rows@.len() != m.conv_channels || !rows_are(m.conv_w_rows@, m.conv_kernel)) {
        Some(ShapeError::ConvW)
    } else if m.n_bands > 0 && m.conv_b_len != m.conv_channels {
        Some(ShapeError::ConvB)
    } else if m.n_bands == 0 && (m.conv_channels != 0 || m.conv_kernel != 0 || m.conv_w_rows@.len() != 0 || m.conv_b_len != 0) {
        Some(ShapeError::ConvFieldsNotEmpty)
    } else if m.w1_rows@.len() != hidden_input_dim(m) || !rows_are(m.w1_rows@, m.n_hidden) {
        Some(ShapeError::W1)
    } else if m.b1_len != m.n_hidden {
        Some(ShapeError::B1)
    } else if m.w2_rows@.len() != m.n_hidden || !rows_are(m.w2_rows@, m.n_classes) {
        Some(ShapeError::W2)
    } else if m.b2_len != m.n_classes {
        Some(ShapeError::B2)
    } else if m.mean_len != m.n_features || m.std_len != m.n_features {
        Some(ShapeError::MeanStd)
    } else if m.class_names_len != m.n_classes {
        Some(ShapeError::ClassNames)
    } else if !m.std_positive_finite {
        Some(ShapeError::StdNotPositive)
    } else {
        None
    }
}

/// The width of the dense layer's input: the scalar features plus one per
/// convolution channel (the sum wraps at the width of `usize`, as the
/// counting does in a release build).
pub open spec fn hidden_input_dim(m: ModelShape) -> usize {
    (((m.n_features - m.n_bands) as int + m.conv_channels as int) % (usize::MAX as int + 1)) as usize
}

/// The message for each failed check.
pub open spec fn shape_message(m: ModelShape, e: ShapeError) -> Seq<char> {
    match e {
        ShapeError::SchemaMismatch => "feature schema mismatch: file has "@ + decimal(m.feature_schema_version as nat)
            + ", this build expects "@ + decimal(FEATURE_SCHEMA_VERSION as nat),
        ShapeError::Degenerate => "degenerate dimensions: n_features="@ + decimal(m.n_features as nat)
            + " n_hidden="@ + decimal(m.n_hidden as nat) + " n_classes="@ + decimal(m.n_classes as nat),
        ShapeError::BandsExceedFeatures => "n_bands exceeds n_features"@,
        ShapeError::KernelNotOdd => "conv_kernel must be a positive odd number"@,
        ShapeError::NoChannels => "conv_channels must be positive when n_bands > 0"@,
        ShapeError::ConvW => "conv_w shape mismatch"@,
        ShapeError::ConvB => "conv_b shape mismatch"@,
        ShapeError::ConvFieldsNotEmpty => "conv fields must be empty/zero when n_bands is 0"@,
        ShapeError::W1 => "w1 shape mismatch"@,
        ShapeError::B1 => "b1 shape mismatch"@,
        ShapeError::W2 => "w2 shape mismatch"@,
        ShapeError::B2 => "b2 shape mismatch"@,
        ShapeError::MeanStd => "mean/std shape mismatch"@,
        ShapeError::ClassNames => "class_names shape mismatch"@,
        ShapeError::StdNotPositive => "std must be positive and finite"@,
    }
}

/// Whether every row has length `n`.
fn all_rows(rows: &Vec<usize>, n: usize) -> (r: bool)
    ensures
        r == rows_are(rows@, n),
{
    let len = rows.len();
    let mut i: usize = 0;
    while i < len
        invariant
            len == rows@.len(),
            i <= len,
            forall|j: int| 0 <= j < i ==> #[trigger] rows@[j] == n,
        decreases len - i,
    {
        if rows[i] != n {
            return false;
        }
        i += 1;
    }
    true
}

/// The first failing shape check (see `shape_error`).
pub fn check_shape(m: &ModelShape) -> (e: Option<ShapeError>)
    ensures
        e == shape_error(*m),
{
    if m.feature_schema_version != FEATURE_SCHEMA_VERSION {
        return Some(ShapeError::SchemaMismatch);
    }
    if m.n_features == 0 || m.n_hidden == 0 || m.n_classes < 2 {
        return Some(ShapeError::Degenerate);
    }
    if m.n_bands > m.n_features {
        return Some(ShapeError::BandsExceedFeatures);
    }
    if m.n_bands > 0 {
        if m.conv_kernel == 0 || m.conv_kernel % 2 == 0 {
            return Some(ShapeError::KernelNotOdd);
        }
        if m.conv_channels == 0 {
            return Some(ShapeError::NoChannels);
        }
        if m.conv_w_rows.len() != m.conv_channels || !all_rows(&m.conv_w_rows, m.conv_kernel) {
            return Some(ShapeError::ConvW);
        }
        if m.conv_b_len != m.conv_channels {
            return Some(ShapeError::ConvB);
        }
    } else if m.conv_channels != 0 || m.conv_kernel != 0 || m.conv_w_rows.len() != 0 || m.conv_b_len != 0 {
        return Some(ShapeError::ConvFieldsNotEmpty);
    }
    let hidden_input_dim = (m.n_features - m.n_bands).wrapping_add(m.conv_channels);
    if m.w1_rows.len() != hidden_input_dim || !all_rows(&m.w1_rows, m.n_hidden) {
        return Some(ShapeError::W1);
    }
    if m.b1_len != m.n_hidden {
        return Some(ShapeError::B1);
    }
    if m.w2_rows.len() != m.n_hidden || !all_rows(&m.w2_rows, m.n_classes) {
        return Some(ShapeError::W2);
    }
    if m.b2_len != m.n_classes {
        return Some(ShapeError::B2);
    }
    if m.mean_len != m.n_features || m.std_len != m.n_features {
        return Some(ShapeError::MeanStd);
    }
    if m.class_names_len != m.n_classes {
        return Some(ShapeError::ClassNames);
    }
    if !m.std_positive_finite {
        return Some(ShapeError::StdNotPositive);
    }
    None
}

/// The message for a failed check (see `shape_message`).
pub fn shape_error_message(m: &ModelShape, e: ShapeError) -> (s: String)
    ensures
        s@ == shape_message(*m, e),
{
    let mut v: Vec<char> = Vec::new();
    match e {
        ShapeError::SchemaMismatch => {
            push_str(&mut v, "feature schema mismatch: file has ");
            push_all(&mut v, &decimal_chars(m.feature_schema_version as u64));
            push_str(&mut v, ", this build expects ");
            push_all(&mut v, &decimal_chars(FEATURE_SCHEMA_VERSION as u64));
        },
        ShapeError::Degenerate => {
            push_str(&mut v, "degenerate dimensions: n_features=");
            push_all(&mut v, &decimal_chars(m.n_features as u64));
            push_str(&mut v, " n_hidden=");
            push_all(&mut v, &decimal_chars(m.n_hidden as u64));
            push_str(&mut v, " n_classes=");
            push_all(&mut v, &decimal_chars(m.n_classes as u64));
        },
        ShapeError::BandsExceedFeatures => push_str(&mut v, "n_bands exceeds n_features"),
        ShapeError::KernelNotOdd => push_str(&mut v, "conv_kernel must be a positive odd number"),
        ShapeError::NoChannels => push_str(&mut v, "conv_channels must be positive when n_bands > 0"),
        ShapeError::ConvW => push_str(&mut v, "conv_w shape mismatch"),
        ShapeError::ConvB => push_str(&mut v, "conv_b shape mismatch"),
        ShapeError::ConvFieldsNotEmpty => push_str(&mut v, "conv fields must be empty/zero when n_bands is 0"),
        ShapeError::W1 => push_str(&mut v, "w1 shape mismatch"),
        ShapeError::B1 => push_str(&mut v, "b1 shape mismatch"),
        ShapeError::W2 => push_str(&mut v, "w2 shape mismatch"),
        ShapeError::B2 => push_str(&mut v, "b2 shape mismatch"),
        ShapeError::MeanStd => push_str(&mut v, "mean/std shape mismatch"),
        ShapeError::ClassNames => push_str(&mut v, "class_names shape mismatch"),
        ShapeError::StdNotPositive => push_str(&mut v, "std must be positive and finite"),
    }
    proof {
        assert(v@ =~= shape_message(*m, e));
    }
    string_of(&v)
}

/// Cross-checks every array's shape against the declared dimensions, and
/// the schema version against this build's: `Ok` exactly when every check
/// passes, otherwise the first failure's message.
pub fn validate(m: &ModelShape) -> (r: Result<(), String>)
    ensures
        match shape_error(*m) {
            None => r is Ok,
            Some(e) => r matches Err(msg) && msg@ == shape_message(*m, e),
        },
{
    match check_shape(m) {
        None => Ok(()),
        Some(e) => Err(shape_error_message(m, e)),
    }
}

} // verus!
