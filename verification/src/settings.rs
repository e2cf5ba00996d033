//! Circuit settings: the quantization and sizing parameters of one compiled
//! circuit instance, together with the circuit metrics reported by the
//! compiler.

use vstd::prelude::*;

verus! {

/// Smallest circuit size exponent the toolchain will emit.
pub const MIN_LOGROWS: u32 = 6;

/// Closed interval of values the circuit's lookup argument must cover.
#[derive(Clone, Copy, Debug, PartialEq, Eq, Structural)]
pub struct LookupRange {
    pub lo: i64,
    pub hi: i64,
}

/// Quantization and sizing parameters for one compiled circuit instance.
///
/// `input_scale` and `param_scale` are fixed-point precision exponents for
/// the inputs and the model parameters; a candidate is valid only when
/// `input_scale <= param_scale`. `logrows` is the circuit size exponent (the
/// circuit has `2^logrows` rows). `lookup_range` is the closed interval of
/// values the circuit's lookup argument must cover. The remaining fields are
/// metrics reported by the circuit compiler and carried through unchanged.
#[derive(Clone, Debug, PartialEq, Eq)]
pub struct CircuitSettings {
    pub input_scale: u32,
    pub param_scale: u32,
    pub scale_rebase_multiplier: u32,
    pub logrows: u32,
    pub lookup_range: LookupRange,
    pub required_lookups: Vec<u64>,
    pub model_input_scales: Vec<u32>,
    pub model_output_scales: Vec<u32>,
    pub num_constraints: u64,
    pub total_const_size: u64,
    pub model_instance_shapes: Vec<Vec<u64>>,
}

/// Mathematical model of [`CircuitSettings`].
#[verifier::ext_equal]
pub struct SettingsV {
    pub input_scale: u32,
    pub param_scale: u32,
    pub scale_rebase_multiplier: u32,
    pub logrows: u32,
    pub lookup_lo: i64,
    pub lookup_hi: i64,
    pub required_lookups: Seq<u64>,
    pub model_input_scales: Seq<u32>,
    pub model_output_scales: Seq<u32>,
    pub num_constraints: u64,
    pub total_const_size: u64,
    pub model_instance_shapes: Seq<Seq<u64>>,
}

impl View for CircuitSettings {
    type V = SettingsV;

    open spec fn view(&self) -> SettingsV {
        SettingsV {
            input_scale: self.input_scale,
            param_scale: self.param_scale,
            scale_rebase_multiplier: self.scale_rebase_multiplier,
            logrows: self.logrows,
            lookup_lo: self.lookup_range.lo,
            lookup_hi: self.lookup_range.hi,
            required_lookups: self.required_lookups@,
            model_input_scales: self.model_input_scales@,
            model_output_scales: self.model_output_scales@,
            num_constraints: self.num_constraints,
            total_const_size: self.total_const_size,
            model_instance_shapes: self.model_instance_shapes.deep_view(),
        }
    }
}

impl DeepView for CircuitSettings {
    type V = SettingsV;

    open spec fn deep_view(&self) -> SettingsV {
        self.view()
    }
}

/// Product of the dimensions of one instance shape (1 for the empty shape).
pub open spec fn seq_product(s: Seq<u64>) -> int
    decreases s.len(),
{
    if s.len() == 0 {
        1
    } else {
        seq_product(s.drop_last()) * s.last()
    }
}

/// Sum over all instance shapes of the product of their dimensions.
pub open spec fn shape_sum(shapes: Seq<Seq<u64>>) -> int
    decreases shapes.len(),
{
    if shapes.len() == 0 {
        0
    } else {
        shape_sum(shapes.drop_last()) + seq_product(shapes.last())
    }
}

/// A shape is a short vector of positive dimensions whose product is small
/// enough for the sizing arithmetic to stay inside `u64`.
pub open spec fn shape_wf(s: Seq<u64>) -> bool {
    &&& s.len() <= 16
    &&& (forall|i: int| 0 <= i < s.len() ==> 1 <= #[trigger] s[i])
    &&& seq_product(s) <= 0x1_0000_0000_0000
}

impl SettingsV {
    /// Well-formedness: the lookup interval is ordered and small enough that
    /// its width fits a `u64`, and the instance shapes are well formed and few
    /// enough that their product sum fits a `u64`.
    pub open spec fn wf(self) -> bool {
        &&& self.lookup_lo <= self.lookup_hi
        &&& -0x4000_0000_0000_0000 <= self.lookup_lo
        &&& self.lookup_hi < 0x4000_0000_0000_0000
        &&& self.model_instance_shapes.len() <= 0x8000
        &&& (forall|i: int|
            0 <= i < self.model_instance_shapes.len() ==> shape_wf(
                #[trigger] self.model_instance_shapes[i],
            ))
    }
}

/// One calibration trial: the pair of quantization scales together with the
/// rebase multiplier swapped into the settings template for that trial.
#[derive(Clone, Copy, Debug, PartialEq, Eq, Structural)]
pub struct Trial {
    pub input_scale: u32,
    pub param_scale: u32,
    pub scale_rebase_multiplier: u32,
}

/// Trial ranking policy for calibration.
#[derive(Clone, Copy, Debug, PartialEq, Eq, Structural)]
pub enum CalibrationTarget {
    /// Prefer the highest quantization precision, then the smallest circuit.
    Accuracy,
    /// Prefer the smallest circuit, then the highest precision. When
    /// `col_overflow` is set, the winner's `logrows` is recomputed from its
    /// lookup range and instance shapes.
    Resources { col_overflow: bool },
}

pub(crate) fn copy_u64s(v: &Vec<u64>) -> (r: Vec<u64>)
    ensures
        r@ == v@,
{
    let mut r: Vec<u64> = Vec::new();
    let mut i: usize = 0;
    while i < v.len()
        invariant
            i <= v@.len(),
            r@ == v@.take(i as int),
        decreases v@.len() - i,
    {
        r.push(v[i]);
        i = i + 1;
        proof {
            assert(r@ =~= v@.take(i as int));
        }
    }
    proof {
        assert(v@.take(v@.len() as int) =~= v@);
    }
    r
}

pub(crate) fn copy_u32s(v: &Vec<u32>) -> (r: Vec<u32>)
    ensures
        r@ == v@,
{
    let mut r: Vec<u32> = Vec::new();
    let mut i: usize = 0;
    while i < v.len()
        invariant
            i <= v@.len(),
            r@ == v@.take(i as int),
        decreases v@.len() - i,
    {
        r.push(v[i]);
        i = i + 1;
        proof {
            assert(r@ =~= v@.take(i as int));
        }
    }
    proof {
        assert(v@.take(v@.len() as int) =~= v@);
    }
    r
}

pub(crate) fn copy_bytes(v: &Vec<u8>) -> (r: Vec<u8>)
    ensures
        r@ == v@,
{
    let mut r: Vec<u8> = Vec::new();
    let mut i: usize = 0;
    while i < v.len()
        invariant
            i <= v@.len(),
            r@ == v@.take(i as int),
        decreases v@.len() - i,
    {
        r.push(v[i]);
        i = i + 1;
        proof {
            assert(r@ =~= v@.take(i as int));
        }
    }
    proof {
        assert(v@.take(v@.len() as int) =~= v@);
    }
    r
}

pub(crate) fn copy_shapes(v: &Vec<Vec<u64>>) -> (r: Vec<Vec<u64>>)
    ensures
        r.deep_view() == v.deep_view(),
{
    let mut r: Vec<Vec<u64>> = Vec::new();
    let mut i: usize = 0;
    while i < v.len()
        invariant
            i <= v@.len(),
            r@.len() == i,
            forall|k: int| 0 <= k < i ==> (#[trigger] r@[k])@ == v@[k]@,
        decreases v@.len() - i,
    {
        let cv = copy_u64s(&v[i]);
        r.push(cv);
        i = i + 1;
    }
    proof {
        assert(r.deep_view() =~~= v.deep_view());
    }
    r
}

impl CircuitSettings {
    /// An explicit copy whose model is equal to the original's.
    pub fn duplicate(&self) -> (r: CircuitSettings)
        ensures
            r@ =~= self@,
    {
        CircuitSettings {
            input_scale: self.input_scale,
            param_scale: self.param_scale,
            scale_rebase_multiplier: self.scale_rebase_multiplier,
            logrows: self.logrows,
            lookup_range: self.lookup_range,
            required_lookups: copy_u64s(&self.required_lookups),
            model_input_scales: copy_u32s(&self.model_input_scales),
            model_output_scales: copy_u32s(&self.model_output_scales),
            num_constraints: self.num_constraints,
            total_const_size: self.total_const_size,
            model_instance_shapes: copy_shapes(&self.model_instance_shapes),
        }
    }
}

/// The settings recorded for a surviving calibration batch: everything the
/// compiler found during calibration is taken from `found`, while the fields
/// that only describe the circuit's interface (`model_instance_shapes`) are
/// kept from the `base` template.
pub fn merge_calibrated(base: &CircuitSettings, found: &CircuitSettings) -> (r: CircuitSettings)
    ensures
        r.input_scale == found.input_scale,
        r.param_scale == found.param_scale,
        r.scale_rebase_multiplier == found.scale_rebase_multiplier,
        r.logrows == found.logrows,
        r.lookup_range == found.lookup_range,
        r@.required_lookups == found@.required_lookups,
        r@.model_input_scales == found@.model_input_scales,
        r@.model_output_scales == found@.model_output_scales,
        r.num_constraints == found.num_constraints,
        r.total_const_size == found.total_const_size,
        r@.model_instance_shapes == base@.model_instance_shapes,
{
    CircuitSettings {
        input_scale: found.input_scale,
        param_scale: found.param_scale,
        scale_rebase_multiplier: found.scale_rebase_multiplier,
        logrows: found.logrows,
        lookup_range: found.lookup_range,
        required_lookups: copy_u64s(&found.required_lookups),
        model_input_scales: copy_u32s(&found.model_input_scales),
        model_output_scales: copy_u32s(&found.model_output_scales),
        num_constraints: found.num_constraints,
        total_const_size: found.total_const_size,
        model_instance_shapes: copy_shapes(&base.model_instance_shapes),
    }
}

} // verus!
