//! The wavetable: flat sample storage and the three-level interpolation that
//! turns a position and a mix vector into one sample.

use vstd::prelude::*;
use crate::fixed::{ONE, whole, fraction, ceiling, mix_spec, mix, lemma_mix_boundaries};
use crate::settings::{ConfigError, WaveTableSettings, MAX_TABLE_SAMPLES};

verus! {

/// Why a table refuses to produce a sample.
#[derive(Clone, Copy, Debug, PartialEq, Eq)]
pub enum SampleError {
    /// The mix vector does not hold two factors per dimension.
    MixLengthMismatch,
    /// The position is not below `waveform_length - 1`.
    PositionOutOfRange,
    /// A waveform-select factor, or a blend factor of a dimension above the
    /// first, is greater than one.
    FactorOutOfRange,
}

/// Waveform-select factor of dimension `dimension_ix` in a mix vector.
pub open spec fn select_factor(mixes: Seq<u32>, dimension_ix: int) -> int {
    mixes[2 * dimension_ix] as int
}

/// Dimension-blend factor of dimension `dimension_ix` in a mix vector. The
/// one of dimension 0 is never read.
pub open spec fn blend_factor(mixes: Seq<u32>, dimension_ix: int) -> int {
    mixes[2 * dimension_ix + 1] as int
}

/// The factors that sampling reads for dimension `dimension_ix` are at most
/// one.
pub open spec fn dimension_factors_in_range(mixes: Seq<u32>, dimension_ix: int) -> bool {
    &&& select_factor(mixes, dimension_ix) <= ONE
    &&& dimension_ix >= 1 ==> blend_factor(mixes, dimension_ix) <= ONE
}

/// Every factor that sampling reads for the first `dimension_count`
/// dimensions is at most one.
pub open spec fn factors_in_range(mixes: Seq<u32>, dimension_count: int) -> bool {
    forall|d: int| 0 <= d < dimension_count ==> #[trigger] dimension_factors_in_range(mixes, d)
}

/// What a table holds: its settings and its samples, indexed as
/// `[dimension][waveform][sample]`.
#[verifier::ext_equal]
pub struct TableView {
    pub settings: WaveTableSettings,
    pub samples: Seq<i32>,
}

impl TableView {
    /// The settings are valid and the storage has exactly the length they
    /// ask for.
    pub open spec fn wf(self) -> bool {
        &&& self.settings.valid()
        &&& self.samples.len() == self.settings.total_samples()
    }

    /// Stored sample `sample_ix` of waveform `waveform_ix` of dimension
    /// `dimension_ix`.
    pub open spec fn stored(self, dimension_ix: int, waveform_ix: int, sample_ix: int) -> int {
        self.samples[self.settings.sample_index(dimension_ix, waveform_ix, sample_ix)] as int
    }

    /// Interpolation inside one waveform, between the stored samples on
    /// either side of `position`.
    pub open spec fn sample_waveform(self, dimension_ix: int, waveform_ix: int, position: int) -> int {
        mix_spec(
            fraction(position),
            self.stored(dimension_ix, waveform_ix, whole(position)),
            self.stored(dimension_ix, waveform_ix, ceiling(position)),
        )
    }

    /// Interpolation inside one dimension, between the waveforms on either
    /// side of the continuous index `waveform_position`.
    pub open spec fn sample_dimension(self, dimension_ix: int, waveform_position: int, position: int) -> int {
        mix_spec(
            fraction(waveform_position),
            self.sample_waveform(dimension_ix, whole(waveform_position), position),
            self.sample_waveform(dimension_ix, ceiling(waveform_position), position),
        )
    }

    /// Continuous waveform index that a select factor stands for: the factor
    /// scaled to `[0, waveforms_per_dimension - 1]`.
    pub open spec fn waveform_position(self, select: int) -> int {
        select * (self.settings.waveforms_per_dimension - 1)
    }

    /// Result of dimension `dimension_ix` alone for a mix vector.
    pub open spec fn dimension_sample(self, dimension_ix: int, position: int, mixes: Seq<u32>) -> int {
        self.sample_dimension(
            dimension_ix,
            self.waveform_position(select_factor(mixes, dimension_ix)),
            position,
        )
    }

    /// Accumulated result of the first `count` dimensions: dimension 0 starts
    /// the accumulator, and each further dimension is blended into it by its
    /// own blend factor.
    pub open spec fn sample_dimensions(self, position: int, mixes: Seq<u32>, count: nat) -> int
        decreases count,
    {
        if count <= 1 {
            self.dimension_sample(0, position, mixes)
        } else {
            mix_spec(
                blend_factor(mixes, count - 1),
                self.sample_dimensions(position, mixes, (count - 1) as nat),
                self.dimension_sample(count - 1, position, mixes),
            )
        }
    }

    /// The sample of the table at `position` under the mix vector `mixes`.
    pub open spec fn sample(self, position: int, mixes: Seq<u32>) -> int {
        self.sample_dimensions(position, mixes, self.settings.dimension_count as nat)
    }

    /// The first reason for which sampling is refused, or `None` where a
    /// sample is owed.
    pub open spec fn sample_error(self, position: int, mixes: Seq<u32>) -> Option<SampleError> {
        if mixes.len() != 2 * self.settings.dimension_count {
            Some(SampleError::MixLengthMismatch)
        } else if position >= self.settings.position_limit() {
            Some(SampleError::PositionOutOfRange)
        } else if !factors_in_range(mixes, self.settings.dimension_count as int) {
            Some(SampleError::FactorOutOfRange)
        } else {
            None
        }
    }
}

/// The factors that sampling reads for dimension `dimension_ix` are exactly
/// zero or exactly one.
pub open spec fn dimension_factors_at_boundaries(mixes: Seq<u32>, dimension_ix: int) -> bool {
    &&& select_factor(mixes, dimension_ix) == 0 || select_factor(mixes, dimension_ix) == ONE
    &&& dimension_ix >= 1 ==> (blend_factor(mixes, dimension_ix) == 0 || blend_factor(
        mixes,
        dimension_ix,
    ) == ONE)
}

/// Every factor that sampling reads for the first `dimension_count`
/// dimensions is exactly zero or exactly one.
pub open spec fn factors_at_boundaries(mixes: Seq<u32>, dimension_count: int) -> bool {
    forall|d: int| 0 <= d < dimension_count ==> #[trigger] dimension_factors_at_boundaries(mixes, d)
}

/// The dimension that survives the cross-fades of the first `count`
/// dimensions when every blend factor is zero or one: the last one whose
/// blend factor is one, or dimension 0 where there is none.
pub open spec fn selected_dimension(mixes: Seq<u32>, count: nat) -> int
    decreases count,
{
    if count <= 1 {
        0
    } else if blend_factor(mixes, count - 1) == ONE {
        count - 1
    } else {
        selected_dimension(mixes, (count - 1) as nat)
    }
}

impl TableView {
    /// The waveform that a select factor of zero or one picks in a
    /// dimension: the first or the last.
    pub open spec fn selected_waveform(self, mixes: Seq<u32>, dimension_ix: int) -> int {
        if select_factor(mixes, dimension_ix) == 0 {
            0
        } else {
            self.settings.waveforms_per_dimension - 1
        }
    }

    /// At a whole position, interpolation inside a waveform is a lookup of
    /// the stored sample.
    pub proof fn lemma_whole_position_is_lookup(self, dimension_ix: int, waveform_ix: int, position: int)
        requires
            fraction(position) == 0,
        ensures
            self.sample_waveform(dimension_ix, waveform_ix, position) == self.stored(
                dimension_ix,
                waveform_ix,
                whole(position),
            ),
    {
        lemma_mix_boundaries(
            self.stored(dimension_ix, waveform_ix, whole(position)),
            self.stored(dimension_ix, waveform_ix, ceiling(position)),
        );
    }

    /// With a select factor of zero or one, the result of a dimension is the
    /// interpolation inside its first or its last waveform.
    pub proof fn lemma_boundary_select(self, dimension_ix: int, position: int, mixes: Seq<u32>)
        requires
            self.settings.waveforms_per_dimension >= 1,
            select_factor(mixes, dimension_ix) == 0 || select_factor(mixes, dimension_ix) == ONE,
        ensures
            self.dimension_sample(dimension_ix, position, mixes) == self.sample_waveform(
                dimension_ix,
                self.selected_waveform(mixes, dimension_ix),
                position,
            ),
    {
        let intervals = self.settings.waveforms_per_dimension - 1;
        let waveform_position = self.waveform_position(select_factor(mixes, dimension_ix));
        assert(0 * intervals == 0) by (nonlinear_arith);
        assert(waveform_position == self.selected_waveform(mixes, dimension_ix) * 65536) by {
            assert(65536 * intervals == intervals * 65536) by (nonlinear_arith);
        }
        assert(fraction(waveform_position) == 0);
        assert(whole(waveform_position) == self.selected_waveform(mixes, dimension_ix));
        lemma_mix_boundaries(
            self.sample_waveform(dimension_ix, whole(waveform_position), position),
            self.sample_waveform(dimension_ix, ceiling(waveform_position), position),
        );
    }

    proof fn lemma_boundary_dimensions(self, position: int, mixes: Seq<u32>, count: nat)
        requires
            self.settings.waveforms_per_dimension >= 1,
            count >= 1,
            factors_at_boundaries(mixes, count as int),
        ensures
            0 <= selected_dimension(mixes, count) < count,
            self.sample_dimensions(position, mixes, count) == self.sample_waveform(
                selected_dimension(mixes, count),
                self.selected_waveform(mixes, selected_dimension(mixes, count)),
                position,
            ),
        decreases count,
    {
        if count <= 1 {
            assert(dimension_factors_at_boundaries(mixes, 0));
            self.lemma_boundary_select(0, position, mixes);
        } else {
            let d = count - 1;
            assert(dimension_factors_at_boundaries(mixes, d));
            assert forall|k: int| 0 <= k < d implies #[trigger] dimension_factors_at_boundaries(
                mixes,
                k,
            ) by {}
            self.lemma_boundary_dimensions(position, mixes, d as nat);
            self.lemma_boundary_select(d, position, mixes);
            lemma_mix_boundaries(
                self.sample_dimensions(position, mixes, d as nat),
                self.dimension_sample(d, position, mixes),
            );
        }
    }

    /// Degenerate interpolation: when every select and blend factor is
    /// exactly zero or one, the sample is the interpolation inside a single
    /// waveform of a single dimension, and at a whole position it is exactly
    /// the sample stored there.
    pub proof fn lemma_boundary_factors_give_stored_sample(self, position: int, mixes: Seq<u32>)
        requires
            self.wf(),
            0 <= position < self.settings.position_limit(),
            mixes.len() == 2 * self.settings.dimension_count,
            factors_at_boundaries(mixes, self.settings.dimension_count as int),
        ensures
            self.sample_error(position, mixes) is None,
            ({
                let d = selected_dimension(mixes, self.settings.dimension_count as nat);
                let w = self.selected_waveform(mixes, d);
                &&& 0 <= d < self.settings.dimension_count
                &&& 0 <= w < self.settings.waveforms_per_dimension
                &&& self.sample(position, mixes) == self.sample_waveform(d, w, position)
                &&& fraction(position) == 0 ==> self.sample(position, mixes) == self.stored(
                    d,
                    w,
                    whole(position),
                )
            }),
    {
        let count = self.settings.dimension_count as nat;
        self.settings.lemma_valid_bounds();
        self.lemma_boundary_dimensions(position, mixes, count);
        let d = selected_dimension(mixes, count);
        let w = self.selected_waveform(mixes, d);
        if fraction(position) == 0 {
            self.lemma_whole_position_is_lookup(d, w, position);
        }
        assert forall|k: int| 0 <= k < count implies #[trigger] dimension_factors_in_range(
            mixes,
            k,
        ) by {
            assert(dimension_factors_at_boundaries(mixes, k));
        }
    }
}

/// A wavetable: settings and the sample storage they call for.
pub struct WaveTable {
    settings: WaveTableSettings,
    samples: Vec<i32>,
}

impl View for WaveTable {
    type V = TableView;

    closed spec fn view(&self) -> TableView {
        TableView { settings: self.settings, samples: self.samples@ }
    }
}

impl WaveTable {
    /// The storage matches the settings.
    pub open spec fn wf(&self) -> bool {
        self@.wf()
    }

    /// Creates the table that `settings` describe, with every sample zero.
    /// Invalid settings are refused with the reason.
    pub fn new(settings: WaveTableSettings) -> (r: Result<WaveTable, ConfigError>)
        ensures
            match r {
                Ok(table) => {
                    &&& settings.config_error() is None
                    &&& table.wf()
                    &&& table@.settings == settings
                    &&& table@.samples == Seq::new(settings.total_samples(), |i: int| 0i32)
                },
                Err(e) => settings.config_error() == Some(e),
            },
    {
        match settings.validate() {
            Err(e) => Err(e),
            Ok(()) => {
                proof {
                    settings.lemma_valid_bounds();
                }
                let size = settings.get_wavetable_size();
                let samples: Vec<i32> = vec![0i32; size];
                assert(samples@ =~= Seq::new(settings.total_samples(), |i: int| 0i32));
                Ok(WaveTable { settings, samples })
            },
        }
    }

    /// The settings the table was created with.
    pub fn settings(&self) -> (r: &WaveTableSettings)
        ensures
            *r == self@.settings,
    {
        &self.settings
    }

    /// The sample storage, for reading.
    pub fn samples(&self) -> (r: &[i32])
        ensures
            r@ == self@.samples,
    {
        self.samples.as_slice()
    }

    /// The sample storage, for writing in place. Its length is fixed, so the
    /// table stays well formed whatever is written.
    pub fn samples_mut(&mut self) -> (r: &mut [i32])
        ensures
            r@ == old(self)@.samples,
            final(self)@ == (TableView { settings: old(self)@.settings, samples: final(r)@ }),
    {
        self.samples.as_mut_slice()
    }

    fn sample_waveform(&self, dimension_ix: usize, waveform_ix: usize, sample_ix: u64) -> (r: i32)
        requires
            self.wf(),
            dimension_ix < self@.settings.dimension_count,
            waveform_ix < self@.settings.waveforms_per_dimension,
            sample_ix < self@.settings.position_limit(),
        ensures
            r == self@.sample_waveform(dimension_ix as int, waveform_ix as int, sample_ix as int),
    {
        let ghost low = whole(sample_ix as int);
        let ghost high = ceiling(sample_ix as int);
        proof {
            self.settings.lemma_valid_bounds();
            self.settings.lemma_sample_index(dimension_ix as int, waveform_ix as int, low);
            self.settings.lemma_sample_index(dimension_ix as int, waveform_ix as int, high);
        }
        let waveform_offset_samples = dimension_ix * self.settings.get_samples_per_dimension()
            + waveform_ix * self.settings.waveform_length;
        let sample_mix = (sample_ix % 65536) as u32;
        let sample_low_ix = (sample_ix / 65536) as usize;
        let sample_hi_ix = if sample_mix == 0 {
            sample_low_ix
        } else {
            sample_low_ix + 1
        };
        let low_sample = self.samples[waveform_offset_samples + sample_low_ix];
        let high_sample = self.samples[waveform_offset_samples + sample_hi_ix];
        mix(sample_mix, low_sample, high_sample)
    }

    fn sample_dimension(&self, dimension_ix: usize, waveform_ix: u64, sample_ix: u64) -> (r: i32)
        requires
            self.wf(),
            dimension_ix < self@.settings.dimension_count,
            waveform_ix <= (self@.settings.waveforms_per_dimension - 1) * ONE,
            sample_ix < self@.settings.position_limit(),
        ensures
            r == self@.sample_dimension(dimension_ix as int, waveform_ix as int, sample_ix as int),
    {
        proof {
            self.settings.lemma_valid_bounds();
        }
        let waveform_mix = (waveform_ix % 65536) as u32;
        let waveform_low_ix = (waveform_ix / 65536) as usize;
        let waveform_hi_ix = if waveform_mix == 0 {
            waveform_low_ix
        } else {
            waveform_low_ix + 1
        };
        let low_sample = self.sample_waveform(dimension_ix, waveform_low_ix, sample_ix);
        let high_sample = self.sample_waveform(dimension_ix, waveform_hi_ix, sample_ix);
        mix(waveform_mix, low_sample, high_sample)
    }

    /// Samples the table at position `sample_ix` under the mix vector
    /// `mixes`, which holds for each dimension its waveform-select factor
    /// and its blend factor.
    pub fn get_sample(&self, sample_ix: u64, mixes: &[u32]) -> (r: Result<i32, SampleError>)
        requires
            self.wf(),
        ensures
            match r {
                Ok(sample) => {
                    &&& self@.sample_error(sample_ix as int, mixes@) is None
                    &&& sample == self@.sample(sample_ix as int, mixes@)
                },
                Err(e) => self@.sample_error(sample_ix as int, mixes@) == Some(e),
            },
    {
        proof {
            self.settings.lemma_valid_bounds();
        }
        let dimension_count = self.settings.dimension_count;
        if mixes.len() != 2 * dimension_count {
            return Err(SampleError::MixLengthMismatch);
        }
        if sample_ix >= (self.settings.waveform_length - 1) as u64 * 65536 {
            return Err(SampleError::PositionOutOfRange);
        }
        let scale = (self.settings.waveforms_per_dimension - 1) as u64;
        if mixes[0] > ONE {
            assert(!dimension_factors_in_range(mixes@, 0));
            return Err(SampleError::FactorOutOfRange);
        }
        proof {
            lemma_scaled_select(mixes[0] as int, scale as int);
        }
        let mut sample = self.sample_dimension(0, mixes[0] as u64 * scale, sample_ix);
        let mut dimension_ix: usize = 1;
        assert(dimension_factors_in_range(mixes@, 0));
        while dimension_ix < dimension_count
            invariant
                self.wf(),
                dimension_count == self@.settings.dimension_count,
                scale == self@.settings.waveforms_per_dimension - 1,
                scale < MAX_TABLE_SAMPLES,
                mixes@.len() == 2 * dimension_count,
                2 * dimension_count <= usize::MAX,
                sample_ix < self@.settings.position_limit(),
                1 <= dimension_ix <= dimension_count,
                factors_in_range(mixes@, dimension_ix as int),
                sample == self@.sample_dimensions(sample_ix as int, mixes@, dimension_ix as nat),
            decreases dimension_count - dimension_ix,
        {
            let select = mixes[dimension_ix * 2];
            let blend = mixes[dimension_ix * 2 + 1];
            if select > ONE || blend > ONE {
                assert(!dimension_factors_in_range(mixes@, dimension_ix as int));
                return Err(SampleError::FactorOutOfRange);
            }
            proof {
                lemma_scaled_select(select as int, scale as int);
            }
            let sample_for_dimension = self.sample_dimension(
                dimension_ix,
                select as u64 * scale,
                sample_ix,
            );
            sample = mix(blend, sample, sample_for_dimension);
            assert(dimension_factors_in_range(mixes@, dimension_ix as int));
            dimension_ix += 1;
        }
        Ok(sample)
    }
}

/// A select factor of at most one, scaled by the number of waveform
/// intervals, stays within them and within a `u64`.
proof fn lemma_scaled_select(select: int, scale: int)
    requires
        0 <= select <= ONE,
        0 <= scale < MAX_TABLE_SAMPLES,
    ensures
        0 <= select * scale <= scale * ONE,
        select * scale <= u64::MAX,
{
    assert(0 <= select * scale <= scale * 65536) by (nonlinear_arith)
        requires
            0 <= select <= 65536,
            0 <= scale,
    ;
}

} // verus!
