//! Table geometry: the immutable configuration of a wavetable.

use vstd::prelude::*;
use crate::fixed::ONE;

verus! {

/// Largest number of samples a table may hold. Positions keep their whole
/// part in the upper bits of a `u64`, above the sixteen fractional bits, and
/// one more bit is left free so that a phase and its increment can be added.
pub const MAX_TABLE_SAMPLES: u64 = 0x8000_0000_0000;

/// Why a set of settings cannot describe a table.
#[derive(Clone, Copy, Debug, PartialEq, Eq)]
pub enum ConfigError {
    /// `waveform_length` is below two: interpolation needs two points.
    WaveformTooShort,
    /// `dimension_count` is zero.
    NoDimensions,
    /// `waveforms_per_dimension` is zero.
    NoWaveforms,
    /// `base_frequency` is zero, so no phase increment is defined.
    ZeroBaseFrequency,
    /// The sample count exceeds `MAX_TABLE_SAMPLES` or the address space.
    TableTooLarge,
}

/// Geometry of a wavetable.
#[derive(Clone, Copy, Debug, PartialEq, Eq)]
pub struct WaveTableSettings {
    /// Number of samples in a single waveform.
    pub waveform_length: usize,
    /// Number of dimensions in the table that can be mixed.
    pub dimension_count: usize,
    /// Number of waveforms in each dimension.
    pub waveforms_per_dimension: usize,
    /// Frequency at which one stored sample lasts one output sample.
    pub base_frequency: u32,
}

impl WaveTableSettings {
    /// Number of samples stored for one dimension.
    pub open spec fn samples_per_dimension(&self) -> nat {
        (self.waveforms_per_dimension * self.waveform_length) as nat
    }

    /// Number of samples stored for the whole table.
    pub open spec fn total_samples(&self) -> nat {
        (self.dimension_count * self.samples_per_dimension()) as nat
    }

    /// The first reason, in the order of the variants of `ConfigError`, for
    /// which these settings are refused; `None` for settings that describe a
    /// table.
    pub open spec fn config_error(&self) -> Option<ConfigError> {
        if self.waveform_length < 2 {
            Some(ConfigError::WaveformTooShort)
        } else if self.dimension_count == 0 {
            Some(ConfigError::NoDimensions)
        } else if self.waveforms_per_dimension == 0 {
            Some(ConfigError::NoWaveforms)
        } else if self.base_frequency == 0 {
            Some(ConfigError::ZeroBaseFrequency)
        } else if self.total_samples() > usize::MAX || self.total_samples() > MAX_TABLE_SAMPLES {
            Some(ConfigError::TableTooLarge)
        } else {
            None
        }
    }

    /// The settings describe a table.
    pub open spec fn valid(&self) -> bool {
        self.config_error() is None
    }

    /// First position past the valid ones: `waveform_length - 1` as a
    /// fixed-point number.
    pub open spec fn position_limit(&self) -> int {
        (self.waveform_length - 1) * ONE
    }

    /// Index into the flat storage of sample `sample_ix` of waveform
    /// `waveform_ix` of dimension `dimension_ix`; the dimension varies
    /// slowest.
    pub open spec fn sample_index(&self, dimension_ix: int, waveform_ix: int, sample_ix: int) -> int {
        dimension_ix * self.samples_per_dimension() + waveform_ix * self.waveform_length + sample_ix
    }

    /// In valid settings every count is positive and no derived size exceeds
    /// the total, which fits the machine and the position range.
    pub proof fn lemma_valid_bounds(&self)
        requires
            self.valid(),
        ensures
            2 <= self.waveform_length <= self.samples_per_dimension(),
            1 <= self.waveforms_per_dimension <= self.samples_per_dimension(),
            self.samples_per_dimension() <= self.total_samples(),
            1 <= self.dimension_count,
            2 * self.dimension_count <= self.total_samples(),
            self.total_samples() <= usize::MAX,
            self.total_samples() <= MAX_TABLE_SAMPLES,
            1 <= self.base_frequency,
            ONE <= self.position_limit() <= (MAX_TABLE_SAMPLES - 1) * ONE,
    {
        let wl = self.waveform_length as int;
        let wpd = self.waveforms_per_dimension as int;
        let dc = self.dimension_count as int;
        assert(wl <= wpd * wl && wpd <= wpd * wl) by (nonlinear_arith)
            requires
                wl >= 2,
                wpd >= 1,
        ;
        assert(wpd * wl <= dc * (wpd * wl) && 2 * dc <= dc * (wpd * wl)) by (nonlinear_arith)
            requires
                wpd * wl >= 2,
                dc >= 1,
        ;
    }

    /// The three coordinates of a stored sample address a slot of the flat
    /// storage, and different coordinates address different slots.
    pub proof fn lemma_sample_index(&self, dimension_ix: int, waveform_ix: int, sample_ix: int)
        requires
            self.valid(),
            0 <= dimension_ix < self.dimension_count,
            0 <= waveform_ix < self.waveforms_per_dimension,
            0 <= sample_ix < self.waveform_length,
        ensures
            0 <= self.sample_index(dimension_ix, waveform_ix, sample_ix) < self.total_samples(),
            self.sample_index(dimension_ix, waveform_ix, sample_ix) / (self.samples_per_dimension() as int)
                == dimension_ix,
            (self.sample_index(dimension_ix, waveform_ix, sample_ix) % (self.samples_per_dimension() as int))
                / (self.waveform_length as int) == waveform_ix,
            self.sample_index(dimension_ix, waveform_ix, sample_ix) % (self.waveform_length as int)
                == sample_ix,
    {
        let wl = self.waveform_length as int;
        let wpd = self.waveforms_per_dimension as int;
        let dc = self.dimension_count as int;
        let spd = wpd * wl;
        let inner = waveform_ix * wl + sample_ix;
        assert(0 <= inner < spd) by (nonlinear_arith)
            requires
                inner == waveform_ix * wl + sample_ix,
                spd == wpd * wl,
                0 <= waveform_ix < wpd,
                0 <= sample_ix < wl,
        ;
        assert(0 <= dimension_ix * spd + inner < dc * spd) by (nonlinear_arith)
            requires
                0 <= dimension_ix < dc,
                0 <= inner < spd,
        ;
        vstd::arithmetic::div_mod::lemma_fundamental_div_mod_converse(
            dimension_ix * spd + inner,
            spd,
            dimension_ix,
            inner,
        );
        vstd::arithmetic::div_mod::lemma_fundamental_div_mod_converse(
            inner,
            wl,
            waveform_ix,
            sample_ix,
        );
        assert(dimension_ix * spd + inner == (dimension_ix * wpd + waveform_ix) * wl + sample_ix)
            by (nonlinear_arith)
            requires
                inner == waveform_ix * wl + sample_ix,
                spd == wpd * wl,
        ;
        assert(0 <= dimension_ix * wpd + waveform_ix) by (nonlinear_arith)
            requires
                0 <= dimension_ix,
                0 <= wpd,
                0 <= waveform_ix,
        ;
        vstd::arithmetic::div_mod::lemma_fundamental_div_mod_converse(
            dimension_ix * spd + inner,
            wl,
            dimension_ix * wpd + waveform_ix,
            sample_ix,
        );
    }

    /// Decides whether the settings describe a table, and if not, why.
    pub fn validate(&self) -> (r: Result<(), ConfigError>)
        ensures
            r == match self.config_error() {
                Some(e) => Err::<(), ConfigError>(e),
                None => Ok::<(), ConfigError>(()),
            },
    {
        if self.waveform_length < 2 {
            return Err(ConfigError::WaveformTooShort);
        }
        if self.dimension_count == 0 {
            return Err(ConfigError::NoDimensions);
        }
        if self.waveforms_per_dimension == 0 {
            return Err(ConfigError::NoWaveforms);
        }
        if self.base_frequency == 0 {
            return Err(ConfigError::ZeroBaseFrequency);
        }
        let ghost wl = self.waveform_length as int;
        let ghost wpd = self.waveforms_per_dimension as int;
        let ghost dc = self.dimension_count as int;
        proof {
            assert(wpd * wl <= dc * (wpd * wl)) by (nonlinear_arith)
                requires
                    wpd * wl >= 0,
                    dc >= 1,
            ;
        }
        match self.waveforms_per_dimension.checked_mul(self.waveform_length) {
            None => Err(ConfigError::TableTooLarge),
            Some(per_dimension) => match self.dimension_count.checked_mul(per_dimension) {
                None => Err(ConfigError::TableTooLarge),
                Some(total) => if total as u64 > MAX_TABLE_SAMPLES {
                    Err(ConfigError::TableTooLarge)
                } else {
                    Ok(())
                },
            },
        }
    }

    /// `waveforms_per_dimension * waveform_length`.
    pub fn get_samples_per_dimension(&self) -> (r: usize)
        requires
            self.samples_per_dimension() <= usize::MAX,
        ensures
            r == self.samples_per_dimension(),
    {
        self.waveforms_per_dimension * self.waveform_length
    }

    /// `dimension_count * waveforms_per_dimension * waveform_length`: the
    /// length of the storage of a table with these settings.
    pub fn get_wavetable_size(&self) -> (r: usize)
        requires
            self.samples_per_dimension() <= usize::MAX,
            self.total_samples() <= usize::MAX,
        ensures
            r == self.total_samples(),
    {
        self.dimension_count * self.get_samples_per_dimension()
    }
}

} // verus!
