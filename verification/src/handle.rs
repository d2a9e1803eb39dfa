//! A voice playing out of a wavetable: the playback phase, the block
//! buffers, and the loop that fills a block with samples.

use vstd::prelude::*;
use crate::fixed::ONE;
use crate::settings::WaveTableSettings;
use crate::table::{
    SampleError, TableView, WaveTable, blend_factor, dimension_factors_in_range, factors_in_range,
    select_factor,
};

verus! {

/// Frequency that new slots of a frequency buffer are filled with: 440.0.
pub const DEFAULT_FREQUENCY: u32 = 28835840;

/// Why a block of samples cannot be generated.
#[derive(Clone, Copy, Debug, PartialEq, Eq)]
pub enum GenerateError {
    /// The mix scratch of the handle does not hold two factors per
    /// dimension of the table.
    ScratchLengthMismatch,
    /// The phase of the handle is not below `waveform_length - 1`.
    PositionOutOfRange,
    /// The mix input buffer holds fewer than
    /// `sample_count * dimension_count * 2` factors.
    MixBufferTooShort,
    /// The frequency buffer holds fewer than `sample_count` frequencies.
    FrequencyBufferTooShort,
    /// A factor that the block reads is greater than one.
    FactorOutOfRange,
}

/// A buffer after a request for at least `len` slots: unchanged where it is
/// long enough, else extended to `len` slots with `fill`.
pub open spec fn grown<T>(buffer: Seq<T>, len: nat, fill: T) -> Seq<T> {
    if buffer.len() >= len {
        buffer
    } else {
        buffer + Seq::new((len - buffer.len()) as nat, |i: int| fill)
    }
}

/// Growth never shrinks a buffer, reaches the length asked for, keeps what
/// was written and fills the new slots.
pub proof fn lemma_grown_keeps_content<T>(buffer: Seq<T>, len: nat, fill: T)
    ensures
        grown(buffer, len, fill).len() >= buffer.len(),
        grown(buffer, len, fill).len() >= len,
        grown(buffer, len, fill).len() == buffer.len() || grown(buffer, len, fill).len() == len,
        forall|i: int| 0 <= i < buffer.len() ==> grown(buffer, len, fill)[i] == buffer[i],
        forall|i: int| buffer.len() <= i < len ==> grown(buffer, len, fill)[i] == fill,
{
}

/// Growth is idempotent and monotonic: after a request for `first` slots, a
/// request for as many or fewer changes nothing.
pub proof fn lemma_grown_again<T>(buffer: Seq<T>, first: nat, second: nat, fill: T)
    requires
        second <= first,
    ensures
        grown(grown(buffer, first, fill), second, fill) == grown(buffer, first, fill),
{
}

/// Slot of the flat mix input buffer that holds, for a block of
/// `sample_count` samples, factor `slot` (0: waveform select, 1: blend) of
/// dimension `dimension_ix` for sample `sample_ix`.
pub open spec fn mix_slot(dimension_ix: int, slot: int, sample_count: int, sample_ix: int) -> int {
    dimension_ix * 2 * sample_count + slot * sample_count + sample_ix
}

/// Number of factors that a block of `sample_count` samples reads from the
/// mix input buffer.
pub open spec fn mix_input_len(dimension_count: int, sample_count: int) -> int {
    sample_count * dimension_count * 2
}

/// The mix vector of sample `sample_ix` of a block, gathered from the flat
/// mix input buffer.
pub open spec fn unpacked_mixes(
    mixes: Seq<u32>,
    dimension_count: nat,
    sample_count: nat,
    sample_ix: int,
) -> Seq<u32> {
    Seq::new(
        2 * dimension_count,
        |k: int| mixes[mix_slot(k / 2, k % 2, sample_count as int, sample_ix)],
    )
}

/// Every slot of the layout lies inside the part of the input buffer that
/// the block reads, and the layout can be read back: the slot determines the
/// dimension, the factor and the sample it belongs to.
pub proof fn lemma_mix_slot(
    dimension_count: int,
    sample_count: int,
    dimension_ix: int,
    slot: int,
    sample_ix: int,
)
    requires
        0 <= dimension_ix < dimension_count,
        0 <= slot < 2,
        0 <= sample_ix < sample_count,
    ensures
        0 <= mix_slot(dimension_ix, slot, sample_count, sample_ix) < mix_input_len(
            dimension_count,
            sample_count,
        ),
        mix_slot(dimension_ix, slot, sample_count, sample_ix) / (2 * sample_count) == dimension_ix,
        (mix_slot(dimension_ix, slot, sample_count, sample_ix) % (2 * sample_count)) / sample_count
            == slot,
        mix_slot(dimension_ix, slot, sample_count, sample_ix) % sample_count == sample_ix,
        0 <= dimension_ix * 2 * sample_count <= mix_slot(dimension_ix, slot, sample_count, sample_ix),
        slot == 0 ==> mix_slot(dimension_ix, slot, sample_count, sample_ix) == dimension_ix * 2
            * sample_count + sample_ix,
        slot == 1 ==> mix_slot(dimension_ix, slot, sample_count, sample_ix) == dimension_ix * 2
            * sample_count + sample_count + sample_ix,
{
    let n = sample_count;
    let inner = slot * n + sample_ix;
    assert(0 <= inner < 2 * n) by (nonlinear_arith)
        requires
            inner == slot * n + sample_ix,
            0 <= slot < 2,
            0 <= sample_ix < n,
    ;
    assert(dimension_ix * 2 * n == dimension_ix * (2 * n)) by (nonlinear_arith);
    assert(0 <= dimension_ix * (2 * n) + inner < n * dimension_count * 2) by (nonlinear_arith)
        requires
            0 <= dimension_ix < dimension_count,
            0 <= inner < 2 * n,
    ;
    vstd::arithmetic::div_mod::lemma_fundamental_div_mod_converse(
        dimension_ix * (2 * n) + inner,
        2 * n,
        dimension_ix,
        inner,
    );
    vstd::arithmetic::div_mod::lemma_fundamental_div_mod_converse(inner, n, slot, sample_ix);
    assert(dimension_ix * (2 * n) + inner == (dimension_ix * 2 + slot) * n + sample_ix)
        by (nonlinear_arith)
        requires
            inner == slot * n + sample_ix,
    ;
    vstd::arithmetic::div_mod::lemma_fundamental_div_mod_converse(
        dimension_ix * (2 * n) + inner,
        n,
        dimension_ix * 2 + slot,
        sample_ix,
    );
}

/// Unpacking reads back what the layout placed: in the mix vector of sample
/// `sample_ix`, the two factors of dimension `dimension_ix` are the values
/// at that dimension's two slots for that sample.
pub proof fn lemma_unpacked_mixes(
    mixes: Seq<u32>,
    dimension_count: nat,
    sample_count: nat,
    sample_ix: int,
    dimension_ix: int,
)
    requires
        0 <= dimension_ix < dimension_count,
        0 <= sample_ix < sample_count,
    ensures
        unpacked_mixes(mixes, dimension_count, sample_count, sample_ix).len() == 2 * dimension_count,
        select_factor(unpacked_mixes(mixes, dimension_count, sample_count, sample_ix), dimension_ix)
            == mixes[dimension_ix * 2 * sample_count + sample_ix],
        blend_factor(unpacked_mixes(mixes, dimension_count, sample_count, sample_ix), dimension_ix)
            == mixes[dimension_ix * 2 * sample_count + sample_count + sample_ix],
{
    assert(mix_slot(dimension_ix, 0, sample_count as int, sample_ix) == dimension_ix * 2
        * sample_count + sample_ix) by (nonlinear_arith);
    assert(mix_slot(dimension_ix, 1, sample_count as int, sample_ix) == dimension_ix * 2
        * sample_count + sample_count + sample_ix) by (nonlinear_arith);
}

/// Phase increment for one output sample at `frequency`:
/// `frequency / base_frequency`, rounded down.
pub open spec fn sample_ix_offset(settings: WaveTableSettings, frequency: int) -> int {
    frequency * ONE / (settings.base_frequency as int)
}

/// The phase after one output sample at `frequency`: advanced by the
/// increment, and wrapped once it reaches `waveform_length - 1`.
pub open spec fn advanced(settings: WaveTableSettings, sample_ix: int, frequency: int) -> int {
    let next = sample_ix + sample_ix_offset(settings, frequency);
    if next >= settings.position_limit() {
        next % settings.position_limit()
    } else {
        next
    }
}

/// The phase after the first `count` samples of a block that starts at
/// `start` and plays at `frequencies`.
pub open spec fn sample_ix_after(
    settings: WaveTableSettings,
    start: int,
    frequencies: Seq<u32>,
    count: nat,
) -> int
    decreases count,
{
    if count == 0 {
        start
    } else {
        advanced(
            settings,
            sample_ix_after(settings, start, frequencies, (count - 1) as nat),
            frequencies[count - 1] as int,
        )
    }
}

/// The phase increment is non-negative and fits beside any valid phase in a
/// `u64`, and an advanced phase is a valid position again.
pub proof fn lemma_advanced_in_range(settings: WaveTableSettings, sample_ix: int, frequency: int)
    requires
        settings.valid(),
        0 <= sample_ix < settings.position_limit(),
        0 <= frequency <= u32::MAX,
    ensures
        0 <= sample_ix_offset(settings, frequency) <= frequency * ONE,
        sample_ix + sample_ix_offset(settings, frequency) <= u64::MAX,
        0 <= advanced(settings, sample_ix, frequency) < settings.position_limit(),
{
    settings.lemma_valid_bounds();
    let base = settings.base_frequency as int;
    let scaled = frequency * 65536;
    assert(0 <= scaled / base <= scaled) by (nonlinear_arith)
        requires
            0 <= scaled,
            1 <= base,
    ;
    let limit = settings.position_limit();
    let next = sample_ix + sample_ix_offset(settings, frequency);
    assert(0 <= next % limit < limit) by (nonlinear_arith)
        requires
            limit > 0,
    ;
}

/// Playing at the base frequency moves the phase by exactly one stored
/// sample, and a phase that reaches `waveform_length - 1` continues from
/// where it overshot.
pub proof fn lemma_base_frequency_advances_by_one(settings: WaveTableSettings, sample_ix: int)
    requires
        settings.valid(),
        0 <= sample_ix < settings.position_limit(),
    ensures
        sample_ix_offset(settings, settings.base_frequency as int) == ONE,
        advanced(settings, sample_ix, settings.base_frequency as int) == if sample_ix + ONE
            >= settings.position_limit() {
            sample_ix + ONE - settings.position_limit()
        } else {
            sample_ix + ONE
        },
{
    settings.lemma_valid_bounds();
    let base = settings.base_frequency as int;
    assert(base * 65536 / base == 65536) by (nonlinear_arith)
        requires
            base >= 1,
    ;
    let limit = settings.position_limit();
    let next = sample_ix + 65536;
    if next >= limit {
        vstd::arithmetic::div_mod::lemma_fundamental_div_mod_converse(next, limit, 1, next - limit);
    }
}

/// Without a wrap the phase never moves backwards.
pub proof fn lemma_advance_is_monotonic(settings: WaveTableSettings, sample_ix: int, frequency: int)
    requires
        settings.valid(),
        0 <= sample_ix < settings.position_limit(),
        0 <= frequency <= u32::MAX,
        sample_ix + sample_ix_offset(settings, frequency) < settings.position_limit(),
    ensures
        advanced(settings, sample_ix, frequency) == sample_ix + sample_ix_offset(settings, frequency),
        advanced(settings, sample_ix, frequency) >= sample_ix,
{
    lemma_advanced_in_range(settings, sample_ix, frequency);
}

/// What a handle holds.
#[verifier::ext_equal]
pub struct HandleView {
    pub table: usize,
    pub sample_ix: u64,
    pub mixes: Seq<u32>,
    pub mixes_for_sample: Seq<u32>,
    pub sample_buffer: Seq<i32>,
    pub frequencies_buffer: Seq<u32>,
}

/// A single voice playing out of a wavetable.
pub struct WaveTableHandle {
    /// Identifier of the table the voice plays.
    pub table: usize,
    /// The current position along the sample axis of the waveforms.
    pub sample_ix: u64,
    /// Mix factors of a whole block, in the layout of `mix_slot`.
    pub mixes: Vec<u32>,
    /// Mix vector of the sample being produced: select and blend factor of
    /// each dimension.
    pub mixes_for_sample: Vec<u32>,
    /// The buffer into which the samples of a block are written.
    pub sample_buffer: Vec<i32>,
    /// The frequency at which each sample of a block plays.
    pub frequencies_buffer: Vec<u32>,
}

impl View for WaveTableHandle {
    type V = HandleView;

    open spec fn view(&self) -> HandleView {
        HandleView {
            table: self.table,
            sample_ix: self.sample_ix,
            mixes: self.mixes@,
            mixes_for_sample: self.mixes_for_sample@,
            sample_buffer: self.sample_buffer@,
            frequencies_buffer: self.frequencies_buffer@,
        }
    }
}

/// Requests at least `len` slots of `buffer`, filling new ones with `fill`.
pub fn grow<T: Copy>(buffer: &mut Vec<T>, len: usize, fill: T)
    ensures
        final(buffer)@ == grown(old(buffer)@, len as nat, fill),
{
    while buffer.len() < len
        invariant
            buffer@.len() >= old(buffer)@.len(),
            buffer@.len() > old(buffer)@.len() ==> buffer@.len() <= len,
            buffer@ == old(buffer)@ + Seq::new(
                (buffer@.len() - old(buffer)@.len()) as nat,
                |i: int| fill,
            ),
        decreases len - buffer.len(),
    {
        buffer.push(fill);
    }
}

/// Every factor that a block of `sample_count` samples reads is at most one.
pub open spec fn block_factors_in_range(mixes: Seq<u32>, dimension_count: nat, sample_count: nat) -> bool {
    forall|i: int|
        0 <= i < sample_count ==> #[trigger] factors_in_range(
            unpacked_mixes(mixes, dimension_count, sample_count, i),
            dimension_count as int,
        )
}

/// The first reason for which a handle cannot generate a block of
/// `sample_count` samples out of a table, or `None` where the block is owed.
pub open spec fn block_error(table: TableView, handle: HandleView, sample_count: nat) -> Option<
    GenerateError,
> {
    let dimension_count = table.settings.dimension_count;
    if handle.mixes_for_sample.len() != 2 * dimension_count {
        Some(GenerateError::ScratchLengthMismatch)
    } else if handle.sample_ix >= table.settings.position_limit() {
        Some(GenerateError::PositionOutOfRange)
    } else if handle.mixes.len() < mix_input_len(dimension_count as int, sample_count as int) {
        Some(GenerateError::MixBufferTooShort)
    } else if handle.frequencies_buffer.len() < sample_count {
        Some(GenerateError::FrequencyBufferTooShort)
    } else if !block_factors_in_range(handle.mixes, dimension_count as nat, sample_count) {
        Some(GenerateError::FactorOutOfRange)
    } else {
        None
    }
}

/// Sample `sample_ix` of a block: the table sampled at the phase reached
/// after the samples before it, under the mix vector unpacked for it.
pub open spec fn block_sample(table: TableView, handle: HandleView, sample_count: nat, sample_ix: int) -> int {
    table.sample(
        sample_ix_after(
            table.settings,
            handle.sample_ix as int,
            handle.frequencies_buffer,
            sample_ix as nat,
        ),
        unpacked_mixes(
            handle.mixes,
            table.settings.dimension_count as nat,
            sample_count,
            sample_ix,
        ),
    )
}

/// The handle after a block of `sample_count` samples: the output buffer
/// holds the block in its first slots, the phase has advanced once per
/// sample, the scratch holds the mix vector of the last sample, and the
/// input buffers are untouched.
pub open spec fn generated(table: TableView, handle: HandleView, sample_count: nat) -> HandleView {
    HandleView {
        table: handle.table,
        sample_ix: sample_ix_after(
            table.settings,
            handle.sample_ix as int,
            handle.frequencies_buffer,
            sample_count,
        ) as u64,
        mixes: handle.mixes,
        mixes_for_sample: if sample_count == 0 {
            handle.mixes_for_sample
        } else {
            unpacked_mixes(
                handle.mixes,
                table.settings.dimension_count as nat,
                sample_count,
                sample_count - 1,
            )
        },
        sample_buffer: Seq::new(
            grown(handle.sample_buffer, sample_count, 0i32).len(),
            |k: int|
                if k < sample_count {
                    block_sample(table, handle, sample_count, k) as i32
                } else {
                    handle.sample_buffer[k]
                },
        ),
        frequencies_buffer: handle.frequencies_buffer,
    }
}

impl WaveTableHandle {
    /// Creates a voice bound to the table with identifier `table_id`: phase
    /// zero, empty block buffers, and a zeroed mix scratch sized for the
    /// dimensions of `table`.
    pub fn new(table_id: usize, table: &WaveTable) -> (handle: WaveTableHandle)
        requires
            table.wf(),
        ensures
            handle@ == (HandleView {
                table: table_id,
                sample_ix: 0,
                mixes: Seq::empty(),
                mixes_for_sample: Seq::new(
                    2 * table@.settings.dimension_count as nat,
                    |i: int| 0u32,
                ),
                sample_buffer: Seq::empty(),
                frequencies_buffer: Seq::empty(),
            }),
    {
        proof {
            table@.settings.lemma_valid_bounds();
        }
        let mixes_for_sample: Vec<u32> = vec![0u32; 2 * table.settings().dimension_count];
        assert(mixes_for_sample@ =~= Seq::new(
            2 * table@.settings.dimension_count as nat,
            |i: int| 0u32,
        ));
        WaveTableHandle {
            table: table_id,
            sample_ix: 0,
            mixes: Vec::new(),
            mixes_for_sample,
            sample_buffer: Vec::new(),
            frequencies_buffer: Vec::new(),
        }
    }

    fn get_sample_ix_offset(&self, table: &WaveTable, frequency: u32) -> (offset: u64)
        requires
            table.wf(),
        ensures
            offset == sample_ix_offset(table@.settings, frequency as int),
    {
        proof {
            table@.settings.lemma_valid_bounds();
        }
        frequency as u64 * 65536 / table.settings().base_frequency as u64
    }

    /// Produces the next sample of the voice: the table sampled at the
    /// current phase under the mix scratch. The phase then advances by
    /// `frequency / base_frequency` and wraps at `waveform_length - 1`.
    /// Where the table refuses the sample, the handle is left as it was.
    pub fn get_sample(&mut self, table: &WaveTable, frequency: u32) -> (r: Result<i32, SampleError>)
        requires
            table.wf(),
        ensures
            match r {
                Ok(sample) => {
                    &&& table@.sample_error(old(self)@.sample_ix as int, old(self)@.mixes_for_sample)
                        is None
                    &&& sample == table@.sample(
                        old(self)@.sample_ix as int,
                        old(self)@.mixes_for_sample,
                    )
                    &&& final(self)@ == (HandleView {
                        sample_ix: advanced(
                            table@.settings,
                            old(self)@.sample_ix as int,
                            frequency as int,
                        ) as u64,
                        ..old(self)@
                    })
                    &&& final(self)@.sample_ix < table@.settings.position_limit()
                },
                Err(e) => {
                    &&& table@.sample_error(old(self)@.sample_ix as int, old(self)@.mixes_for_sample)
                        == Some(e)
                    &&& final(self)@ == old(self)@
                },
            },
    {
        // Pull the sample out of the table before the phase moves.
        let sample = match table.get_sample(self.sample_ix, self.mixes_for_sample.as_slice()) {
            Ok(sample) => sample,
            Err(e) => {
                return Err(e);
            },
        };
        proof {
            table@.settings.lemma_valid_bounds();
            lemma_advanced_in_range(table@.settings, self.sample_ix as int, frequency as int);
        }
        // Move forward through the waveform, wrapping back to its start.
        let limit = (table.settings().waveform_length - 1) as u64 * 65536;
        self.sample_ix += self.get_sample_ix_offset(table, frequency);
        if self.sample_ix >= limit {
            self.sample_ix %= limit;
        }
        Ok(sample)
    }

    /// Makes room for the mix factors and the output of a block of
    /// `sample_count` samples over `dimension_count` dimensions: the mix
    /// input buffer grows to `sample_count * dimension_count * 2` zeroed
    /// slots and the output buffer to `sample_count`. A block whose factors
    /// cannot be counted in a `usize` is refused and nothing changes.
    pub fn reserve_mixes(&mut self, dimension_count: usize, sample_count: usize) -> (ok: bool)
        ensures
            ok == (mix_input_len(dimension_count as int, sample_count as int) <= usize::MAX),
            ok ==> final(self)@ == (HandleView {
                mixes: grown(
                    old(self)@.mixes,
                    mix_input_len(dimension_count as int, sample_count as int) as nat,
                    0u32,
                ),
                sample_buffer: grown(old(self)@.sample_buffer, sample_count as nat, 0i32),
                ..old(self)@
            }),
            !ok ==> final(self)@ == old(self)@,
    {
        proof {
            assert(0 <= sample_count * dimension_count <= sample_count * dimension_count * 2)
                by (nonlinear_arith);
        }
        let per_slot = match sample_count.checked_mul(dimension_count) {
            Some(n) => n,
            None => {
                return false;
            },
        };
        let needed = match per_slot.checked_mul(2) {
            Some(n) => n,
            None => {
                return false;
            },
        };
        grow(&mut self.sample_buffer, sample_count, 0);
        grow(&mut self.mixes, needed, 0);
        true
    }

    /// Makes room for the frequencies of a block of `sample_count` samples;
    /// new slots hold `DEFAULT_FREQUENCY`.
    pub fn reserve_frequencies(&mut self, sample_count: usize)
        ensures
            final(self)@ == (HandleView {
                frequencies_buffer: grown(
                    old(self)@.frequencies_buffer,
                    sample_count as nat,
                    DEFAULT_FREQUENCY,
                ),
                ..old(self)@
            }),
    {
        grow(&mut self.frequencies_buffer, sample_count, DEFAULT_FREQUENCY);
    }

    /// Copies the mix vector of sample `sample_ix` of a block of
    /// `sample_count` samples out of the mix input buffer into the scratch.
    pub fn unpack_mixes(&mut self, dimension_count: usize, sample_count: usize, sample_ix: usize)
        requires
            old(self)@.mixes_for_sample.len() == 2 * dimension_count,
            sample_ix < sample_count,
            mix_input_len(dimension_count as int, sample_count as int) <= old(self)@.mixes.len(),
        ensures
            final(self)@ == (HandleView {
                mixes_for_sample: unpacked_mixes(
                    old(self)@.mixes,
                    dimension_count as nat,
                    sample_count as nat,
                    sample_ix as int,
                ),
                ..old(self)@
            }),
    {
        let ghost unpacked = unpacked_mixes(
            old(self)@.mixes,
            dimension_count as nat,
            sample_count as nat,
            sample_ix as int,
        );
        proof {
            assert(self.mixes@.len() == self.mixes.len());
            assert(self.mixes_for_sample@.len() == self.mixes_for_sample.len());
        }
        let mut dimension_ix: usize = 0;
        while dimension_ix < dimension_count
            invariant
                dimension_ix <= dimension_count,
                sample_ix < sample_count,
                self.mixes_for_sample@.len() == 2 * dimension_count,
                2 * dimension_count <= usize::MAX,
                mix_input_len(dimension_count as int, sample_count as int) <= self.mixes@.len(),
                self.mixes@.len() <= usize::MAX,
                self.table == old(self).table,
                self.sample_ix == old(self).sample_ix,
                self.mixes@ == old(self).mixes@,
                self.sample_buffer@ == old(self).sample_buffer@,
                self.frequencies_buffer@ == old(self).frequencies_buffer@,
                unpacked == unpacked_mixes(
                    self.mixes@,
                    dimension_count as nat,
                    sample_count as nat,
                    sample_ix as int,
                ),
                forall|k: int| 0 <= k < 2 * dimension_ix ==> self.mixes_for_sample@[k] == unpacked[k],
            decreases dimension_count - dimension_ix,
        {
            proof {
                lemma_mix_slot(
                    dimension_count as int,
                    sample_count as int,
                    dimension_ix as int,
                    0,
                    sample_ix as int,
                );
                lemma_mix_slot(
                    dimension_count as int,
                    sample_count as int,
                    dimension_ix as int,
                    1,
                    sample_ix as int,
                );
                lemma_unpacked_mixes(
                    self.mixes@,
                    dimension_count as nat,
                    sample_count as nat,
                    sample_ix as int,
                    dimension_ix as int,
                );
            }
            self.mixes_for_sample[dimension_ix * 2] = self.mixes[(dimension_ix * 2 * sample_count)
                + sample_ix];
            self.mixes_for_sample[dimension_ix * 2 + 1] = self.mixes[(dimension_ix * 2
                * sample_count) + sample_count + sample_ix];
            dimension_ix += 1;
        }
        assert(self.mixes_for_sample@ =~= unpacked);
    }

    fn block_factors_ok(&self, dimension_count: usize, sample_count: usize) -> (ok: bool)
        requires
            1 <= dimension_count,
            2 * dimension_count <= usize::MAX,
            mix_input_len(dimension_count as int, sample_count as int) <= self@.mixes.len(),
        ensures
            ok == block_factors_in_range(self@.mixes, dimension_count as nat, sample_count as nat),
    {
        proof {
            assert(self.mixes@.len() == self.mixes.len());
        }
        let mut sample_ix: usize = 0;
        while sample_ix < sample_count
            invariant
                sample_ix <= sample_count,
                1 <= dimension_count,
                2 * dimension_count <= usize::MAX,
                mix_input_len(dimension_count as int, sample_count as int) <= self@.mixes.len(),
                self@.mixes.len() <= usize::MAX,
                forall|i: int|
                    0 <= i < sample_ix ==> #[trigger] factors_in_range(
                        unpacked_mixes(
                            self@.mixes,
                            dimension_count as nat,
                            sample_count as nat,
                            i,
                        ),
                        dimension_count as int,
                    ),
            decreases sample_count - sample_ix,
        {
            let ghost unpacked = unpacked_mixes(
                self@.mixes,
                dimension_count as nat,
                sample_count as nat,
                sample_ix as int,
            );
            let mut dimension_ix: usize = 0;
            while dimension_ix < dimension_count
                invariant
                    dimension_ix <= dimension_count,
                    sample_ix < sample_count,
                    2 * dimension_count <= usize::MAX,
                    mix_input_len(dimension_count as int, sample_count as int) <= self@.mixes.len(),
                    self@.mixes.len() <= usize::MAX,
                    unpacked == unpacked_mixes(
                        self@.mixes,
                        dimension_count as nat,
                        sample_count as nat,
                        sample_ix as int,
                    ),
                    factors_in_range(unpacked, dimension_ix as int),
                decreases dimension_count - dimension_ix,
            {
                proof {
                    lemma_mix_slot(
                        dimension_count as int,
                        sample_count as int,
                        dimension_ix as int,
                        0,
                        sample_ix as int,
                    );
                    lemma_mix_slot(
                        dimension_count as int,
                        sample_count as int,
                        dimension_ix as int,
                        1,
                        sample_ix as int,
                    );
                    lemma_unpacked_mixes(
                        self@.mixes,
                        dimension_count as nat,
                        sample_count as nat,
                        sample_ix as int,
                        dimension_ix as int,
                    );
                    }
                let select = self.mixes[(dimension_ix * 2 * sample_count) + sample_ix];
                let blend = self.mixes[(dimension_ix * 2 * sample_count) + sample_count + sample_ix];
                if select > ONE || (dimension_ix >= 1 && blend > ONE) {
                    assert(!dimension_factors_in_range(unpacked, dimension_ix as int));
                    assert(!factors_in_range(unpacked, dimension_count as int));
                    return false;
                }
                assert(dimension_factors_in_range(unpacked, dimension_ix as int));
                dimension_ix += 1;
            }
            sample_ix += 1;
        }
        true
    }

    /// Generates a block of `sample_count` samples into the output buffer.
    /// For each sample the mix vector is unpacked from the mix input buffer,
    /// the table is sampled at the current phase, and the phase advances by
    /// the sample's frequency. A block that cannot be generated in full is
    /// refused before anything changes.
    pub fn generate(&mut self, table: &WaveTable, sample_count: usize) -> (r: Result<
        (),
        GenerateError,
    >)
        requires
            table.wf(),
        ensures
            match r {
                Ok(()) => {
                    &&& block_error(table@, old(self)@, sample_count as nat) is None
                    &&& final(self)@ == generated(table@, old(self)@, sample_count as nat)
                    &&& final(self)@.mixes_for_sample.len() == 2 * table@.settings.dimension_count
                    &&& final(self)@.sample_ix < table@.settings.position_limit()
                },
                Err(e) => {
                    &&& block_error(table@, old(self)@, sample_count as nat) == Some(e)
                    &&& final(self)@ == old(self)@
                },
            },
    {
        proof {
            table@.settings.lemma_valid_bounds();
            assert(0 <= sample_count * table@.settings.dimension_count <= sample_count
                * table@.settings.dimension_count * 2) by (nonlinear_arith);
        }
        let dimension_count = table.settings().dimension_count;
        if self.mixes_for_sample.len() != 2 * dimension_count {
            return Err(GenerateError::ScratchLengthMismatch);
        }
        if self.sample_ix >= (table.settings().waveform_length - 1) as u64 * 65536 {
            return Err(GenerateError::PositionOutOfRange);
        }
        let mixes_len = self.mixes.len();
        let per_slot = match sample_count.checked_mul(dimension_count) {
            Some(n) => n,
            None => {
                return Err(GenerateError::MixBufferTooShort);
            },
        };
        let needed = match per_slot.checked_mul(2) {
            Some(n) => n,
            None => {
                return Err(GenerateError::MixBufferTooShort);
            },
        };
        if mixes_len < needed {
            return Err(GenerateError::MixBufferTooShort);
        }
        if self.frequencies_buffer.len() < sample_count {
            return Err(GenerateError::FrequencyBufferTooShort);
        }
        if !self.block_factors_ok(dimension_count, sample_count) {
            return Err(GenerateError::FactorOutOfRange);
        }
        // Make sure the output buffer has room for all generated samples.
        grow(&mut self.sample_buffer, sample_count, 0);
        let ghost start = old(self)@;
        let ghost room = grown(start.sample_buffer, sample_count as nat, 0i32);
        let mut sample_ix: usize = 0;
        while sample_ix < sample_count
            invariant
                table.wf(),
                dimension_count == table@.settings.dimension_count,
                start == old(self)@,
                room == grown(start.sample_buffer, sample_count as nat, 0i32),
                sample_ix <= sample_count,
                sample_count <= start.frequencies_buffer.len(),
                mix_input_len(dimension_count as int, sample_count as int) <= start.mixes.len(),
                block_factors_in_range(start.mixes, dimension_count as nat, sample_count as nat),
                self.table == start.table,
                self.mixes@ == start.mixes,
                self.frequencies_buffer@ == start.frequencies_buffer,
                self.mixes_for_sample@.len() == 2 * dimension_count,
                self.mixes_for_sample@ == if sample_ix == 0 {
                    start.mixes_for_sample
                } else {
                    unpacked_mixes(
                        start.mixes,
                        dimension_count as nat,
                        sample_count as nat,
                        sample_ix - 1,
                    )
                },
                self.sample_ix == sample_ix_after(
                    table@.settings,
                    start.sample_ix as int,
                    start.frequencies_buffer,
                    sample_ix as nat,
                ),
                self.sample_ix < table@.settings.position_limit(),
                self.sample_buffer@.len() == room.len(),
                forall|k: int|
                    0 <= k < sample_ix ==> self.sample_buffer@[k] == block_sample(
                        table@,
                        start,
                        sample_count as nat,
                        k,
                    ),
                forall|k: int| sample_ix <= k < room.len() ==> self.sample_buffer@[k] == room[k],
            decreases sample_count - sample_ix,
        {
            // Copy the mix factors of this sample out of the input buffer.
            self.unpack_mixes(dimension_count, sample_count, sample_ix);
            assert(factors_in_range(
                unpacked_mixes(
                    start.mixes,
                    dimension_count as nat,
                    sample_count as nat,
                    sample_ix as int,
                ),
                dimension_count as int,
            ));
            // Pull the sample out of the table and store it in the output.
            let frequency = self.frequencies_buffer[sample_ix];
            proof {
                lemma_advanced_in_range(table@.settings, self.sample_ix as int, frequency as int);
            }
            let sample = self.get_sample(table, frequency).unwrap();
            self.sample_buffer[sample_ix] = sample;
            sample_ix += 1;
        }
        assert(self@.sample_buffer =~= generated(
            table@,
            start,
            sample_count as nat,
        ).sample_buffer);
        Ok(())
    }
}

} // verus!
