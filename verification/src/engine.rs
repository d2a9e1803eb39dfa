//! The engine: an arena that owns tables and voice handles and hands out
//! integer identifiers for them, with the operations a host drives it by.

use vstd::prelude::*;
use crate::settings::{ConfigError, WaveTableSettings};
use crate::table::{TableView, WaveTable};
use crate::handle::{
    GenerateError, HandleView, WaveTableHandle, DEFAULT_FREQUENCY, block_error, generated, grown,
    mix_input_len,
};

verus! {

/// Why an operation of the engine is refused.
#[derive(Clone, Copy, Debug, PartialEq, Eq)]
pub enum EngineError {
    /// No table was ever created under the identifier.
    UnknownTable,
    /// No handle was ever created under the identifier.
    UnknownHandle,
    /// The table under the identifier, or the table a handle is bound to,
    /// has been destroyed.
    TableDropped,
    /// The mix factors of the block cannot be counted in a `usize`.
    BlockTooLarge,
    /// The block cannot be generated.
    Generate(GenerateError),
}

/// What an engine holds: under each table identifier the table, or `None`
/// once it is destroyed, and under each handle identifier the handle.
#[verifier::ext_equal]
pub struct EngineView {
    pub tables: Seq<Option<TableView>>,
    pub handles: Seq<HandleView>,
}

impl EngineView {
    /// Why the table identifier `table` cannot be used, or `None` where it
    /// names a live table.
    pub open spec fn table_error(self, table: int) -> Option<EngineError> {
        if !(0 <= table < self.tables.len()) {
            Some(EngineError::UnknownTable)
        } else if self.tables[table] is None {
            Some(EngineError::TableDropped)
        } else {
            None
        }
    }

    /// Why the handle identifier `handle` cannot be used to reach a table,
    /// or `None` where it names a handle bound to a live table.
    pub open spec fn handle_error(self, handle: int) -> Option<EngineError> {
        if !(0 <= handle < self.handles.len()) {
            Some(EngineError::UnknownHandle)
        } else if self.table_error(self.handles[handle].table as int) is Some {
            Some(EngineError::TableDropped)
        } else {
            None
        }
    }

    /// The table that the handle `handle` is bound to.
    pub open spec fn table_of(self, handle: int) -> TableView {
        self.tables[self.handles[handle].table as int]->0
    }

    /// The handle was bound to a table of this engine, and while that table
    /// lives the handle's scratch fits its dimensions and its phase is a
    /// valid position in it.
    pub open spec fn handle_bound(self, handle: HandleView) -> bool {
        &&& handle.table < self.tables.len()
        &&& self.tables[handle.table as int] matches Some(t) ==> {
            &&& handle.mixes_for_sample.len() == 2 * t.settings.dimension_count
            &&& handle.sample_ix < t.settings.position_limit()
        }
    }

    /// Every live table is well formed and every handle is bound.
    pub open spec fn wf(self) -> bool {
        &&& forall|t: int|
            0 <= t < self.tables.len() ==> (#[trigger] self.tables[t] matches Some(table)
                ==> table.wf())
        &&& forall|h: int|
            0 <= h < self.handles.len() ==> self.handle_bound(#[trigger] self.handles[h])
    }
}

/// An arena of tables and handles.
pub struct Engine {
    tables: Vec<Option<WaveTable>>,
    handles: Vec<WaveTableHandle>,
}

/// The content of a table slot.
pub open spec fn slot_view(slot: Option<WaveTable>) -> Option<TableView> {
    match slot {
        Some(table) => Some(table@),
        None => None,
    }
}

impl View for Engine {
    type V = EngineView;

    closed spec fn view(&self) -> EngineView {
        EngineView {
            tables: Seq::new(self.tables@.len(), |i: int| slot_view(self.tables@[i])),
            handles: Seq::new(self.handles@.len(), |i: int| self.handles@[i]@),
        }
    }
}

impl Engine {
    /// Every live table is well formed and every handle is bound: the
    /// invariant of the engine, which each operation keeps.
    pub closed spec fn wf(&self) -> bool {
        &&& forall|t: int|
            0 <= t < self.tables@.len() ==> (#[trigger] self.tables@[t] matches Some(table)
                ==> table.wf())
        &&& forall|h: int|
            0 <= h < self.handles@.len() ==> self@.handle_bound((#[trigger] self.handles@[h])@)
    }

    /// What the invariant says of the content of the engine.
    pub proof fn lemma_wf(&self)
        requires
            self.wf(),
        ensures
            self@.wf(),
    {
    }

    /// An engine without tables or handles.
    pub fn new() -> (engine: Engine)
        ensures
            engine.wf(),
            engine@.tables.len() == 0,
            engine@.handles.len() == 0,
    {
        Engine { tables: Vec::new(), handles: Vec::new() }
    }

    /// The table under an identifier, if it lives.
    pub fn table(&self, table: usize) -> (r: Option<&WaveTable>)
        ensures
            r is Some <==> self@.table_error(table as int) is None,
            r matches Some(t) ==> Some(t@) == self@.tables[table as int],
    {
        if table < self.tables.len() {
            self.tables[table].as_ref()
        } else {
            None
        }
    }

    /// The handle under an identifier, if there is one.
    pub fn handle(&self, handle: usize) -> (r: Option<&WaveTableHandle>)
        ensures
            r is Some <==> handle < self@.handles.len(),
            r matches Some(h) ==> h@ == self@.handles[handle as int],
    {
        if handle < self.handles.len() {
            Some(&self.handles[handle])
        } else {
            None
        }
    }
}

/// Creates a table with the given geometry and every sample zero, and
/// returns its identifier. Invalid geometry is refused with the reason and
/// leaves the engine as it was.
pub fn init_wavetable(
    engine: &mut Engine,
    waveforms_per_dimension: usize,
    dimension_count: usize,
    waveform_length: usize,
    base_frequency: u32,
) -> (r: Result<usize, ConfigError>)
    requires
        old(engine).wf(),
    ensures
        final(engine).wf(),
        ({
            let settings = WaveTableSettings {
                waveform_length,
                dimension_count,
                waveforms_per_dimension,
                base_frequency,
            };
            match r {
                Ok(id) => {
                    &&& settings.config_error() is None
                    &&& id == old(engine)@.tables.len()
                    &&& final(engine)@ == (EngineView {
                        tables: old(engine)@.tables.push(
                            Some(
                                TableView {
                                    settings,
                                    samples: Seq::new(settings.total_samples(), |i: int| 0i32),
                                },
                            ),
                        ),
                        handles: old(engine)@.handles,
                    })
                },
                Err(e) => {
                    &&& settings.config_error() == Some(e)
                    &&& final(engine)@ == old(engine)@
                },
            }
        }),
{
    let settings = WaveTableSettings {
        waveforms_per_dimension,
        dimension_count,
        waveform_length,
        base_frequency,
    };
    match WaveTable::new(settings) {
        Err(e) => Err(e),
        Ok(table) => {
            let id = engine.tables.len();
            let ghost content = table@;
            engine.tables.push(Some(table));
            proof {
                assert(engine@.tables =~= old(engine)@.tables.push(Some(content)));
                assert(engine@.handles =~= old(engine)@.handles);
            }
            Ok(id)
        },
    }
}

/// The handle that `init_wavetable_handle` creates for a table.
pub open spec fn fresh_handle(table: int, content: TableView) -> HandleView {
    HandleView {
        table: table as usize,
        sample_ix: 0,
        mixes: Seq::empty(),
        mixes_for_sample: Seq::new(2 * content.settings.dimension_count as nat, |i: int| 0u32),
        sample_buffer: Seq::empty(),
        frequencies_buffer: Seq::empty(),
    }
}

/// Creates a voice handle bound to the table `table`, at phase zero, and
/// returns its identifier.
pub fn init_wavetable_handle(engine: &mut Engine, table: usize) -> (r: Result<usize, EngineError>)
    requires
        old(engine).wf(),
    ensures
        final(engine).wf(),
        match r {
            Ok(id) => {
                &&& old(engine)@.table_error(table as int) is None
                &&& id == old(engine)@.handles.len()
                &&& final(engine)@ == (EngineView {
                    tables: old(engine)@.tables,
                    handles: old(engine)@.handles.push(
                        fresh_handle(table as int, old(engine)@.tables[table as int]->0),
                    ),
                })
            },
            Err(e) => {
                &&& old(engine)@.table_error(table as int) == Some(e)
                &&& final(engine)@ == old(engine)@
            },
        },
{
    if table >= engine.tables.len() {
        return Err(EngineError::UnknownTable);
    }
    let handle = match &engine.tables[table] {
        Some(t) => {
            assert(engine@.tables[table as int] == Some(t@));
            proof {
                t@.settings.lemma_valid_bounds();
            }
            WaveTableHandle::new(table, t)
        },
        None => {
            assert(engine@.tables[table as int] is None);
            return Err(EngineError::TableDropped);
        },
    };
    let id = engine.handles.len();
    let ghost content = handle@;
    engine.handles.push(handle);
    proof {
        assert(engine@.tables =~= old(engine)@.tables);
        assert(engine@.handles =~= old(engine)@.handles.push(content));
    }
    Ok(id)
}

/// Destroys the table `table`. Handles bound to it stay in the engine and
/// are refused from then on.
pub fn drop_wavetable(engine: &mut Engine, table: usize) -> (r: Result<(), EngineError>)
    requires
        old(engine).wf(),
    ensures
        final(engine).wf(),
        match r {
            Ok(()) => {
                &&& old(engine)@.table_error(table as int) is None
                &&& final(engine)@ == (EngineView {
                    tables: old(engine)@.tables.update(table as int, None),
                    handles: old(engine)@.handles,
                })
            },
            Err(e) => {
                &&& old(engine)@.table_error(table as int) == Some(e)
                &&& final(engine)@ == old(engine)@
            },
        },
{
    if table >= engine.tables.len() {
        return Err(EngineError::UnknownTable);
    }
    if engine.tables[table].is_none() {
        assert(engine@.tables[table as int] is None);
        return Err(EngineError::TableDropped);
    }
    assert(engine@.tables[table as int] is Some);
    engine.tables[table] = None;
    proof {
        assert(engine@.tables =~= old(engine)@.tables.update(table as int, None));
        assert(engine@.handles =~= old(engine)@.handles);
    }
    Ok(())
}

/// Hands out the sample storage of the table `table` for writing in place.
/// The storage has the length the table's settings call for and cannot
/// change it.
pub fn get_data_table_ptr(engine: &mut Engine, table: usize) -> (r: Result<&mut [i32], EngineError>)
    requires
        old(engine).wf(),
    ensures
        match r {
            Ok(samples) => {
                &&& old(engine)@.table_error(table as int) is None
                &&& samples@ == old(engine)@.tables[table as int]->0.samples
                &&& final(engine)@ == (EngineView {
                    tables: old(engine)@.tables.update(
                        table as int,
                        Some(
                            TableView {
                                settings: old(engine)@.tables[table as int]->0.settings,
                                samples: final(samples)@,
                            },
                        ),
                    ),
                    handles: old(engine)@.handles,
                })
                &&& final(samples)@.len() == samples@.len() ==> final(engine).wf()
            },
            Err(e) => {
                &&& old(engine)@.table_error(table as int) == Some(e)
                &&& final(engine)@ == old(engine)@
            },
        },
{
    if table >= engine.tables.len() {
        return Err(EngineError::UnknownTable);
    }
    match &mut engine.tables[table] {
        Some(t) => {
            assert(old(engine)@.tables[table as int] == Some(t@));
            Ok(t.samples_mut())
        },
        None => {
            assert(old(engine)@.tables[table as int] is None);
            Err(EngineError::TableDropped)
        },
    }
}

impl EngineView {
    /// Why room for a block of `sample_count` samples cannot be made in the
    /// handle `handle`, or `None` where it can.
    pub open spec fn reserve_error(self, handle: int, sample_count: int) -> Option<EngineError> {
        if self.handle_error(handle) is Some {
            self.handle_error(handle)
        } else if mix_input_len(
            self.table_of(handle).settings.dimension_count as int,
            sample_count,
        ) > usize::MAX {
            Some(EngineError::BlockTooLarge)
        } else {
            None
        }
    }

    /// Why the handle `handle` cannot generate a block of `sample_count`
    /// samples, or `None` where the block is owed.
    pub open spec fn generate_error(self, handle: int, sample_count: int) -> Option<EngineError> {
        if self.handle_error(handle) is Some {
            self.handle_error(handle)
        } else {
            match block_error(self.table_of(handle), self.handles[handle], sample_count as nat) {
                Some(e) => Some(EngineError::Generate(e)),
                None => None,
            }
        }
    }
}

/// Makes room in the handle `handle` for the mix factors and the output of
/// a block of `sample_count` samples, and hands out the mix input buffer
/// for writing in place. The buffer is laid out as `mix_slot` says; it
/// never shrinks, and slots written earlier keep their content.
pub fn get_mixes_ptr(engine: &mut Engine, handle: usize, sample_count: usize) -> (r: Result<
    &mut [u32],
    EngineError,
>)
    requires
        old(engine).wf(),
    ensures
        match r {
            Ok(mixes) => {
                &&& old(engine)@.reserve_error(handle as int, sample_count as int) is None
                &&& mixes@ == grown(
                    old(engine)@.handles[handle as int].mixes,
                    mix_input_len(
                        old(engine)@.table_of(handle as int).settings.dimension_count as int,
                        sample_count as int,
                    ) as nat,
                    0u32,
                )
                &&& final(engine)@ == (EngineView {
                    tables: old(engine)@.tables,
                    handles: old(engine)@.handles.update(
                        handle as int,
                        HandleView {
                            mixes: final(mixes)@,
                            sample_buffer: grown(
                                old(engine)@.handles[handle as int].sample_buffer,
                                sample_count as nat,
                                0i32,
                            ),
                            ..old(engine)@.handles[handle as int]
                        },
                    ),
                })
                &&& final(engine).wf()
            },
            Err(e) => {
                &&& old(engine)@.reserve_error(handle as int, sample_count as int) == Some(e)
                &&& final(engine)@ == old(engine)@
            },
        },
{
    if handle >= engine.handles.len() {
        return Err(EngineError::UnknownHandle);
    }
    let table = engine.handles[handle].table;
    let dimension_count = match &engine.tables[table] {
        Some(t) => {
            assert(engine@.tables[table as int] == Some(t@));
            t.settings().dimension_count
        },
        None => {
            assert(engine@.tables[table as int] is None);
            return Err(EngineError::TableDropped);
        },
    };
    let voice = &mut engine.handles[handle];
    if !voice.reserve_mixes(dimension_count, sample_count) {
        return Err(EngineError::BlockTooLarge);
    }
    Ok(voice.mixes.as_mut_slice())
}

/// Makes room in the handle `handle` for the frequencies of a block of
/// `sample_count` samples, new slots holding `DEFAULT_FREQUENCY`, and hands
/// out the frequency buffer for writing in place.
pub fn get_frequencies_ptr(engine: &mut Engine, handle: usize, sample_count: usize) -> (r: Result<
    &mut [u32],
    EngineError,
>)
    requires
        old(engine).wf(),
    ensures
        match r {
            Ok(frequencies) => {
                &&& handle < old(engine)@.handles.len()
                &&& frequencies@ == grown(
                    old(engine)@.handles[handle as int].frequencies_buffer,
                    sample_count as nat,
                    DEFAULT_FREQUENCY,
                )
                &&& final(engine)@ == (EngineView {
                    tables: old(engine)@.tables,
                    handles: old(engine)@.handles.update(
                        handle as int,
                        HandleView {
                            frequencies_buffer: final(frequencies)@,
                            ..old(engine)@.handles[handle as int]
                        },
                    ),
                })
                &&& final(engine).wf()
            },
            Err(e) => {
                &&& handle >= old(engine)@.handles.len()
                &&& e == EngineError::UnknownHandle
                &&& final(engine)@ == old(engine)@
            },
        },
{
    if handle >= engine.handles.len() {
        return Err(EngineError::UnknownHandle);
    }
    let voice = &mut engine.handles[handle];
    voice.reserve_frequencies(sample_count);
    Ok(voice.frequencies_buffer.as_mut_slice())
}

/// Generates a block of `sample_count` samples with the handle `handle` and
/// hands out its output buffer, whose first `sample_count` slots hold the
/// block. A block that cannot be generated in full is refused and leaves
/// the engine as it was.
pub fn get_samples(engine: &mut Engine, handle: usize, sample_count: usize) -> (r: Result<
    &[i32],
    EngineError,
>)
    requires
        old(engine).wf(),
    ensures
        final(engine).wf(),
        match r {
            Ok(samples) => {
                &&& old(engine)@.generate_error(handle as int, sample_count as int) is None
                &&& final(engine)@ == (EngineView {
                    tables: old(engine)@.tables,
                    handles: old(engine)@.handles.update(
                        handle as int,
                        generated(
                            old(engine)@.table_of(handle as int),
                            old(engine)@.handles[handle as int],
                            sample_count as nat,
                        ),
                    ),
                })
                &&& samples@ == final(engine)@.handles[handle as int].sample_buffer
            },
            Err(e) => {
                &&& old(engine)@.generate_error(handle as int, sample_count as int) == Some(e)
                &&& final(engine)@ == old(engine)@
            },
        },
{
    if handle >= engine.handles.len() {
        return Err(EngineError::UnknownHandle);
    }
    let table = engine.handles[handle].table;
    match &engine.tables[table] {
        Some(t) => {
            assert(engine@.tables[table as int] == Some(t@));
            match engine.handles[handle].generate(t, sample_count) {
                Ok(()) => {},
                Err(e) => {
                    return Err(EngineError::Generate(e));
                },
            }
        },
        None => {
            assert(engine@.tables[table as int] is None);
            return Err(EngineError::TableDropped);
        },
    }
    Ok(engine.handles[handle].sample_buffer.as_slice())
}

} // verus!
