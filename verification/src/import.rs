//! Importing a data file: its records are reconciled into the address
//! table batch by batch, and once every batch is written the snapshot is
//! recorded in the state log. [`refresh_data`] is a whole refresh on a
//! table and a log: it checks, imports where the data is stale, and
//! records.
//!
//! A malformed row ends the import at once. The batches written before it
//! stay written; the batch that was being filled is dropped, and the state
//! log is left as it was.

use vstd::prelude::*;
use crate::addresses::{create_or_update_addresses, made_from, upsert_all, upserted, AddressTable};
use crate::datafile::{row_record, Columns, DataFile};
use crate::error::{ErrorKind, RefreshError};
use crate::manifest::{StateInfo, StateInfoView};
use crate::models::{AddressRecord, AddressRecordView, AddressView, StateView};
use crate::reconcile::{record_views, survivors};
use crate::refresh::{
    get_data_status,
    offered,
    refresh_state,
    RefreshAction,
    RefreshEvent,
    RefreshState,
};
use crate::rows::row_texts;
use crate::states::{create_new_state, current_state, latest, recorded, StateLog};

verus! {

/// The number of records that are reconciled into the table at a time.
pub const BATCH_SIZE: usize = 2500;

/// The coordinates that were handed in for row `at`; none where the list
/// ends before it.
pub open spec fn coordinates_at(coordinates: Seq<Option<(u32, u32)>>, at: int) -> Option<(u32, u32)> {
    if 0 <= at < coordinates.len() {
        coordinates[at]
    } else {
        None
    }
}

/// For each row of a data file its record, or nothing where the row is
/// malformed.
pub open spec fn file_records(
    columns: Option<Columns>,
    rows: Seq<Result<Vec<String>, String>>,
    coordinates: Seq<Option<(u32, u32)>>,
) -> Seq<Option<AddressRecordView>> {
    Seq::new(
        rows.len(),
        |i: int| row_record(columns, row_texts(rows[i]), coordinates_at(coordinates, i)),
    )
}

/// The position of the first malformed row at or after `from`, or the
/// number of rows if there is none.
pub open spec fn first_malformed(records: Seq<Option<AddressRecordView>>, from: int) -> int
    decreases records.len() - from,
{
    if from < 0 || from >= records.len() {
        records.len() as int
    } else if records[from] is None {
        from
    } else {
        first_malformed(records, from + 1)
    }
}

/// The records of the first `upto` rows.
pub open spec fn read_upto(records: Seq<Option<AddressRecordView>>, upto: int) -> Seq<
    AddressRecordView,
> {
    Seq::new(upto as nat, |i: int| records[i]->0)
}

/// Whether `count` records make up whole batches of `size` records.
pub open spec fn whole_batches(count: int, size: int) -> bool
    decreases count,
{
    count == 0 || (size > 0 && count >= size && whole_batches(count - size, size))
}

/// Whether `after` is what the table `before` becomes when `records` are
/// reconciled into it in batches of `size`, each batch as
/// [`upserted`] says. With `flush_rest` the records after the last whole
/// batch are written as a batch of their own; without it they are not
/// written. A `size` of zero makes one batch of all the records.
pub open spec fn batches_written(
    before: Seq<AddressView>,
    after: Seq<AddressView>,
    records: Seq<AddressRecordView>,
    size: int,
    flush_rest: bool,
) -> bool
    decreases records.len(),
{
    if size <= 0 || records.len() < size {
        if flush_rest {
            upserted(before, after, records)
        } else {
            after == before
        }
    } else {
        exists|middle: Seq<AddressView>|
            #[trigger] upserted(before, middle, records.take(size)) && batches_written(
                middle,
                after,
                records.skip(size),
                size,
                flush_rest,
            )
    }
}

proof fn lemma_first_malformed(records: Seq<Option<AddressRecordView>>, from: int, at: int)
    requires
        0 <= from <= at <= records.len(),
        at < records.len() ==> records[at] is None,
        forall|i: int| from <= i < at ==> (#[trigger] records[i]) is Some,
    ensures
        first_malformed(records, from) == at,
    decreases at - from,
{
    if from < at {
        lemma_first_malformed(records, from + 1, at);
    }
}

proof fn lemma_whole_batches_grow(count: int, size: int)
    requires
        0 <= count,
        size > 0,
        whole_batches(count, size),
    ensures
        whole_batches(count + size, size),
    decreases count,
{
    if count > 0 {
        lemma_whole_batches_grow(count - size, size);
    }
}

/// One more whole batch written after whole batches.
proof fn lemma_batch_written(
    before: Seq<AddressView>,
    middle: Seq<AddressView>,
    after: Seq<AddressView>,
    written: Seq<AddressRecordView>,
    batch: Seq<AddressRecordView>,
    size: int,
)
    requires
        size > 0,
        whole_batches(written.len() as int, size),
        batches_written(before, middle, written, size, false),
        batch.len() == size,
        upserted(middle, after, batch),
    ensures
        batches_written(before, after, written + batch, size, false),
    decreases written.len(),
{
    let all = written + batch;
    if written.len() == 0 {
        assert(all.take(size) =~= batch);
        assert(all.skip(size) =~= Seq::<AddressRecordView>::empty());
        assert(upserted(before, after, all.take(size)) && batches_written(
            after,
            after,
            all.skip(size),
            size,
            false,
        ));
    } else {
        let first = choose|first: Seq<AddressView>|
            #[trigger] upserted(before, first, written.take(size)) && batches_written(
                first,
                middle,
                written.skip(size),
                size,
                false,
            );
        lemma_batch_written(first, middle, after, written.skip(size), batch, size);
        assert(all.take(size) =~= written.take(size));
        assert(all.skip(size) =~= written.skip(size) + batch);
        assert(upserted(before, first, all.take(size)) && batches_written(
            first,
            after,
            all.skip(size),
            size,
            false,
        ));
    }
}

/// The records after the last whole batch, written or dropped.
proof fn lemma_rest_written(
    before: Seq<AddressView>,
    middle: Seq<AddressView>,
    after: Seq<AddressView>,
    written: Seq<AddressRecordView>,
    rest: Seq<AddressRecordView>,
    size: int,
    flush_rest: bool,
)
    requires
        size >= 0,
        whole_batches(written.len() as int, size),
        batches_written(before, middle, written, size, false),
        size > 0 ==> rest.len() < size,
        if flush_rest {
            upserted(middle, after, rest)
        } else {
            after == middle
        },
    ensures
        batches_written(before, after, written + rest, size, flush_rest),
    decreases written.len(),
{
    let all = written + rest;
    if written.len() == 0 {
        assert(all =~= rest);
    } else {
        let first = choose|first: Seq<AddressView>|
            #[trigger] upserted(before, first, written.take(size)) && batches_written(
                first,
                middle,
                written.skip(size),
                size,
                false,
            );
        lemma_rest_written(first, middle, after, written.skip(size), rest, size, flush_rest);
        assert(all.take(size) =~= written.take(size));
        assert(all.skip(size) =~= written.skip(size) + rest);
        assert(upserted(before, first, all.take(size)) && batches_written(
            first,
            after,
            all.skip(size),
            size,
            flush_rest,
        ));
    }
}

/// Whether `after` is the table after the import of a data file into
/// `before`, and `done` says whether the import came to its end: the
/// records before the first malformed row are reconciled in batches of
/// `size`; the records after the last whole batch are written only where
/// no row is malformed.
pub open spec fn imported(
    before: Seq<AddressView>,
    after: Seq<AddressView>,
    records: Seq<Option<AddressRecordView>>,
    size: int,
    done: bool,
) -> bool {
    let stop = first_malformed(records, 0);
    &&& done == (stop == records.len())
    &&& batches_written(before, after, read_upto(records, stop), size, done)
}

/// Where the batch that begins at row `from` ends: after `size` rows, or
/// with the last row where fewer are left or `size` is zero.
pub open spec fn batch_end(from: int, count: int, size: int) -> int {
    if size <= 0 || from + size > count {
        count
    } else {
        from + size
    }
}

/// The records of the rows from `from` up to `end`.
pub open spec fn read_between(records: Seq<Option<AddressRecordView>>, from: int, end: int) -> Seq<
    AddressRecordView,
> {
    Seq::new((if end > from { end - from } else { 0 }) as nat, |k: int| records[from + k]->0)
}

proof fn lemma_first_malformed_is_first(records: Seq<Option<AddressRecordView>>, from: int)
    requires
        0 <= from,
    ensures
        first_malformed(records, from) <= records.len(),
        from <= records.len() ==> from <= first_malformed(records, from),
        first_malformed(records, from) < records.len() ==> records[first_malformed(records, from)]
            is None,
        forall|i: int|
            from <= i < first_malformed(records, from) ==> (#[trigger] records[i]) is Some,
    decreases records.len() - from,
{
    if from < records.len() && records[from] is Some {
        lemma_first_malformed_is_first(records, from + 1);
    }
}

proof fn lemma_skip_well_formed(records: Seq<Option<AddressRecordView>>, from: int, at: int)
    requires
        0 <= from <= at <= records.len(),
        forall|i: int| from <= i < at ==> (#[trigger] records[i]) is Some,
    ensures
        first_malformed(records, from) == first_malformed(records, at),
    decreases at - from,
{
    if from < at {
        lemma_skip_well_formed(records, from + 1, at);
    }
}

/// A batch without records leaves the table as it is.
pub proof fn lemma_empty_batch(table: Seq<AddressView>)
    ensures
        upserted(table, table, Seq::<AddressRecordView>::empty()),
{
    let none = Seq::<AddressView>::empty();
    let empty = Seq::<AddressRecordView>::empty();
    assert(survivors(empty) =~= empty);
    assert(made_from(none, survivors(empty)) && table == upsert_all(table, none));
}

/// Reads one batch: the records of the rows from `from` on, `batch_size`
/// of them or, where fewer rows are left or `batch_size` is zero, all that
/// are left. A malformed row among them gives a data error.
/// `coordinates` holds for each row of the file, in order, the bit
/// patterns of its longitude and latitude, or nothing where they are no
/// numbers.
pub fn read_batch(
    file: &DataFile,
    coordinates: &Vec<Option<(u32, u32)>>,
    from: usize,
    batch_size: usize,
) -> (result: Result<Vec<AddressRecord>, RefreshError>)
    ensures
        ({
            let records = file_records(file.columns, file.rows@, coordinates@);
            let end = batch_end(from as int, records.len() as int, batch_size as int);
            match result {
                Ok(batch) => first_malformed(records, from as int) >= end && record_views(batch@)
                    == read_between(records, from as int, end),
                Err(error) => error.kind() == ErrorKind::InvalidData && first_malformed(
                    records,
                    from as int,
                ) < end,
            }
        }),
{
    let ghost records = file_records(file.columns, file.rows@, coordinates@);
    let count = file.len();
    let end: usize = if batch_size == 0 || batch_size > count || from > count - batch_size {
        count
    } else {
        from + batch_size
    };
    assert(end == batch_end(from as int, records.len() as int, batch_size as int));
    let mut batch: Vec<AddressRecord> = Vec::new();
    if from >= end {
        proof {
            lemma_first_malformed_is_first(records, from as int);
            assert(record_views(batch@) =~= read_between(records, from as int, end as int));
        }
        return Ok(batch);
    }
    let mut at: usize = from;
    while at < end
        invariant
            from <= at <= end <= file.rows@.len(),
            records == file_records(file.columns, file.rows@, coordinates@),
            end == batch_end(from as int, records.len() as int, batch_size as int),
            forall|i: int| from <= i < at ==> (#[trigger] records[i]) is Some,
            record_views(batch@) == read_between(records, from as int, at as int),
        decreases end - at,
    {
        let coordinate = if at < coordinates.len() {
            coordinates[at]
        } else {
            None
        };
        assert(coordinate == coordinates_at(coordinates@, at as int));
        match file.record(at, coordinate) {
            Err(error) => {
                proof {
                    assert(records[at as int] is None);
                    lemma_first_malformed(records, from as int, at as int);
                }
                return Err(error);
            },
            Ok(record) => {
                let ghost pending = record_views(batch@);
                assert(records[at as int] == Some(record@));
                batch.push(record);
                assert(record_views(batch@) =~= pending.push(record@));
                assert(read_between(records, from as int, at as int + 1) =~= read_between(
                    records,
                    from as int,
                    at as int,
                ).push(record@));
            },
        }
        at += 1;
    }
    proof {
        lemma_first_malformed_is_first(records, from as int);
        if first_malformed(records, from as int) < end {
            assert(records[first_malformed(records, from as int)] is Some);
        }
    }
    Ok(batch)
}

/// What an import is to do next.
#[derive(Debug)]
pub enum ImportStep {
    /// Write this batch to the table, then go on from row `next`.
    Write { batch: Vec<AddressRecord>, next: usize },
    /// Every row is written: record the snapshot.
    Record,
}

/// Decides the next step of an import that has written the rows before
/// `from`: the batch that begins there, as [`read_batch`] reads it, and
/// the row after it; or, where no row is left, that the snapshot is to be
/// recorded. The batches of steps taken one after the other from row 0
/// are the rows of the file without gap or overlap: each begins where the
/// one before it ends, holds at least one row, and the last ends with the
/// file.
pub fn import_step(
    file: &DataFile,
    coordinates: &Vec<Option<(u32, u32)>>,
    from: usize,
    batch_size: usize,
) -> (result: Result<ImportStep, RefreshError>)
    ensures
        ({
            let records = file_records(file.columns, file.rows@, coordinates@);
            let end = batch_end(from as int, records.len() as int, batch_size as int);
            match result {
                Ok(ImportStep::Record) => from >= records.len(),
                Ok(ImportStep::Write { batch, next }) => {
                    &&& from < next <= records.len()
                    &&& next == end
                    &&& first_malformed(records, from as int) >= end
                    &&& record_views(batch@) == read_between(records, from as int, end)
                },
                Err(error) => {
                    &&& from < records.len()
                    &&& error.kind() == ErrorKind::InvalidData
                    &&& first_malformed(records, from as int) < end
                },
            }
        }),
{
    if from >= file.len() {
        return Ok(ImportStep::Record);
    }
    let batch = match read_batch(file, coordinates, from, batch_size) {
        Ok(batch) => batch,
        Err(error) => {
            return Err(error);
        },
    };
    assert(record_views(batch@).len() == batch.len());
    let next = from + batch.len();
    Ok(ImportStep::Write { batch, next })
}

/// Reconciles the records of a data file into the table, step by step as
/// [`import_step`] decides, and returns the number of records read.
pub fn process_records(
    table: &mut AddressTable,
    file: &DataFile,
    coordinates: &Vec<Option<(u32, u32)>>,
    batch_size: usize,
) -> (result: Result<usize, RefreshError>)
    requires
        old(table).wf(),
    ensures
        final(table).wf(),
        imported(
            old(table)@,
            final(table)@,
            file_records(file.columns, file.rows@, coordinates@),
            batch_size as int,
            result is Ok,
        ),
        result matches Ok(count) ==> count == file.rows@.len(),
        result matches Err(error) ==> error.kind() == ErrorKind::InvalidData,
{
    let ghost records = file_records(file.columns, file.rows@, coordinates@);
    let ghost before = table@;
    let ghost size = batch_size as int;
    let count = file.len();
    let mut at: usize = 0;
    proof {
        assert(read_upto(records, 0) =~= Seq::<AddressRecordView>::empty());
        lemma_empty_batch(before);
    }
    loop
        invariant
            at <= count,
            count == file.rows@.len(),
            records == file_records(file.columns, file.rows@, coordinates@),
            size == batch_size as int,
            before == old(table)@,
            table.wf(),
            forall|i: int| 0 <= i < at ==> (#[trigger] records[i]) is Some,
            at < count ==> whole_batches(at as int, size) && batches_written(
                before,
                table@,
                read_upto(records, at as int),
                size,
                false,
            ),
            at == count ==> batches_written(
                before,
                table@,
                read_upto(records, at as int),
                size,
                true,
            ),
        ensures
            at == count,
        decreases count - at,
    {
        let ghost end = batch_end(at as int, records.len() as int, size);
        proof {
            lemma_skip_well_formed(records, 0, at as int);
            lemma_first_malformed_is_first(records, at as int);
        }
        match import_step(file, coordinates, at, batch_size) {
            Err(error) => {
                proof {
                    let stop = first_malformed(records, 0);
                    let whole = read_upto(records, stop);
                    lemma_rest_written(
                        before,
                        table@,
                        table@,
                        read_upto(records, at as int),
                        whole.skip(at as int),
                        size,
                        false,
                    );
                    assert(read_upto(records, at as int) + whole.skip(at as int) =~= whole);
                }
                return Err(error);
            },
            Ok(ImportStep::Record) => {
                break;
            },
            Ok(ImportStep::Write { batch, next }) => {
                let ghost middle = table@;
                create_or_update_addresses(table, &batch);
                proof {
                    let written = read_upto(records, at as int);
                    assert(written + record_views(batch@) =~= read_upto(records, end));
                    if batch_size > 0 && at + size <= count {
                        lemma_batch_written(
                            before,
                            middle,
                            table@,
                            written,
                            record_views(batch@),
                            size,
                        );
                        lemma_whole_batches_grow(at as int, size);
                        if next == count {
                            lemma_empty_batch(table@);
                            lemma_rest_written(
                                before,
                                table@,
                                table@,
                                read_upto(records, end),
                                Seq::<AddressRecordView>::empty(),
                                size,
                                true,
                            );
                            assert(read_upto(records, end) + Seq::<AddressRecordView>::empty()
                                =~= read_upto(records, end));
                        }
                    } else {
                        lemma_rest_written(
                            before,
                            middle,
                            table@,
                            written,
                            record_views(batch@),
                            size,
                            true,
                        );
                    }
                }
                at = next;
            },
        }
    }
    proof {
        lemma_skip_well_formed(records, 0, at as int);
        lemma_first_malformed_is_first(records, at as int);
    }
    Ok(count)
}

/// Imports a data file: reconciles its records into the table in
/// batches of [`BATCH_SIZE`] and, once the last batch is written, records
/// the snapshot in the state log. Where a row is malformed the import ends
/// with a data error and the log is left as it was.
pub fn process_data_response(
    state_info: &StateInfo,
    file: &DataFile,
    coordinates: &Vec<Option<(u32, u32)>>,
    table: &mut AddressTable,
    log: &mut StateLog,
) -> (result: Result<(), RefreshError>)
    requires
        old(table).wf(),
    ensures
        final(table).wf(),
        imported(
            old(table)@,
            final(table)@,
            file_records(file.columns, file.rows@, coordinates@),
            BATCH_SIZE as int,
            result is Ok,
        ),
        match result {
            Ok(_) => recorded(old(log)@, final(log)@, state_info@.hash, state_info@.version),
            Err(error) => final(log)@ == old(log)@ && error.kind() == ErrorKind::InvalidData,
        },
{
    match process_records(table, file, coordinates, BATCH_SIZE) {
        Ok(_) => {
            create_new_state(log, state_info);
            Ok(())
        },
        Err(error) => Err(error),
    }
}

/// What a download gives once it is read: the data file of the archive,
/// and for each of its rows the coordinates that were read from it.
#[derive(Debug)]
pub struct Download {
    pub file: DataFile,
    pub coordinates: Vec<Option<(u32, u32)>>,
}

/// Whether the snapshot on offer is one that the local data does not
/// have.
pub open spec fn is_stale(offer: Option<StateInfoView>, current: Option<StateView>) -> bool {
    offer matches Some(info) && !(current matches Some(state) && state.version == info.version)
}

/// How a refresh ends that imports nothing: by serving the local data
/// where there is some, else fatally.
pub open spec fn without_import(current: Option<StateView>) -> RefreshState {
    if current is Some {
        RefreshState::Fallback
    } else {
        RefreshState::Fatal
    }
}

/// Runs one refresh on the table and the log and returns the state in
/// which it ends. `response` is the status document as it was fetched,
/// `None` where fetching failed; `download` is what the download of the
/// archive gives, and is looked at only where the refresh imports.
///
/// The table and the log are written in one case only: the document
/// offers a snapshot of another version than the current state, and the
/// download succeeded. The log gets its entry only when every batch is
/// written.
pub fn refresh_data(
    table: &mut AddressTable,
    log: &mut StateLog,
    response: Option<&[u8]>,
    download: Result<Download, RefreshError>,
) -> (state: RefreshState)
    requires
        old(table).wf(),
    ensures
        final(table).wf(),
        ({
            let offer = offered(
                match response {
                    Some(document) => Some(document@),
                    None => None,
                },
            );
            let current = latest(old(log)@);
            if !is_stale(offer, current) {
                &&& state == (if offer is Some {
                    RefreshState::UpToDate
                } else {
                    without_import(current)
                })
                &&& final(table)@ == old(table)@
                &&& final(log)@ == old(log)@
            } else {
                match download {
                    Err(_) => {
                        &&& state == without_import(current)
                        &&& final(table)@ == old(table)@
                        &&& final(log)@ == old(log)@
                    },
                    Ok(read) => {
                        &&& imported(
                            old(table)@,
                            final(table)@,
                            file_records(read.file.columns, read.file.rows@, read.coordinates@),
                            BATCH_SIZE as int,
                            state is Committed,
                        )
                        &&& if state is Committed {
                            recorded(old(log)@, final(log)@, offer->0.hash, offer->0.version)
                        } else {
                            state == without_import(current) && final(log)@ == old(log)@
                        }
                    },
                }
            }
        }),
{
    let (checking, _) = refresh_state(RefreshState::Idle, RefreshEvent::Started);
    let status = get_data_status(response, current_state(log));
    let (decided, action) = refresh_state(checking, RefreshEvent::StatusKnown(status));
    match action {
        RefreshAction::Import(state_info) => {
            let outcome = match download {
                Ok(read) => process_data_response(
                    &state_info,
                    &read.file,
                    &read.coordinates,
                    table,
                    log,
                ),
                Err(error) => Err(error),
            };
            let event = match outcome {
                Ok(_) => RefreshEvent::Imported,
                Err(error) => RefreshEvent::ImportFailed(error),
            };
            let (ended, _) = refresh_state(decided, event);
            ended
        },
        _ => decided,
    }
}

} // verus!
