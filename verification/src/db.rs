//! The batch importer.
//!
//! Records are persisted in fixed-size chunks, each chunk inside one
//! transaction.  The decisions — which row to attempt next, what a row
//! failure does, when a chunk commits, what aborts a run — live in
//! `ImportRun`, a step machine the caller drives: it asks for the next
//! action, performs it against the real store, and reports the outcome.
//! A row whose insert fails is skipped and the chunk goes on; only a
//! failure to begin or commit a transaction aborts the run.
//!
//! `Table` is the importer's model of the persisted table: rows keyed by
//! `(account, id)` with conflict-safe insert, the semantics the real
//! store's upsert-guard provides.  The laws proved here — idempotent
//! re-import, one bad row never blocking the rest of its chunk — are
//! stated over this model.

use vstd::prelude::*;

use crate::record::{rec_views, CsvRecord, RecordV};

verus! {

/// Failure to reach the database at all; fatal to the invocation.
#[derive(Debug)]
pub enum DatabaseError {
    ConnectionError,
}

impl DatabaseError {
    pub fn connection() -> (r: Self)
        ensures
            r is ConnectionError,
    {
        DatabaseError::ConnectionError
    }
}

// --- the model of the persisted table ---

pub open spec fn key_matches(r: RecordV, account: Seq<char>, id: u64) -> bool {
    r.account == account && r.id == id
}

pub open spec fn rows_have_key(rows: Seq<RecordV>, account: Seq<char>, id: u64) -> bool {
    exists|i: int| 0 <= i < rows.len() && key_matches(#[trigger] rows[i], account, id)
}

/// Conflict-safe insert: a row whose natural key is already present is
/// silently dropped, never an error and never an update.
pub open spec fn insert_row(rows: Seq<RecordV>, r: RecordV) -> Seq<RecordV> {
    if rows_have_key(rows, r.account, r.id) {
        rows
    } else {
        rows.push(r)
    }
}

/// Conflict-safe insert of a batch, in input order.
pub open spec fn insert_rows(rows: Seq<RecordV>, rs: Seq<RecordV>) -> Seq<RecordV>
    decreases rs.len(),
{
    if rs.len() == 0 {
        rows
    } else {
        insert_rows(insert_row(rows, rs[0]), rs.drop_first())
    }
}

/// Conflict-safe insert of one chunk in which the store rejects some rows
/// (`rejected[k]`): a rejected row is skipped and the rest of the chunk is
/// still applied.
pub open spec fn chunk_apply(rows: Seq<RecordV>, chunk: Seq<RecordV>, rejected: Seq<bool>) -> Seq<
    RecordV,
>
    decreases chunk.len(),
{
    if chunk.len() == 0 {
        rows
    } else {
        let first = if rejected[0] {
            rows
        } else {
            insert_row(rows, chunk[0])
        };
        chunk_apply(first, chunk.drop_first(), rejected.drop_first())
    }
}

/// In-memory model of the persisted table: rows keyed by `(account, id)`,
/// filled only through conflict-safe inserts.
#[derive(Debug)]
pub struct Table {
    rows: Vec<CsvRecord>,
}

impl View for Table {
    type V = Seq<RecordV>;

    closed spec fn view(&self) -> Seq<RecordV> {
        rec_views(self.rows@)
    }
}

impl Table {
    /// An empty table.
    pub fn new() -> (t: Self)
        ensures
            t@ == Seq::<RecordV>::empty(),
    {
        let t = Table { rows: Vec::new() };
        proof {
            assert(t@ =~= Seq::<RecordV>::empty());
        }
        t
    }

    /// How many rows are persisted.
    pub fn row_count(&self) -> (n: usize)
        ensures
            n == self@.len(),
    {
        self.rows.len()
    }

    /// Whether a row with the given natural key is present.
    pub fn contains_key(&self, account: &String, id: u64) -> (b: bool)
        ensures
            b == rows_have_key(self@, account@, id),
    {
        let n = self.rows.len();
        let mut i: usize = 0;
        while i < n
            invariant
                0 <= i <= n,
                n == self.rows@.len(),
                self@.len() == n,
                forall|j: int| 0 <= j < i ==> !key_matches(#[trigger] self@[j], account@, id),
            decreases n - i,
        {
            if self.rows[i].id == id && self.rows[i].account == *account {
                proof {
                    assert(key_matches(self@[i as int], account@, id));
                }
                return true;
            }
            i = i + 1;
        }
        false
    }

    /// Insert unless the natural key is already present; reports whether
    /// the row was actually added.
    pub fn insert_conflict_safe(&mut self, rec: CsvRecord) -> (inserted: bool)
        ensures
            final(self)@ == insert_row(old(self)@, rec@),
            inserted == !rows_have_key(old(self)@, rec@.account, rec@.id),
    {
        if self.contains_key(&rec.account, rec.id) {
            false
        } else {
            self.rows.push(rec);
            proof {
                assert(self@ =~= old(self)@.push(rec@));
            }
            true
        }
    }

    /// Conflict-safe insert of a whole batch, in input order.
    pub fn insert_all(&mut self, records: &Vec<CsvRecord>)
        ensures
            final(self)@ == insert_rows(old(self)@, rec_views(records@)),
    {
        let n = records.len();
        proof {
            assert(rec_views(records@).skip(0) =~= rec_views(records@));
        }
        let mut i: usize = 0;
        while i < n
            invariant
                0 <= i <= n,
                n == records@.len(),
                insert_rows(self@, rec_views(records@).skip(i as int)) == insert_rows(
                    old(self)@,
                    rec_views(records@),
                ),
            decreases n - i,
        {
            let rec = records[i].clone();
            proof {
                assert(rec_views(records@).skip(i as int)[0] == records@[i as int]@);
                assert(rec_views(records@).skip(i as int).drop_first() =~= rec_views(
                    records@,
                ).skip(i + 1));
            }
            self.insert_conflict_safe(rec);
            i = i + 1;
        }
        proof {
            assert(rec_views(records@).skip(n as int) =~= Seq::<RecordV>::empty());
        }
    }

    /// Apply one chunk in which the store rejects the rows marked in
    /// `rejected`; every other row is still inserted conflict-safely.
    pub fn insert_chunk(&mut self, chunk: &Vec<CsvRecord>, rejected: &Vec<bool>)
        requires
            chunk@.len() == rejected@.len(),
        ensures
            final(self)@ == chunk_apply(old(self)@, rec_views(chunk@), rejected@),
    {
        let n = chunk.len();
        proof {
            assert(rec_views(chunk@).skip(0) =~= rec_views(chunk@));
            assert(rejected@.skip(0) =~= rejected@);
        }
        let mut i: usize = 0;
        while i < n
            invariant
                0 <= i <= n,
                n == chunk@.len(),
                n == rejected@.len(),
                chunk_apply(self@, rec_views(chunk@).skip(i as int), rejected@.skip(i as int))
                    == chunk_apply(old(self)@, rec_views(chunk@), rejected@),
            decreases n - i,
        {
            proof {
                assert(rec_views(chunk@).skip(i as int)[0] == chunk@[i as int]@);
                assert(rec_views(chunk@).skip(i as int).drop_first() =~= rec_views(chunk@).skip(
                    i + 1,
                ));
                assert(rejected@.skip(i as int).drop_first() =~= rejected@.skip(i + 1));
                assert(rejected@.skip(i as int)[0] == rejected@[i as int]);
            }
            if !rejected[i] {
                let rec = chunk[i].clone();
                self.insert_conflict_safe(rec);
            }
            i = i + 1;
        }
        proof {
            assert(rec_views(chunk@).skip(n as int) =~= Seq::<RecordV>::empty());
            assert(rejected@.skip(n as int) =~= Seq::<bool>::empty());
        }
    }

    /// The resume point of an account: the highest ordinal persisted for
    /// it, or `None` when the account has no rows yet.
    pub fn max_id_for_account(&self, account: &String) -> (r: Option<u64>)
        ensures
            r is None ==> forall|i: int| 0 <= i < self@.len() ==> (#[trigger] self@[i]).account
                != account@,
            r is Some ==> rows_have_key(self@, account@, r.unwrap()) && forall|i: int|
                0 <= i < self@.len() && (#[trigger] self@[i]).account == account@
                    ==> self@[i].id <= r.unwrap(),
    {
        let n = self.rows.len();
        let mut best: Option<u64> = None;
        let mut i: usize = 0;
        while i < n
            invariant
                0 <= i <= n,
                n == self.rows@.len(),
                self@.len() == n,
                best is None ==> forall|j: int| 0 <= j < i ==> (#[trigger] self@[j]).account
                    != account@,
                best is Some ==> (exists|j: int| 0 <= j < i && key_matches(
                    #[trigger] self@[j],
                    account@,
                    best.unwrap(),
                )),
                best is Some ==> forall|j: int| 0 <= j < i && (#[trigger] self@[j]).account
                    == account@ ==> self@[j].id <= best.unwrap(),
            decreases n - i,
        {
            if self.rows[i].account == *account {
                let id = self.rows[i].id;
                proof {
                    assert(self@[i as int].account == account@);
                    assert(self@[i as int].id == id);
                }
                match best {
                    None => {
                        best = Some(id);
                    },
                    Some(b) => {
                        if id > b {
                            best = Some(id);
                        }
                    },
                }
            }
            i = i + 1;
        }
        best
    }
}

// --- laws of the conflict-safe insert ---

proof fn lemma_insert_row_key(rows: Seq<RecordV>, r: RecordV, account: Seq<char>, id: u64)
    ensures
        rows_have_key(insert_row(rows, r), account, id) <==> (rows_have_key(rows, account, id)
            || key_matches(r, account, id)),
{
    if !rows_have_key(rows, r.account, r.id) {
        vstd::seq_lib::lemma_seq_contains_after_push(rows, r, r);
        assert(forall|j: int| 0 <= j < rows.len() ==> rows.push(r)[j] == #[trigger] rows[j]);
        assert(rows.push(r)[rows.len() as int] == r);
        if rows_have_key(rows, account, id) {
            let j = choose|j: int|
                0 <= j < rows.len() && key_matches(#[trigger] rows[j], account, id);
            assert(key_matches(rows.push(r)[j], account, id));
        }
        if rows_have_key(rows.push(r), account, id) {
            let j = choose|j: int|
                0 <= j < rows.push(r).len() && key_matches(#[trigger] rows.push(r)[j], account, id);
            if j < rows.len() {
                assert(key_matches(rows[j], account, id));
            }
        }
    }
}

/// Which keys a batch insert leaves in the table: exactly the old keys and
/// the keys of the batch.
proof fn lemma_insert_rows_key(rows: Seq<RecordV>, rs: Seq<RecordV>, account: Seq<char>, id: u64)
    ensures
        rows_have_key(insert_rows(rows, rs), account, id) <==> (rows_have_key(rows, account, id)
            || exists|k: int| 0 <= k < rs.len() && key_matches(#[trigger] rs[k], account, id)),
    decreases rs.len(),
{
    if rs.len() > 0 {
        lemma_insert_row_key(rows, rs[0], account, id);
        lemma_insert_rows_key(insert_row(rows, rs[0]), rs.drop_first(), account, id);
        assert(forall|k: int| 0 <= k < rs.drop_first().len() ==> #[trigger] rs.drop_first()[k]
            == rs[k + 1]);
        if exists|k: int| 0 <= k < rs.len() && key_matches(#[trigger] rs[k], account, id) {
            let k = choose|k: int| 0 <= k < rs.len() && key_matches(#[trigger] rs[k], account, id);
            if k > 0 {
                assert(key_matches(rs.drop_first()[k - 1], account, id));
            }
        }
    }
}

/// A batch whose every key is already present inserts nothing.
proof fn lemma_insert_rows_all_present(rows: Seq<RecordV>, rs: Seq<RecordV>)
    requires
        forall|k: int| 0 <= k < rs.len() ==> rows_have_key(
            rows,
            (#[trigger] rs[k]).account,
            rs[k].id,
        ),
    ensures
        insert_rows(rows, rs) == rows,
    decreases rs.len(),
{
    if rs.len() > 0 {
        assert(rows_have_key(rows, rs[0].account, rs[0].id));
        assert(insert_row(rows, rs[0]) == rows);
        assert(forall|k: int| 0 <= k < rs.drop_first().len() ==> #[trigger] rs.drop_first()[k]
            == rs[k + 1]);
        lemma_insert_rows_all_present(rows, rs.drop_first());
    }
}

/// Importing an identical batch a second time changes nothing: the
/// conflict-safe insert makes re-import idempotent, so in particular the
/// persisted row count is unchanged after the second run.
pub proof fn lemma_reimport_idempotent(rows: Seq<RecordV>, rs: Seq<RecordV>)
    ensures
        insert_rows(insert_rows(rows, rs), rs) == insert_rows(rows, rs),
{
    let once = insert_rows(rows, rs);
    assert forall|k: int| 0 <= k < rs.len() implies rows_have_key(
        once,
        (#[trigger] rs[k]).account,
        rs[k].id,
    ) by {
        lemma_insert_rows_key(rows, rs, rs[k].account, rs[k].id);
    }
    lemma_insert_rows_all_present(once, rs);
}

/// One rejected row never blocks the others: every row of a chunk that the
/// store does not reject has its key present once the chunk is applied.
pub proof fn lemma_rejected_row_does_not_block_others(
    rows: Seq<RecordV>,
    chunk: Seq<RecordV>,
    rejected: Seq<bool>,
    k: int,
)
    requires
        chunk.len() == rejected.len(),
        0 <= k < chunk.len(),
        !rejected[k],
    ensures
        rows_have_key(chunk_apply(rows, chunk, rejected), chunk[k].account, chunk[k].id),
    decreases chunk.len(),
{
    let first = if rejected[0] {
        rows
    } else {
        insert_row(rows, chunk[0])
    };
    if k == 0 {
        lemma_insert_row_key(rows, chunk[0], chunk[0].account, chunk[0].id);
        lemma_chunk_apply_keeps_keys(first, chunk.drop_first(), rejected.drop_first(),
            chunk[0].account, chunk[0].id);
    } else {
        lemma_rejected_row_does_not_block_others(first, chunk.drop_first(),
            rejected.drop_first(), k - 1);
        assert(chunk.drop_first()[k - 1] == chunk[k]);
    }
}

/// Applying a chunk never removes a key that is already present.
proof fn lemma_chunk_apply_keeps_keys(
    rows: Seq<RecordV>,
    chunk: Seq<RecordV>,
    rejected: Seq<bool>,
    account: Seq<char>,
    id: u64,
)
    requires
        rows_have_key(rows, account, id),
    ensures
        rows_have_key(chunk_apply(rows, chunk, rejected), account, id),
    decreases chunk.len(),
{
    if chunk.len() > 0 {
        let first = if rejected[0] {
            rows
        } else {
            insert_row(rows, chunk[0])
        };
        lemma_insert_row_key(rows, chunk[0], account, id);
        lemma_chunk_apply_keeps_keys(first, chunk.drop_first(), rejected.drop_first(), account, id);
    }
}

// --- the import step machine ---

/// Records persisted within one transaction.
pub const CHUNK_SIZE: usize = 50;

/// What the driver of an import run must do next.
#[derive(Debug, Clone, Copy, PartialEq, Eq, Structural)]
pub enum ImportAction {
    /// Open a transaction for the next chunk.
    BeginChunk,
    /// Attempt to insert the record at this index, conflict-safely.
    InsertRow(usize),
    /// Commit the open transaction.
    CommitChunk,
    /// All chunks committed.
    Finished,
    /// A transaction could not be begun or committed; the run is over and
    /// earlier committed chunks stand.
    Aborted,
}

/// What came back from the store.
#[derive(Debug, Clone, Copy, PartialEq, Eq, Structural)]
pub enum ImportEvent {
    ChunkBegan,
    ChunkFailed,
    RowInserted,
    RowConflicted,
    RowFailed,
    ChunkCommitted,
}

/// The state of one chunked import run over `total` records.
#[derive(Debug, Clone, Copy)]
pub struct ImportRun {
    pub total: usize,
    pub pos: usize,
    pub chunk_end: usize,
    pub in_chunk: bool,
    pub aborted: bool,
    pub inserted: u64,
    pub conflicted: u64,
    pub failed_rows: u64,
    pub committed_chunks: u64,
}

/// The events that answer an action.
pub open spec fn answers(a: ImportAction, e: ImportEvent) -> bool {
    match a {
        ImportAction::BeginChunk => e is ChunkBegan || e is ChunkFailed,
        ImportAction::InsertRow(_) => e is RowInserted || e is RowConflicted || e is RowFailed,
        ImportAction::CommitChunk => e is ChunkCommitted || e is ChunkFailed,
        ImportAction::Finished => false,
        ImportAction::Aborted => false,
    }
}

impl ImportRun {
    /// Rows are attempted strictly in input order; every attempted row got
    /// exactly one outcome; a chunk never stretches past the record list.
    pub open spec fn wf(&self) -> bool {
        &&& self.pos <= self.total
        &&& (self.in_chunk ==> self.pos <= self.chunk_end <= self.total)
        &&& (self.in_chunk ==> !self.aborted)
        &&& self.inserted + self.conflicted + self.failed_rows == self.pos
        &&& self.committed_chunks <= self.pos
        &&& (self.in_chunk ==> self.committed_chunks < self.chunk_end)
    }

    /// A fresh run over `total` records.
    pub fn new(total: usize) -> (r: Self)
        ensures
            r.wf(),
            r.total == total,
            r.pos == 0,
            !r.in_chunk,
            !r.aborted,
            r.inserted == 0,
            r.conflicted == 0,
            r.failed_rows == 0,
            r.committed_chunks == 0,
    {
        ImportRun {
            total,
            pos: 0,
            chunk_end: 0,
            in_chunk: false,
            aborted: false,
            inserted: 0,
            conflicted: 0,
            failed_rows: 0,
            committed_chunks: 0,
        }
    }

    /// The next thing the driver must do.
    pub open spec fn action_of(&self) -> ImportAction {
        if self.aborted {
            ImportAction::Aborted
        } else if self.in_chunk && self.pos < self.chunk_end {
            ImportAction::InsertRow(self.pos)
        } else if self.in_chunk {
            ImportAction::CommitChunk
        } else if self.pos < self.total {
            ImportAction::BeginChunk
        } else {
            ImportAction::Finished
        }
    }

    pub fn next_action(&self) -> (a: ImportAction)
        ensures
            a == self.action_of(),
    {
        if self.aborted {
            ImportAction::Aborted
        } else if self.in_chunk && self.pos < self.chunk_end {
            ImportAction::InsertRow(self.pos)
        } else if self.in_chunk {
            ImportAction::CommitChunk
        } else if self.pos < self.total {
            ImportAction::BeginChunk
        } else {
            ImportAction::Finished
        }
    }

    /// Feed the outcome of the pending action.
    ///
    /// A failed row advances past the row and stays in the chunk — the
    /// chunk is not rolled back for one bad row.  A failed begin or commit
    /// aborts the whole run.  An event that does not answer the pending
    /// action changes nothing.
    pub fn step(&mut self, e: ImportEvent)
        requires
            old(self).wf(),
        ensures
            final(self).wf(),
            final(self).total == old(self).total,
            !answers(old(self).action_of(), e) ==> *final(self) == *old(self),
            old(self).action_of() is BeginChunk && e is ChunkBegan ==> *final(self) == (ImportRun {
                in_chunk: true,
                chunk_end: if old(self).pos + CHUNK_SIZE <= old(self).total {
                    (old(self).pos + CHUNK_SIZE) as usize
                } else {
                    old(self).total
                },
                ..*old(self)
            }),
            old(self).action_of() is BeginChunk && e is ChunkFailed ==> *final(self) == (ImportRun {
                aborted: true,
                ..*old(self)
            }),
            old(self).action_of() is InsertRow && e is RowInserted ==> *final(self) == (ImportRun {
                pos: (old(self).pos + 1) as usize,
                inserted: (old(self).inserted + 1) as u64,
                ..*old(self)
            }),
            old(self).action_of() is InsertRow && e is RowConflicted ==> *final(self) == (ImportRun {
                pos: (old(self).pos + 1) as usize,
                conflicted: (old(self).conflicted + 1) as u64,
                ..*old(self)
            }),
            old(self).action_of() is InsertRow && e is RowFailed ==> *final(self) == (ImportRun {
                pos: (old(self).pos + 1) as usize,
                failed_rows: (old(self).failed_rows + 1) as u64,
                ..*old(self)
            }),
            old(self).action_of() is CommitChunk && e is ChunkCommitted ==> *final(self) == (
            ImportRun {
                in_chunk: false,
                committed_chunks: (old(self).committed_chunks + 1) as u64,
                ..*old(self)
            }),
            old(self).action_of() is CommitChunk && e is ChunkFailed ==> *final(self) == (ImportRun {
                in_chunk: false,
                aborted: true,
                ..*old(self)
            }),
    {
        let a = self.next_action();
        match a {
            ImportAction::BeginChunk => {
                match e {
                    ImportEvent::ChunkBegan => {
                        self.in_chunk = true;
                        self.chunk_end = if self.total - self.pos >= CHUNK_SIZE {
                            self.pos + CHUNK_SIZE
                        } else {
                            self.total
                        };
                    },
                    ImportEvent::ChunkFailed => {
                        self.aborted = true;
                    },
                    _ => {},
                }
            },
            ImportAction::InsertRow(_) => {
                match e {
                    ImportEvent::RowInserted => {
                        self.pos = self.pos + 1;
                        self.inserted = self.inserted + 1;
                    },
                    ImportEvent::RowConflicted => {
                        self.pos = self.pos + 1;
                        self.conflicted = self.conflicted + 1;
                    },
                    ImportEvent::RowFailed => {
                        self.pos = self.pos + 1;
                        self.failed_rows = self.failed_rows + 1;
                    },
                    _ => {},
                }
            },
            ImportAction::CommitChunk => {
                match e {
                    ImportEvent::ChunkCommitted => {
                        self.in_chunk = false;
                        self.committed_chunks = self.committed_chunks + 1;
                    },
                    ImportEvent::ChunkFailed => {
                        self.in_chunk = false;
                        self.aborted = true;
                    },
                    _ => {},
                }
            },
            ImportAction::Finished => {},
            ImportAction::Aborted => {},
        }
    }
}

/// A finished run attempted every record exactly once: each row got one
/// of the three outcomes, no chunk was left open, and nothing aborted.
pub proof fn lemma_finished_run_attempted_all(r: ImportRun)
    requires
        r.wf(),
        r.action_of() is Finished,
    ensures
        r.pos == r.total,
        !r.in_chunk,
        !r.aborted,
        r.inserted + r.conflicted + r.failed_rows == r.total,
{
}

/// A row failure is isolated: it advances the run to the next row of the
/// same chunk (or to that chunk's commit) and never aborts the run.
pub proof fn lemma_row_failure_isolated(before: ImportRun, after: ImportRun)
    requires
        before.wf(),
        before.action_of() is InsertRow,
        after == (ImportRun {
            pos: (before.pos + 1) as usize,
            failed_rows: (before.failed_rows + 1) as u64,
            ..before
        }),
    ensures
        !after.aborted,
        after.in_chunk,
        after.action_of() is InsertRow || after.action_of() is CommitChunk,
        after.action_of() is InsertRow ==> after.action_of()->InsertRow_0 == before.pos + 1,
{
}

} // verus!
