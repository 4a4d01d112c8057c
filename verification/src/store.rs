//! Bundle storage in SQLite: which bundles are held, which are tombstoned,
//! and how often each was handed on.
//!
//! The database is reached through `rusqlite`. What the `bundles` and
//! `tombstones` tables hold is named below, and each statement the store
//! runs is a small trusted item whose contract says how it reads or changes
//! those rows. The store's rules (a tombstone blocks reinsertion, a
//! duplicate is reported and not stored) are verified over them.
use vstd::prelude::*;
use crate::types::{BundleId, group_id_lemmas};
use crate::error::WireError;
use crate::bundle::{WireBundle, WireBundleView, spec_validate_shape, spec_encode_bundle, spec_decode_bundle};

verus! {

broadcast use group_id_lemmas;

#[verifier::external_type_specification]
#[verifier::external_body]
pub struct ExConnection(rusqlite::Connection);

#[verifier::external_type_specification]
#[verifier::external_body]
pub struct ExSqliteError(rusqlite::Error);

/// A row of the `bundles` table: encoded bundle, destination id, bundle
/// type code, priority code, first-seen time, forward count.
pub type BundleRow = (Seq<u8>, Seq<u8>, i64, i64, i64, int);

/// A row of the `tombstones` table: reason, creation time, expiry time.
pub type TombstoneRow = (i64, i64, i64);

/// The rows of the `bundles` table of the database behind `conn`, by bundle
/// id (none while the table does not exist). The statements below are the
/// only writers accounted for: what another connection to the same file
/// writes meanwhile is not stated.
pub uninterp spec fn sql_bundle_rows(conn: rusqlite::Connection) -> Map<Seq<u8>, (Seq<u8>, Seq<u8>, i64, i64, i64, int)>;

/// The rows of the `tombstones` table, by bundle id (none while the table
/// does not exist).
pub uninterp spec fn sql_tombstone_rows(conn: rusqlite::Connection) -> Map<Seq<u8>, (i64, i64, i64)>;

/// Whether the connection pragmas of the store (foreign keys on, WAL
/// journal, normal synchronous mode) have been applied to `conn`.
pub uninterp spec fn sql_configured(conn: rusqlite::Connection) -> bool;

/// Whether the store's tables (`schema_meta`, `bundles`, `tombstones`) exist
/// in the database behind `conn`.
pub uninterp spec fn sql_tables_ready(conn: rusqlite::Connection) -> bool;

/// The schema version that `SELECT version FROM schema_meta LIMIT 1` gives
/// (none while no version is recorded).
pub uninterp spec fn sql_recorded_version(conn: rusqlite::Connection) -> Option<i64>;

/// A row as listed by the store's query.
pub struct SqlBundleRow {
    pub bundle_id: Vec<u8>,
    pub encoded: Vec<u8>,
    pub priority: i64,
    pub first_seen_at_ms: i64,
    pub forward_count: u32,
}

/// `rows` lists exactly the rows of `table`, each once, ordered by priority
/// (highest first) and then by first-seen time (earliest first).
pub open spec fn rows_listed(table: Map<Seq<u8>, BundleRow>, rows: Seq<SqlBundleRow>) -> bool {
    &&& forall|i: int|
        0 <= i < rows.len() ==> {
            let r = #[trigger] rows[i];
            &&& table.contains_key(r.bundle_id@)
            &&& table[r.bundle_id@].0 == r.encoded@
            &&& table[r.bundle_id@].3 == r.priority
            &&& table[r.bundle_id@].4 == r.first_seen_at_ms
            &&& table[r.bundle_id@].5 == r.forward_count as int
        }
    &&& forall|i: int, j: int| 0 <= i < j < rows.len() ==> rows[i].bundle_id@ != rows[j].bundle_id@
    &&& forall|k: Seq<u8>| #[trigger] table.contains_key(k) ==> exists|i: int| 0 <= i < rows.len() && rows[i].bundle_id@ == k
    &&& forall|i: int, j: int|
        0 <= i < j < rows.len() ==> (rows[i].priority > rows[j].priority || (rows[i].priority == rows[j].priority
            && rows[i].first_seen_at_ms <= rows[j].first_seen_at_ms))
}

/// The tables of the store; each is created only if it does not exist.
pub const SCHEMA_SQL: &'static str = "CREATE TABLE IF NOT EXISTS schema_meta (version INTEGER NOT NULL);
CREATE TABLE IF NOT EXISTS bundles (
    bundle_id BLOB PRIMARY KEY NOT NULL,
    encoded_bundle BLOB NOT NULL,
    destination_id BLOB NOT NULL,
    bundle_type INTEGER NOT NULL,
    priority INTEGER NOT NULL,
    first_seen_at_ms INTEGER NOT NULL,
    forward_count INTEGER NOT NULL DEFAULT 0
);
CREATE TABLE IF NOT EXISTS tombstones (
    bundle_id BLOB PRIMARY KEY NOT NULL,
    reason INTEGER NOT NULL,
    created_at_ms INTEGER NOT NULL,
    expires_at_ms INTEGER NOT NULL
);";

/// A row read back agrees with the table's row for its id.
pub open spec fn row_of_table(table: Map<Seq<u8>, BundleRow>, r: SqlBundleRow) -> bool {
    &&& table.contains_key(r.bundle_id@)
    &&& table[r.bundle_id@].0 == r.encoded@
    &&& table[r.bundle_id@].3 == r.priority
    &&& table[r.bundle_id@].4 == r.first_seen_at_ms
    &&& table[r.bundle_id@].5 == r.forward_count as int
}

/// The rows of a listing, in order, before any is checked.
pub open spec fn items_rows(items: Seq<Result<SqlBundleRow, rusqlite::Error>>) -> Seq<SqlBundleRow> {
    items.map_values(|x: Result<SqlBundleRow, rusqlite::Error>| x->Ok_0)
}

/// What a listing of `table` reads: each row read is a row of the table, and
/// when every row reads, they list the table (`rows_listed`).
pub open spec fn items_listed(table: Map<Seq<u8>, BundleRow>, items: Seq<Result<SqlBundleRow, rusqlite::Error>>) -> bool {
    &&& forall|i: int| 0 <= i < items.len() ==> (#[trigger] items[i] matches Ok(r) ==> row_of_table(table, r))
    &&& (forall|i: int| 0 <= i < items.len() ==> #[trigger] items[i] is Ok) ==> rows_listed(table, items_rows(items))
}

// ---------------------------------------------------------------------------
// The statements
// ---------------------------------------------------------------------------

/// `rusqlite::Connection::open`: opens (or creates) the database file.
/// Nothing is claimed of what it already holds.
#[verifier::external_body]
fn sql_open(path: &str) -> (res: Result<rusqlite::Connection, rusqlite::Error>) {
    rusqlite::Connection::open(path)
}

/// `rusqlite::Connection::open_in_memory`: a new, empty in-memory database.
#[verifier::external_body]
fn sql_open_in_memory() -> (res: Result<rusqlite::Connection, rusqlite::Error>)
    ensures
        res matches Ok(c) ==> sql_bundle_rows(c).dom() == Set::<Seq<u8>>::empty()
            && sql_tombstone_rows(c).dom() == Set::<Seq<u8>>::empty() && sql_recorded_version(c) is None,
{
    rusqlite::Connection::open_in_memory()
}

/// `Connection::execute_batch` of the connection pragmas (foreign keys, WAL
/// journal, normal synchronous mode): once it succeeds they are applied. No
/// table or row changes.
#[verifier::external_body]
fn sql_configure(conn: &mut rusqlite::Connection) -> (res: Result<(), rusqlite::Error>)
    ensures
        res is Ok ==> sql_configured(*final(conn)),
        sql_tables_ready(*final(conn)) == sql_tables_ready(*old(conn)),
        sql_recorded_version(*final(conn)) == sql_recorded_version(*old(conn)),
        sql_bundle_rows(*final(conn)) == sql_bundle_rows(*old(conn)),
        sql_tombstone_rows(*final(conn)) == sql_tombstone_rows(*old(conn)),
{
    conn.execute_batch("PRAGMA foreign_keys = ON;\nPRAGMA journal_mode = WAL;\nPRAGMA synchronous = NORMAL;")
}

/// `Connection::execute_batch` of the schema: once it succeeds the tables
/// exist. Each table is created only if it does not exist, so no row
/// changes; the connection's pragmas stay as they were.
#[verifier::external_body]
fn sql_create_schema(conn: &mut rusqlite::Connection) -> (res: Result<(), rusqlite::Error>)
    ensures
        res is Ok ==> sql_tables_ready(*final(conn)),
        sql_configured(*final(conn)) == sql_configured(*old(conn)),
        sql_recorded_version(*final(conn)) == sql_recorded_version(*old(conn)),
        sql_bundle_rows(*final(conn)) == sql_bundle_rows(*old(conn)),
        sql_tombstone_rows(*final(conn)) == sql_tombstone_rows(*old(conn)),
{
    conn.execute_batch(SCHEMA_SQL)
}

/// `Connection::query_row` with `OptionalExtension::optional`: the recorded
/// schema version, if any.
#[verifier::external_body]
fn sql_schema_version(conn: &rusqlite::Connection) -> (res: Result<Option<i64>, rusqlite::Error>)
    ensures
        res matches Ok(v) ==> v == sql_recorded_version(*conn),
{
    rusqlite::OptionalExtension::optional(
        conn.query_row("SELECT version FROM schema_meta LIMIT 1", (), |row| row.get::<usize, i64>(0)),
    )
}

/// `Connection::execute` recording schema version 1: into an empty
/// `schema_meta` it makes 1 the version read back. No bundle or tombstone
/// row changes; the tables and pragmas stay as they were.
#[verifier::external_body]
fn sql_record_schema_version(conn: &mut rusqlite::Connection) -> (res: Result<(), rusqlite::Error>)
    ensures
        res is Ok && sql_recorded_version(*old(conn)) is None ==> sql_recorded_version(*final(conn)) == Some(1i64),
        res is Err ==> sql_recorded_version(*final(conn)) == sql_recorded_version(*old(conn)),
        sql_configured(*final(conn)) == sql_configured(*old(conn)),
        sql_tables_ready(*final(conn)) == sql_tables_ready(*old(conn)),
        sql_bundle_rows(*final(conn)) == sql_bundle_rows(*old(conn)),
        sql_tombstone_rows(*final(conn)) == sql_tombstone_rows(*old(conn)),
{
    conn.execute("INSERT INTO schema_meta(version) VALUES (1)", ()).map(|_| ())
}

/// `Connection::query_row` looking the id up in `bundles`: whether a row
/// has it.
#[verifier::external_body]
fn sql_bundle_exists(conn: &rusqlite::Connection, bundle_id: &[u8; 16]) -> (res: Result<bool, rusqlite::Error>)
    ensures
        res matches Ok(b) ==> b == sql_bundle_rows(*conn).contains_key(bundle_id@),
{
    rusqlite::OptionalExtension::optional(conn.query_row(
        "SELECT 1 FROM bundles WHERE bundle_id = ?1 LIMIT 1",
        (bundle_id.as_slice(),),
        |row| row.get::<usize, i64>(0),
    )).map(|found| found.is_some())
}

/// `Connection::query_row` looking the id up in `tombstones`: whether a row
/// has it.
#[verifier::external_body]
fn sql_tombstone_exists(conn: &rusqlite::Connection, bundle_id: &[u8; 16]) -> (res: Result<bool, rusqlite::Error>)
    ensures
        res matches Ok(b) ==> b == sql_tombstone_rows(*conn).contains_key(bundle_id@),
{
    rusqlite::OptionalExtension::optional(conn.query_row(
        "SELECT 1 FROM tombstones WHERE bundle_id = ?1 LIMIT 1",
        (bundle_id.as_slice(),),
        |row| row.get::<usize, i64>(0),
    )).map(|found| found.is_some())
}

/// `Connection::execute` of one `INSERT INTO bundles` (forward count taking
/// its default, 0). A statement that fails changes nothing; the primary key
/// refuses an id that is already there.
#[verifier::external_body]
fn sql_insert_bundle_row(
    conn: &mut rusqlite::Connection,
    bundle_id: &[u8; 16],
    encoded: &[u8],
    destination_id: &[u8; 16],
    bundle_type: i64,
    priority: i64,
    first_seen_at_ms: i64,
) -> (res: Result<(), rusqlite::Error>)
    ensures
        res is Ok ==> !sql_bundle_rows(*old(conn)).contains_key(bundle_id@) && sql_bundle_rows(*final(conn))
            == sql_bundle_rows(*old(conn)).insert(
            bundle_id@,
            (encoded@, destination_id@, bundle_type, priority, first_seen_at_ms, 0int),
        ),
        res is Err ==> sql_bundle_rows(*final(conn)) == sql_bundle_rows(*old(conn)),
        sql_tombstone_rows(*final(conn)) == sql_tombstone_rows(*old(conn)),
{
    conn.execute(
        "INSERT INTO bundles(bundle_id, encoded_bundle, destination_id, bundle_type, priority, first_seen_at_ms) \
         VALUES (?1, ?2, ?3, ?4, ?5, ?6)",
        (bundle_id.as_slice(), encoded, destination_id.as_slice(), bundle_type, priority, first_seen_at_ms),
    ).map(|_| ())
}

/// `Statement::query_map` of all bundle rows `ORDER BY priority DESC,
/// first_seen_at_ms ASC`, each row as read (a forward count outside `u32`
/// fails that row's conversion). Every row read is a row of the table; when
/// every row reads, they are all the rows, each once, in that order. Rows
/// that tie on both keys come in an order SQLite chooses, which is left open.
#[verifier::external_body]
fn sql_list_bundle_rows(conn: &rusqlite::Connection) -> (res: Result<
    Vec<Result<SqlBundleRow, rusqlite::Error>>,
    rusqlite::Error,
>)
    ensures
        res matches Ok(items) ==> items_listed(sql_bundle_rows(*conn), items@),
{
    let mut stmt = conn.prepare(
        "SELECT bundle_id, encoded_bundle, priority, first_seen_at_ms, forward_count \
         FROM bundles ORDER BY priority DESC, first_seen_at_ms ASC",
    )?;
    let rows = stmt.query_map((), |row| Ok(SqlBundleRow {
        bundle_id: row.get(0)?, encoded: row.get(1)?, priority: row.get(2)?,
        first_seen_at_ms: row.get(3)?, forward_count: row.get(4)?,
    }))?;
    Ok(rows.collect())
}

/// `Connection::execute` of `UPDATE bundles SET forward_count =
/// forward_count + 1` for one id (no row changes if the id is absent).
#[verifier::external_body]
fn sql_increment_forward_count(conn: &mut rusqlite::Connection, bundle_id: &[u8; 16]) -> (res: Result<(), rusqlite::Error>)
    ensures
        res is Ok ==> sql_bundle_rows(*final(conn)) == (if sql_bundle_rows(*old(conn)).contains_key(bundle_id@) {
            let r = sql_bundle_rows(*old(conn))[bundle_id@];
            sql_bundle_rows(*old(conn)).insert(bundle_id@, (r.0, r.1, r.2, r.3, r.4, r.5 + 1))
        } else {
            sql_bundle_rows(*old(conn))
        }),
        res is Err ==> sql_bundle_rows(*final(conn)) == sql_bundle_rows(*old(conn)),
        sql_tombstone_rows(*final(conn)) == sql_tombstone_rows(*old(conn)),
{
    conn.execute(
        "UPDATE bundles SET forward_count = forward_count + 1 WHERE bundle_id = ?1",
        (bundle_id.as_slice(),),
    ).map(|_| ())
}

/// One `Connection::transaction`: `DELETE FROM bundles` for the id, then
/// `INSERT OR REPLACE INTO tombstones`, then commit. On any failure the
/// transaction is dropped, which rolls it back, so nothing changes.
#[verifier::external_body]
fn sql_tombstone_bundle(
    conn: &mut rusqlite::Connection,
    bundle_id: &[u8; 16],
    reason: i64,
    created_at_ms: i64,
    expires_at_ms: i64,
) -> (res: Result<(), rusqlite::Error>)
    ensures
        res is Ok ==> sql_bundle_rows(*final(conn)) == sql_bundle_rows(*old(conn)).remove(bundle_id@)
            && sql_tombstone_rows(*final(conn)) == sql_tombstone_rows(*old(conn)).insert(
            bundle_id@,
            (reason, created_at_ms, expires_at_ms),
        ),
        res is Err ==> sql_bundle_rows(*final(conn)) == sql_bundle_rows(*old(conn)) && sql_tombstone_rows(
            *final(conn),
        ) == sql_tombstone_rows(*old(conn)),
{
    let tx = conn.transaction()?;
    tx.execute("DELETE FROM bundles WHERE bundle_id = ?1", (bundle_id.as_slice(),))?;
    tx.execute(
        "INSERT OR REPLACE INTO tombstones(bundle_id, reason, created_at_ms, expires_at_ms) VALUES (?1, ?2, ?3, ?4)",
        (bundle_id.as_slice(), reason, created_at_ms, expires_at_ms),
    )?;
    tx.commit()
}

// ---------------------------------------------------------------------------
// The store
// ---------------------------------------------------------------------------

/// A stored bundle with its local bookkeeping.
#[derive(Clone, Debug)]
pub struct StoredBundle {
    pub bundle: WireBundle,
    pub first_seen_at_ms: i64,
    pub forward_count: u32,
}

/// What happened to a bundle offered to the store.
#[derive(Clone, Copy, Debug, PartialEq, Eq, Structural)]
pub enum InsertOutcome {
    Inserted,
    Duplicate,
    RejectedTombstoned,
}

/// Errors of the store: the database's, or the wire format's.
#[derive(Debug)]
pub enum StoreError {
    Sqlite(rusqlite::Error),
    Wire(WireError),
}

/// What the store holds: its bundle rows and its tombstones, by bundle id.
pub struct StoreView {
    pub bundles: Map<Seq<u8>, BundleRow>,
    pub tombstones: Map<Seq<u8>, TombstoneRow>,
}

/// The row a bundle is stored as.
pub open spec fn spec_bundle_row(b: WireBundleView, first_seen_at_ms: i64) -> BundleRow {
    (
        spec_encode_bundle(b),
        b.immutable.destination_id,
        b.immutable.bundle_type.spec_code() as i64,
        b.immutable.priority.spec_code() as i64,
        first_seen_at_ms,
        0int,
    )
}

/// The store's answer to a bundle with this id: a tombstone wins over a
/// stored copy.
pub open spec fn spec_insert_outcome(v: StoreView, bundle_id: Seq<u8>) -> InsertOutcome {
    if v.tombstones.contains_key(bundle_id) {
        InsertOutcome::RejectedTombstoned
    } else if v.bundles.contains_key(bundle_id) {
        InsertOutcome::Duplicate
    } else {
        InsertOutcome::Inserted
    }
}

/// The store after a successful insert: only a new bundle is added.
pub open spec fn spec_after_insert(v: StoreView, b: WireBundleView, first_seen_at_ms: i64) -> StoreView {
    if spec_insert_outcome(v, b.immutable.bundle_id) == InsertOutcome::Inserted {
        StoreView {
            bundles: v.bundles.insert(b.immutable.bundle_id, spec_bundle_row(b, first_seen_at_ms)),
            tombstones: v.tombstones,
        }
    } else {
        v
    }
}

/// The store after a tombstone: the bundle is gone and the tombstone set.
pub open spec fn spec_after_tombstone(v: StoreView, bundle_id: Seq<u8>, reason: i64, created_at_ms: i64, expires_at_ms: i64) -> StoreView {
    StoreView {
        bundles: v.bundles.remove(bundle_id),
        tombstones: v.tombstones.insert(bundle_id, (reason, created_at_ms, expires_at_ms)),
    }
}

/// The store after a forward: the bundle's count goes up by one, if it is held.
pub open spec fn spec_after_forward(v: StoreView, bundle_id: Seq<u8>) -> StoreView {
    if v.bundles.contains_key(bundle_id) {
        let r = v.bundles[bundle_id];
        StoreView {
            bundles: v.bundles.insert(bundle_id, (r.0, r.1, r.2, r.3, r.4, r.5 + 1)),
            tombstones: v.tombstones,
        }
    } else {
        v
    }
}

/// Stored rows as bundles, in the given order; the first row that does not
/// decode gives its error.
pub open spec fn spec_decode_rows(rows: Seq<SqlBundleRow>) -> Result<Seq<(WireBundleView, i64, u32)>, WireError>
    decreases rows.len(),
{
    if rows.len() == 0 {
        Ok(Seq::empty())
    } else {
        match spec_decode_rows(rows.drop_last()) {
            Err(e) => Err(e),
            Ok(prefix) => match spec_decode_bundle(rows.last().encoded@) {
                Err(e) => Err(e),
                Ok(b) => Ok(prefix.push((b, rows.last().first_seen_at_ms, rows.last().forward_count))),
            },
        }
    }
}

/// Going through a listing in order: a row that does not read stops it
/// (`Err(None)`), a row that does not decode stops it with its wire error
/// (`Err(Some(e))`); otherwise the decoded rows.
pub open spec fn spec_scan_rows(items: Seq<Result<SqlBundleRow, rusqlite::Error>>) -> Result<
    Seq<(WireBundleView, i64, u32)>,
    Option<WireError>,
>
    decreases items.len(),
{
    if items.len() == 0 {
        Ok(Seq::empty())
    } else {
        match spec_scan_rows(items.drop_last()) {
            Err(e) => Err(e),
            Ok(prefix) => match items.last() {
                Err(_) => Err(None),
                Ok(r) => match spec_decode_bundle(r.encoded@) {
                    Err(e) => Err(Some(e)),
                    Ok(b) => Ok(prefix.push((b, r.first_seen_at_ms, r.forward_count))),
                },
            },
        }
    }
}

/// Listing the store's rows in order, some row does not decode, with `e`,
/// before any row that does not read.
pub open spec fn listing_fails(v: StoreView, e: WireError) -> bool {
    exists|items: Seq<Result<SqlBundleRow, rusqlite::Error>>|
        items_listed(v.bundles, items) && #[trigger] spec_scan_rows(items) == Err::<
            Seq<(WireBundleView, i64, u32)>,
            Option<WireError>,
        >(Some(e))
}

/// A listing that goes through without a stop has every row read, and its
/// rows decode as `spec_decode_rows` says.
pub proof fn lemma_scan_rows_ok(items: Seq<Result<SqlBundleRow, rusqlite::Error>>)
    requires
        spec_scan_rows(items) is Ok,
    ensures
        forall|i: int| 0 <= i < items.len() ==> #[trigger] items[i] is Ok,
        spec_decode_rows(items_rows(items)) == Ok::<Seq<(WireBundleView, i64, u32)>, WireError>(
            spec_scan_rows(items)->Ok_0,
        ),
    decreases items.len(),
{
    if items.len() > 0 {
        let p = items.drop_last();
        lemma_scan_rows_ok(p);
        assert(items_rows(items).drop_last() =~= items_rows(p));
        assert forall|i: int| 0 <= i < items.len() implies #[trigger] items[i] is Ok by {
            if i < p.len() {
                assert(items[i] == p[i]);
            }
        }
    }
}

/// A stored bundle as plain values.
pub open spec fn stored_view(s: StoredBundle) -> (WireBundleView, i64, u32) {
    (s.bundle@, s.first_seen_at_ms, s.forward_count)
}

/// Goes through a listing in order: the first row that did not read is
/// its SQLite error, the first row that does not decode is its wire error;
/// otherwise the stored bundles.
pub fn decode_rows(items: Vec<Result<SqlBundleRow, rusqlite::Error>>) -> (res: Result<Vec<StoredBundle>, StoreError>)
    ensures
        match spec_scan_rows(items@) {
            Ok(v) => res matches Ok(list) && list@.map_values(|s: StoredBundle| stored_view(s)) == v,
            Err(Some(e)) => res == Err::<Vec<StoredBundle>, StoreError>(StoreError::Wire(e)),
            Err(None) => res matches Err(StoreError::Sqlite(_)),
        },
{
    let ghost all = items@;
    let n: usize = items.len();
    let mut rest = items;
    let mut result: Vec<StoredBundle> = Vec::new();
    let mut i: usize = 0;
    assert(all.take(0) =~= Seq::<Result<SqlBundleRow, rusqlite::Error>>::empty());
    assert(result@.map_values(|s: StoredBundle| stored_view(s)) =~= Seq::<(WireBundleView, i64, u32)>::empty());
    while rest.len() > 0
        invariant
            i <= all.len(),
            all == items@,
            all.len() == n,
            rest@ == all.skip(i as int),
            result@.len() == i,
            spec_scan_rows(all.take(i as int)) == Ok::<Seq<(WireBundleView, i64, u32)>, Option<WireError>>(
                result@.map_values(|s: StoredBundle| stored_view(s)),
            ),
        decreases rest@.len(),
    {
        let item = rest.remove(0);
        assert(item == all[i as int]);
        assert(all.take(i + 1).drop_last() =~= all.take(i as int));
        assert(all.take(i + 1).last() == all[i as int]);
        let row = match item {
            Ok(r) => r,
            Err(e) => {
                proof {
                    assert(spec_scan_rows(all.take(i + 1)) == Err::<Seq<(WireBundleView, i64, u32)>, Option<WireError>>(None));
                    lemma_scan_rows_stops(all, i as int);
                }
                return Err(StoreError::Sqlite(e));
            },
        };
        let bundle = match WireBundle::decode_cbor(row.encoded.as_slice()) {
            Ok(b) => b,
            Err(e) => {
                proof {
                    assert(spec_scan_rows(all.take(i + 1)) == Err::<Seq<(WireBundleView, i64, u32)>, Option<WireError>>(Some(e)));
                    lemma_scan_rows_stops(all, i as int);
                }
                return Err(StoreError::Wire(e));
            },
        };
        let ghost before = result@;
        let stored = StoredBundle { bundle, first_seen_at_ms: row.first_seen_at_ms, forward_count: row.forward_count };
        let ghost sv = stored_view(stored);
        result.push(stored);
        assert(result@.map_values(|s: StoredBundle| stored_view(s)) =~= before.map_values(
            |s: StoredBundle| stored_view(s),
        ).push(sv));
        assert(rest@ =~= all.skip(i + 1));
        i = i + 1;
    }
    assert(all.take(i as int) =~= all);
    Ok(result)
}

/// A row that stops the listing decides its result, once every row before
/// it went through.
proof fn lemma_scan_rows_stops(items: Seq<Result<SqlBundleRow, rusqlite::Error>>, i: int)
    requires
        0 <= i < items.len(),
        spec_scan_rows(items.take(i)) is Ok,
        spec_scan_rows(items.take(i + 1)) is Err,
    ensures
        spec_scan_rows(items) == spec_scan_rows(items.take(i + 1)),
    decreases items.len(),
{
    if i == items.len() - 1 {
        assert(items.take(i + 1) =~= items);
    } else {
        assert(items.drop_last().take(i) =~= items.take(i));
        assert(items.drop_last().take(i + 1) =~= items.take(i + 1));
        lemma_scan_rows_stops(items.drop_last(), i);
    }
}

/// The bundle store.
pub struct MeshStore {
    conn: rusqlite::Connection,
}

impl View for MeshStore {
    type V = StoreView;

    closed spec fn view(&self) -> StoreView {
        StoreView { bundles: sql_bundle_rows(self.conn), tombstones: sql_tombstone_rows(self.conn) }
    }
}

impl MeshStore {
    /// The connection pragmas have been applied.
    pub closed spec fn configured(&self) -> bool {
        sql_configured(self.conn)
    }

    /// The store's tables exist.
    pub closed spec fn tables_ready(&self) -> bool {
        sql_tables_ready(self.conn)
    }

    /// The schema version recorded in the database, if any.
    pub closed spec fn schema_version(&self) -> Option<i64> {
        sql_recorded_version(self.conn)
    }

    /// Opens the store in the database file at `path`: applies the
    /// connection pragmas, creates the tables if needed and records schema
    /// version 1 if none is recorded.
    pub fn open(path: &str) -> (res: Result<Self, StoreError>)
        ensures
            res matches Ok(s) ==> s.configured() && s.tables_ready() && s.schema_version() is Some,
            res matches Err(e) ==> e is Sqlite,
    {
        let conn = match sql_open(path) {
            Ok(c) => c,
            Err(e) => return Err(StoreError::Sqlite(e)),
        };
        let mut store = MeshStore { conn };
        store.configure()?;
        store.migrate()?;
        Ok(store)
    }

    /// A fresh, empty store in memory.
    pub fn open_in_memory() -> (res: Result<Self, StoreError>)
        ensures
            res matches Ok(s) ==> s@.bundles.dom() == Set::<Seq<u8>>::empty() && s@.tombstones.dom() == Set::<Seq<u8>>::empty(),
            res matches Ok(s) ==> s.configured() && s.tables_ready() && s.schema_version() == Some(1i64),
            res matches Err(e) ==> e is Sqlite,
    {
        let conn = match sql_open_in_memory() {
            Ok(c) => c,
            Err(e) => return Err(StoreError::Sqlite(e)),
        };
        let mut store = MeshStore { conn };
        store.configure()?;
        store.migrate()?;
        Ok(store)
    }

    /// Applies the connection pragmas.
    fn configure(&mut self) -> (res: Result<(), StoreError>)
        ensures
            final(self)@ == old(self)@,
            res is Ok ==> final(self).configured(),
            final(self).tables_ready() == old(self).tables_ready(),
            final(self).schema_version() == old(self).schema_version(),
            res matches Err(e) ==> e is Sqlite,
    {
        match sql_configure(&mut self.conn) {
            Ok(()) => Ok(()),
            Err(e) => Err(StoreError::Sqlite(e)),
        }
    }

    /// Creates the tables if needed and records schema version 1 unless a
    /// version is recorded already.
    fn migrate(&mut self) -> (res: Result<(), StoreError>)
        ensures
            final(self)@ == old(self)@,
            final(self).configured() == old(self).configured(),
            res is Ok ==> final(self).tables_ready() && final(self).schema_version() == (match old(self).schema_version() {
                Some(v) => Some(v),
                None => Some(1i64),
            }),
            res matches Err(e) ==> e is Sqlite,
    {
        if let Err(e) = sql_create_schema(&mut self.conn) {
            return Err(StoreError::Sqlite(e));
        }
        let version = match sql_schema_version(&self.conn) {
            Ok(v) => v,
            Err(e) => return Err(StoreError::Sqlite(e)),
        };
        if version.is_none() {
            if let Err(e) = sql_record_schema_version(&mut self.conn) {
                return Err(StoreError::Sqlite(e));
            }
        }
        Ok(())
    }

    /// Whether a bundle with this id is stored.
    pub fn contains_bundle(&self, bundle_id: BundleId) -> (res: Result<bool, StoreError>)
        ensures
            res matches Ok(b) ==> b == self@.bundles.contains_key(bundle_id@),
            res matches Err(e) ==> e is Sqlite,
    {
        match sql_bundle_exists(&self.conn, bundle_id.as_bytes()) {
            Ok(b) => Ok(b),
            Err(e) => Err(StoreError::Sqlite(e)),
        }
    }

    /// Whether this bundle id is tombstoned.
    pub fn is_tombstoned(&self, bundle_id: BundleId) -> (res: Result<bool, StoreError>)
        ensures
            res matches Ok(b) ==> b == self@.tombstones.contains_key(bundle_id@),
            res matches Err(e) ==> e is Sqlite,
    {
        match sql_tombstone_exists(&self.conn, bundle_id.as_bytes()) {
            Ok(b) => Ok(b),
            Err(e) => Err(StoreError::Sqlite(e)),
        }
    }

    /// Offers a bundle to the store. A tombstoned id is refused, a stored id
    /// is a duplicate (nothing changes either way); otherwise the bundle,
    /// which must be of valid shape, is stored with a forward count of 0.
    pub fn insert_bundle(&mut self, bundle: &WireBundle, first_seen_at_ms: i64) -> (res: Result<InsertOutcome, StoreError>)
        ensures
            match res {
                Ok(o) => o == spec_insert_outcome(old(self)@, bundle@.immutable.bundle_id)
                    && final(self)@ == spec_after_insert(old(self)@, bundle@, first_seen_at_ms)
                    && (o == InsertOutcome::Inserted ==> spec_validate_shape(bundle@) is Ok),
                Err(StoreError::Wire(e)) => spec_insert_outcome(old(self)@, bundle@.immutable.bundle_id)
                    == InsertOutcome::Inserted && spec_validate_shape(bundle@) == Err::<(), WireError>(e)
                    && final(self)@ == old(self)@,
                Err(StoreError::Sqlite(_)) => final(self)@ == old(self)@,
            },
    {
        if self.is_tombstoned(bundle.immutable.bundle_id)? {
            return Ok(InsertOutcome::RejectedTombstoned);
        }
        if self.contains_bundle(bundle.immutable.bundle_id)? {
            return Ok(InsertOutcome::Duplicate);
        }
        let encoded = match bundle.encode_cbor() {
            Ok(e) => e,
            Err(e) => return Err(StoreError::Wire(e)),
        };
        let type_code = bundle.immutable.bundle_type.code() as i64;
        let priority_code = bundle.immutable.priority.code() as i64;
        match sql_insert_bundle_row(
            &mut self.conn,
            bundle.immutable.bundle_id.as_bytes(),
            encoded.as_slice(),
            bundle.immutable.destination_id.as_bytes(),
            type_code,
            priority_code,
            first_seen_at_ms,
        ) {
            Ok(()) => {
                assert(self@ == spec_after_insert(old(self)@, bundle@, first_seen_at_ms));
                Ok(InsertOutcome::Inserted)
            },
            Err(e) => Err(StoreError::Sqlite(e)),
        }
    }

    /// Every stored bundle, by priority (highest first) and then first-seen
    /// time (earliest first). Rows are read and decoded in that order: the
    /// first row that does not read fails the listing with its SQLite error,
    /// the first that does not decode with its wire error.
    pub fn list_bundles(&self) -> (res: Result<Vec<StoredBundle>, StoreError>)
        ensures
            res matches Ok(list) ==> exists|rows: Seq<SqlBundleRow>|
                rows_listed(self@.bundles, rows) && #[trigger] spec_decode_rows(rows) == Ok::<
                    Seq<(WireBundleView, i64, u32)>,
                    WireError,
                >(list@.map_values(|s: StoredBundle| stored_view(s))),
            res matches Err(StoreError::Wire(e)) ==> listing_fails(self@, e),
    {
        let items = match sql_list_bundle_rows(&self.conn) {
            Ok(r) => r,
            Err(e) => return Err(StoreError::Sqlite(e)),
        };
        let ghost all = items@;
        let res = decode_rows(items);
        proof {
            if spec_scan_rows(all) is Ok {
                lemma_scan_rows_ok(all);
                let rows = items_rows(all);
                assert(rows_listed(self@.bundles, rows));
            }
            if let Err(StoreError::Wire(e)) = &res {
                assert(items_listed(self@.bundles, all) && spec_scan_rows(all) == Err::<
                    Seq<(WireBundleView, i64, u32)>,
                    Option<WireError>,
                >(Some(*e)));
            }
        }
        res
    }

    /// Counts one more hand-off of a stored bundle; an id not stored is left alone.
    pub fn increment_forward_count(&mut self, bundle_id: BundleId) -> (res: Result<(), StoreError>)
        ensures
            res is Ok ==> final(self)@ == spec_after_forward(old(self)@, bundle_id@),
            res matches Err(e) ==> e is Sqlite && final(self)@ == old(self)@,
    {
        match sql_increment_forward_count(&mut self.conn, bundle_id.as_bytes()) {
            Ok(()) => {
                assert(self@ == spec_after_forward(old(self)@, bundle_id@));
                Ok(())
            },
            Err(e) => Err(StoreError::Sqlite(e)),
        }
    }

    /// Deletes the bundle, if stored, and records its tombstone (replacing
    /// an earlier one), in one transaction.
    pub fn create_tombstone(&mut self, bundle_id: BundleId, reason: i64, created_at_ms: i64, expires_at_ms: i64) -> (res: Result<(), StoreError>)
        ensures
            res is Ok ==> final(self)@ == spec_after_tombstone(old(self)@, bundle_id@, reason, created_at_ms, expires_at_ms),
            res matches Err(e) ==> e is Sqlite && final(self)@ == old(self)@,
    {
        match sql_tombstone_bundle(&mut self.conn, bundle_id.as_bytes(), reason, created_at_ms, expires_at_ms) {
            Ok(()) => {
                assert(self@ == spec_after_tombstone(old(self)@, bundle_id@, reason, created_at_ms, expires_at_ms));
                Ok(())
            },
            Err(e) => Err(StoreError::Sqlite(e)),
        }
    }
}

// ---------------------------------------------------------------------------
// Laws
// ---------------------------------------------------------------------------

/// Once a bundle id is tombstoned, offering a bundle with that id again is
/// refused and leaves the store as it is.
pub proof fn lemma_tombstone_prevents_reinsertion(
    v: StoreView,
    bundle_id: Seq<u8>,
    reason: i64,
    created_at_ms: i64,
    expires_at_ms: i64,
    b: WireBundleView,
    first_seen_at_ms: i64,
)
    requires
        b.immutable.bundle_id == bundle_id,
    ensures
        ({
            let t = spec_after_tombstone(v, bundle_id, reason, created_at_ms, expires_at_ms);
            &&& spec_insert_outcome(t, bundle_id) == InsertOutcome::RejectedTombstoned
            &&& spec_after_insert(t, b, first_seen_at_ms) == t
            &&& !t.bundles.contains_key(bundle_id)
        }),
{
}

/// A bundle once stored is a duplicate when offered again, whatever its
/// relay fields, and the second offer changes nothing.
pub proof fn lemma_second_insert_is_duplicate(v: StoreView, a: WireBundleView, b: WireBundleView, t1: i64, t2: i64)
    requires
        a.immutable.bundle_id == b.immutable.bundle_id,
        spec_insert_outcome(v, a.immutable.bundle_id) == InsertOutcome::Inserted,
    ensures
        spec_insert_outcome(spec_after_insert(v, a, t1), b.immutable.bundle_id) == InsertOutcome::Duplicate,
        spec_after_insert(spec_after_insert(v, a, t1), b, t2) == spec_after_insert(v, a, t1),
{
}

/// What an offer to the store does: a tombstoned id is refused, else a
/// stored id is a duplicate, else the bundle is stored and held afterwards;
/// only a store changes anything.
pub proof fn lemma_insert_outcome(v: StoreView, b: WireBundleView, first_seen_at_ms: i64)
    ensures
        ({
            let id = b.immutable.bundle_id;
            let o = spec_insert_outcome(v, id);
            let after = spec_after_insert(v, b, first_seen_at_ms);
            &&& v.tombstones.contains_key(id) ==> o == InsertOutcome::RejectedTombstoned
            &&& !v.tombstones.contains_key(id) && v.bundles.contains_key(id) ==> o == InsertOutcome::Duplicate
            &&& !v.tombstones.contains_key(id) && !v.bundles.contains_key(id) ==> o == InsertOutcome::Inserted
                && after.bundles.contains_key(id) && after.bundles[id] == spec_bundle_row(b, first_seen_at_ms)
            &&& o != InsertOutcome::Inserted ==> after == v
            &&& after.tombstones == v.tombstones
        }),
{
}

/// A stored bundle's row decodes back to the bundle stored (for a bundle of
/// valid shape): what is listed is what was inserted.
pub proof fn lemma_stored_row_decodes(b: WireBundleView, first_seen_at_ms: i64)
    requires
        spec_validate_shape(b) is Ok,
        crate::bundle::header_ids_wf(b.immutable),
    ensures
        spec_decode_bundle(spec_bundle_row(b, first_seen_at_ms).0) == Ok::<WireBundleView, WireError>(b),
{
    crate::bundle::lemma_bundle_round_trip(b);
}

} // verus!
