//! The rules of a key-value store in an SQLite table.

use crate::decimal;
use crate::decimal::IntegerError;
use crate::text;
use std::collections::VecDeque;
use vstd::prelude::*;

verus! {

/// The table of the store.
pub const SQLITE_STORE_TABLE_NAME: &'static str = "store_entries";

/// How often a busy database is tried again.
pub const SQLITE_BUSY_MAX_RETRIES: usize = 12;

/// The shortest delay before a busy database is tried again, in milliseconds.
pub const SQLITE_BUSY_BASE_DELAY_MS: u64 = 25;

/// How long SQLite itself waits for a busy database, in seconds.
pub const SQLITE_BUSY_TIMEOUT_SECS: u64 = 30;

// ---------------------------------------------------------------------------
// Trying again
// ---------------------------------------------------------------------------

/// How often and how fast a busy database is tried again.
#[derive(Clone, Copy, Debug, PartialEq, Eq, Structural)]
pub struct SqliteBusyRetryConfig {
    pub max_retries: usize,
    pub base_delay_ms: u64,
}

impl SqliteBusyRetryConfig {
    /// No second try.
    pub fn none() -> (r: Option<SqliteBusyRetryConfig>)
        ensures
            r is None,
    {
        None
    }

    /// Many tries.
    pub fn aggressive() -> (r: Option<SqliteBusyRetryConfig>)
        ensures
            r == Some(
                SqliteBusyRetryConfig {
                    max_retries: SQLITE_BUSY_MAX_RETRIES,
                    base_delay_ms: SQLITE_BUSY_BASE_DELAY_MS,
                },
            ),
    {
        Some(SqliteBusyRetryConfig::default())
    }

    /// What holds for an optional configuration: without one nothing is tried again.
    pub fn or_single_try(config: Option<SqliteBusyRetryConfig>) -> (r: SqliteBusyRetryConfig)
        ensures
            r == (match config {
                Some(c) => c,
                None => SqliteBusyRetryConfig {
                    max_retries: 0,
                    base_delay_ms: SQLITE_BUSY_BASE_DELAY_MS,
                },
            }),
    {
        match config {
            Some(c) => c,
            None => SqliteBusyRetryConfig {
                max_retries: 0,
                base_delay_ms: SQLITE_BUSY_BASE_DELAY_MS,
            },
        }
    }
}

impl Default for SqliteBusyRetryConfig {
    fn default() -> (r: Self)
        ensures
            r.max_retries == SQLITE_BUSY_MAX_RETRIES,
            r.base_delay_ms == SQLITE_BUSY_BASE_DELAY_MS,
    {
        SqliteBusyRetryConfig {
            max_retries: SQLITE_BUSY_MAX_RETRIES,
            base_delay_ms: SQLITE_BUSY_BASE_DELAY_MS,
        }
    }
}

/// The result codes of SQLite that matter here.
#[derive(Clone, Copy, Debug, PartialEq, Eq, Structural)]
pub enum SqliteCode {
    DatabaseBusy,
    DatabaseLocked,
    Other,
}

/// An error of SQLite: its text and, if it is a failure of SQLite itself, its code.
#[derive(Debug)]
pub struct SqliteError {
    pub message: String,
    pub code: Option<SqliteCode>,
}

impl SqliteError {
    /// The database was in use by someone else.
    pub open spec fn busy(self) -> bool {
        ||| text::has_text(text::lower(self.message@), "database is locked"@)
        ||| text::has_text(text::lower(self.message@), "database table is locked"@)
        ||| self.code == Some(SqliteCode::DatabaseBusy)
        ||| self.code == Some(SqliteCode::DatabaseLocked)
    }

    /// Whether the database was in use by someone else.
    pub fn is_sqlite_busy_or_locked(&self) -> (r: bool)
        ensures
            r == self.busy(),
    {
        let message = text::ascii_lowercase(self.message.as_str());
        if text::contains_text(message.as_str(), "database is locked") || text::contains_text(
            message.as_str(),
            "database table is locked",
        ) {
            return true;
        }
        match self.code {
            Some(SqliteCode::DatabaseBusy) => true,
            Some(SqliteCode::DatabaseLocked) => true,
            _ => false,
        }
    }
}

/// By how much the delay before a further try has grown: it doubles eight times.
pub open spec fn delay_factor(attempt: nat) -> int
    decreases attempt,
{
    if attempt == 0 {
        1
    } else if attempt > 8 {
        256
    } else {
        2 * delay_factor((attempt - 1) as nat)
    }
}

proof fn lemma_delay_factor(attempt: nat)
    ensures
        1 <= delay_factor(attempt) <= 256,
        attempt >= 8 ==> delay_factor(attempt) == 256,
{
    reveal_with_fuel(delay_factor, 10);
}

fn factor_of(attempt: usize) -> (factor: u64)
    ensures
        factor == delay_factor(attempt as nat),
        1 <= factor <= 256,
{
    let mut factor: u64 = 1;
    let mut i: usize = 0;
    while i < attempt && i < 8
        invariant
            i <= 8,
            i <= attempt,
            factor == delay_factor(i as nat),
            1 <= factor <= 256,
        decreases 8 - i,
    {
        proof {
            lemma_delay_factor((i + 1) as nat);
        }
        factor = 2 * factor;
        i = i + 1;
    }
    proof {
        lemma_delay_factor(attempt as nat);
        if attempt >= 8 {
            lemma_delay_factor(8);
        }
    }
    factor
}

/// The delay before the try after attempt number `attempt`, in milliseconds.
pub fn busy_retry_delay(attempt: usize, base_delay_ms: u64) -> (r: u64)
    requires
        base_delay_ms * delay_factor(attempt as nat) <= u64::MAX,
    ensures
        r == base_delay_ms * delay_factor(attempt as nat),
{
    let factor: u64 = factor_of(attempt);
    base_delay_ms * factor
}

/// Whether the delay before the try after attempt number `attempt` fits.
pub fn delay_fits(attempt: usize, base_delay_ms: u64) -> (r: bool)
    ensures
        r == (base_delay_ms * delay_factor(attempt as nat) <= u64::MAX),
{
    let factor: u64 = factor_of(attempt);
    base_delay_ms.checked_mul(factor).is_some()
}

/// Delays grow from try to try, and never beyond 256 times the first one.
pub proof fn delays_grow_to_a_bound(attempt: nat, later: nat, base_delay_ms: nat)
    requires
        attempt <= later,
    ensures
        base_delay_ms <= base_delay_ms * delay_factor(attempt),
        base_delay_ms * delay_factor(attempt) <= base_delay_ms * delay_factor(later),
        base_delay_ms * delay_factor(later) <= 256 * base_delay_ms,
{
    reveal_with_fuel(delay_factor, 10);
    let f = delay_factor(attempt);
    let g = delay_factor(later);
    assert(1 <= f <= g <= 256);
    assert(base_delay_ms <= base_delay_ms * f) by (nonlinear_arith)
        requires
            1 <= f,
    ;
    assert(base_delay_ms * f <= base_delay_ms * g) by (nonlinear_arith)
        requires
            f <= g,
    ;
    assert(base_delay_ms * g <= 256 * base_delay_ms) by (nonlinear_arith)
        requires
            g <= 256,
    ;
}

/// The delay doubles after each of the first eight failed tries, and stays the same after that.
pub proof fn delays_double_eight_times(attempt: nat)
    ensures
        delay_factor(0) == 1,
        attempt < 8 ==> delay_factor(attempt + 1) == 2 * delay_factor(attempt),
        attempt >= 8 ==> delay_factor(attempt) == 256,
{
    reveal_with_fuel(delay_factor, 10);
}

/// A database that is busy or locked is told by SQLite's code, or by its words in any case of
/// letters; any other error is no reason to try again.
pub proof fn busy_errors_are_told_apart(error: SqliteError)
    ensures
        error.code == Some(SqliteCode::DatabaseBusy) ==> error.busy(),
        error.code == Some(SqliteCode::DatabaseLocked) ==> error.busy(),
        text::has_text(text::lower(error.message@), "database is locked"@) ==> error.busy(),
        text::has_text(text::lower(error.message@), "database table is locked"@) ==> error.busy(),
        error.busy() && (error.code is None || error.code == Some(SqliteCode::Other))
            ==> text::has_text(text::lower(error.message@), "database is locked"@)
            || text::has_text(text::lower(error.message@), "database table is locked"@),
{
}

/// A failed try is repeated exactly where the database was busy and fewer tries than allowed were
/// repeated; twelve are, if nothing else is asked for, the first after 25 milliseconds.
pub proof fn retries_need_a_busy_database(error: SqliteError, attempt: usize, max_retries: usize)
    ensures
        !error.busy() ==> !retries(error, attempt, max_retries),
        attempt >= max_retries ==> !retries(error, attempt, max_retries),
        error.busy() && attempt < max_retries ==> retries(error, attempt, max_retries),
        SQLITE_BUSY_MAX_RETRIES == 12,
        SQLITE_BUSY_BASE_DELAY_MS == 25,
        SQLITE_BUSY_TIMEOUT_SECS == 30,
{
}

/// What follows a failed try.
#[derive(Clone, Copy, Debug, PartialEq, Eq, Structural)]
pub enum Retry {
    /// Another try, with the given number, after this many milliseconds.
    After { delay_ms: u64, attempt: usize },
    GiveUp,
}

/// A failed try is repeated if the database was busy and there are retries left.
pub open spec fn retries(error: SqliteError, attempt: usize, max_retries: usize) -> bool {
    error.busy() && attempt < max_retries
}

/// What follows the failure of try number `attempt`.
pub fn after_failed_try(error: &SqliteError, attempt: usize, config: SqliteBusyRetryConfig) -> (r:
    Retry)
    requires
        retries(*error, attempt, config.max_retries) ==> config.base_delay_ms * delay_factor(
            attempt as nat,
        ) <= u64::MAX,
    ensures
        r == (if retries(*error, attempt, config.max_retries) {
            Retry::After {
                delay_ms: (config.base_delay_ms * delay_factor(attempt as nat)) as u64,
                attempt: (attempt + 1) as usize,
            }
        } else {
            Retry::GiveUp
        }),
{
    if error.is_sqlite_busy_or_locked() && attempt < config.max_retries {
        Retry::After {
            delay_ms: busy_retry_delay(attempt, config.base_delay_ms),
            attempt: attempt + 1,
        }
    } else {
        Retry::GiveUp
    }
}

/// What follows a try to write a value.
#[derive(Debug)]
pub enum UpsertStep {
    Done,
    /// Another try, with the given number, after this many milliseconds.
    RetryAfter { delay_ms: u64, attempt: usize },
    Failed(StoreFault),
}

/// What follows try number `attempt` to write the value of a key.
pub fn upsert_step(
    key_text: &str,
    attempt: usize,
    config: SqliteBusyRetryConfig,
    outcome: Result<(), SqliteError>,
) -> (r: UpsertStep)
    requires
        outcome is Err && retries(outcome->Err_0, attempt, config.max_retries)
            ==> config.base_delay_ms * delay_factor(attempt as nat) <= u64::MAX,
    ensures
        match outcome {
            Ok(_) => r is Done,
            Err(error) => if retries(error, attempt, config.max_retries) {
                r == (UpsertStep::RetryAfter {
                    delay_ms: (config.base_delay_ms * delay_factor(attempt as nat)) as u64,
                    attempt: (attempt + 1) as usize,
                })
            } else {
                &&& r is Failed
                &&& r->Failed_0 is Upsert
                &&& r->Failed_0->Upsert_key@ == key_text@
                &&& r->Failed_0->Upsert_retries == attempt
                &&& r->Failed_0->Upsert_error == error.message
            },
        },
{
    match outcome {
        Ok(_) => UpsertStep::Done,
        Err(error) => match after_failed_try(&error, attempt, config) {
            Retry::After { delay_ms, attempt: next } => UpsertStep::RetryAfter {
                delay_ms,
                attempt: next,
            },
            Retry::GiveUp => UpsertStep::Failed(
                StoreFault::Upsert {
                    key: key_text.to_owned(),
                    retries: attempt,
                    error: error.message,
                },
            ),
        },
    }
}

/// The number of the last try, when try number `i` fails with `errors[i]` and tries are made from
/// number `attempt` on.
pub open spec fn last_try(errors: Seq<SqliteError>, attempt: nat, max_retries: usize) -> nat
    decreases errors.len() - attempt,
{
    if attempt < errors.len() && retries(errors[attempt as int], attempt as usize, max_retries) {
        last_try(errors, attempt + 1, max_retries)
    } else {
        attempt
    }
}

/// Tries go on while the database is busy and end at the first other error, and there is at most
/// one try more than there are retries.
pub proof fn tries_are_bounded(errors: Seq<SqliteError>, attempt: nat, max_retries: usize)
    requires
        attempt <= max_retries,
    ensures
        ({
            let last = last_try(errors, attempt, max_retries);
            &&& attempt <= last <= max_retries
            &&& forall|i: int| attempt <= i < last ==> (#[trigger] errors[i]).busy()
            &&& last < errors.len() ==> !errors[last as int].busy() || last == max_retries
        }),
    decreases errors.len() - attempt,
{
    if attempt < errors.len() && retries(errors[attempt as int], attempt as usize, max_retries) {
        tries_are_bounded(errors, attempt + 1, max_retries);
    }
}

// ---------------------------------------------------------------------------
// Keys
// ---------------------------------------------------------------------------

/// Keys that are stored as text.
pub trait SqliteStoreKey: Sized {
    /// The text of a key.
    spec fn key_text(&self) -> Seq<char>;

    /// Why a text is not that of a key, if it is not.
    spec fn text_fault(text: Seq<char>) -> Option<Seq<char>>;

    /// The key is the one that a text is read as.
    spec fn read_from(&self, text: Seq<char>) -> bool;

    fn to_key_text(&self) -> (r: String)
        ensures
            r@ == self.key_text(),
    ;

    fn from_key_text(key_text: &str) -> (r: Result<Self, String>)
        ensures
            match r {
                Ok(key) => Self::text_fault(key_text@) is None && key.read_from(key_text@),
                Err(e) => Self::text_fault(key_text@) == Some(e@),
            },
    ;
}

/// What is wrong with a text that is not the integer of a key.
pub open spec fn integer_key_fault(
    text: Seq<char>,
    kind: Seq<char>,
    error: IntegerError,
) -> Seq<char> {
    "Failed to parse key text '"@ + text + "' as "@ + kind + ": "@ + error.words()
}

fn integer_key_fault_text(text: &str, kind: &str, error: IntegerError) -> (s: String)
    ensures
        s@ == integer_key_fault(text@, kind@, error),
{
    text::join6(
        "Failed to parse key text '",
        text,
        "' as ",
        kind,
        ": ",
        error.text().as_str(),
    )
}

impl SqliteStoreKey for usize {
    open spec fn key_text(&self) -> Seq<char> {
        decimal::decimal(*self as nat)
    }

    open spec fn text_fault(text: Seq<char>) -> Option<Seq<char>> {
        match decimal::read_unsigned(text, usize::MAX as nat) {
            Ok(_) => None,
            Err(error) => Some(integer_key_fault(text, "usize"@, error)),
        }
    }

    open spec fn read_from(&self, text: Seq<char>) -> bool {
        decimal::read_unsigned(text, usize::MAX as nat) == Ok::<nat, IntegerError>(*self as nat)
    }

    fn to_key_text(&self) -> (r: String) {
        decimal::usize_text(*self)
    }

    fn from_key_text(key_text: &str) -> (r: Result<Self, String>) {
        match decimal::parse_usize(key_text) {
            Ok(n) => Ok(n),
            Err(error) => Err(integer_key_fault_text(key_text, "usize", error)),
        }
    }
}

impl SqliteStoreKey for i64 {
    open spec fn key_text(&self) -> Seq<char> {
        decimal::signed_decimal(*self as int)
    }

    open spec fn text_fault(text: Seq<char>) -> Option<Seq<char>> {
        match decimal::read_signed(text, i64::MAX as nat) {
            Ok(_) => None,
            Err(error) => Some(integer_key_fault(text, "i64"@, error)),
        }
    }

    open spec fn read_from(&self, text: Seq<char>) -> bool {
        decimal::read_signed(text, i64::MAX as nat) == Ok::<int, IntegerError>(*self as int)
    }

    fn to_key_text(&self) -> (r: String) {
        decimal::i64_text(*self)
    }

    fn from_key_text(key_text: &str) -> (r: Result<Self, String>) {
        match decimal::parse_i64(key_text) {
            Ok(n) => Ok(n),
            Err(error) => Err(integer_key_fault_text(key_text, "i64", error)),
        }
    }
}

impl SqliteStoreKey for String {
    open spec fn key_text(&self) -> Seq<char> {
        self@
    }

    open spec fn text_fault(text: Seq<char>) -> Option<Seq<char>> {
        None
    }

    open spec fn read_from(&self, text: Seq<char>) -> bool {
        self@ == text
    }

    fn to_key_text(&self) -> (r: String) {
        self.clone()
    }

    fn from_key_text(key_text: &str) -> (r: Result<Self, String>) {
        Ok(key_text.to_owned())
    }
}

/// An unsigned key is read back from its text, and no other key is.
pub proof fn unsigned_key_reads_back(key: usize, other: usize)
    ensures
        usize::text_fault(key.key_text()) is None,
        key.read_from(key.key_text()),
        other.read_from(key.key_text()) ==> other == key,
{
    decimal::unsigned_text_reads_back(key as nat, usize::MAX as nat);
}

/// A signed key is read back from its text, and no other key is.
pub proof fn signed_key_reads_back(key: i64, other: i64)
    ensures
        i64::text_fault(key.key_text()) is None,
        key.read_from(key.key_text()),
        other.read_from(key.key_text()) ==> other == key,
{
    decimal::signed_text_reads_back(key as int, i64::MAX as nat);
}

/// A text key is read back from its text.
pub proof fn text_key_reads_back(key: String, other: String)
    ensures
        String::text_fault(key.key_text()) is None,
        key.read_from(key.key_text()),
        other.read_from(key.key_text()) ==> other@ == key@,
{
}

/// The number of the first text, from `from` on, that is not that of a key, or the length.
pub open spec fn first_key_fault<K: SqliteStoreKey>(texts: Seq<Seq<char>>, from: int) -> int
    decreases texts.len() - from,
{
    if 0 <= from < texts.len() && K::text_fault(texts[from]) is None {
        first_key_fault::<K>(texts, from + 1)
    } else {
        from
    }
}

/// The keys of all texts, or what is wrong with the first text that is not that of a key.
pub fn decode_keys<K: SqliteStoreKey>(key_texts: &Vec<String>) -> (r: Result<Vec<K>, StoreFault>)
    ensures
        ({
            let texts = text::texts(key_texts@);
            match r {
                Ok(keys) => {
                    &&& first_key_fault::<K>(texts, 0) == texts.len()
                    &&& keys@.len() == texts.len()
                    &&& forall|i: int|
                        0 <= i < texts.len() ==> (#[trigger] keys@[i]).read_from(texts[i])
                },
                Err(fault) => {
                    let i = first_key_fault::<K>(texts, 0);
                    &&& i < texts.len()
                    &&& fault is ParseKey
                    &&& K::text_fault(texts[i]) == Some(fault->ParseKey_0@)
                },
            }
        }),
{
    let ghost texts = text::texts(key_texts@);
    let mut keys: Vec<K> = Vec::new();
    let mut i: usize = 0;
    while i < key_texts.len()
        invariant
            texts == text::texts(key_texts@),
            i <= texts.len(),
            keys@.len() == i,
            first_key_fault::<K>(texts, 0) == first_key_fault::<K>(texts, i as int),
            forall|j: int| 0 <= j < i ==> (#[trigger] keys@[j]).read_from(texts[j]),
        decreases texts.len() - i,
    {
        assert(texts[i as int] == key_texts@[i as int]@);
        match K::from_key_text(key_texts[i].as_str()) {
            Ok(key) => {
                keys.push(key);
            },
            Err(e) => {
                return Err(StoreFault::ParseKey(e));
            },
        }
        i = i + 1;
    }
    Ok(keys)
}

// ---------------------------------------------------------------------------
// Loading
// ---------------------------------------------------------------------------

/// The number of the first row, from `from` on, that has no value, or the length.
pub open spec fn first_row_fault<V>(rows: Seq<Result<V, String>>, from: int) -> int
    decreases rows.len() - from,
{
    if 0 <= from < rows.len() && rows[from] is Ok {
        first_row_fault(rows, from + 1)
    } else {
        from
    }
}

/// The values of all rows in their order, or why the first row that has no value has none. Each
/// row is the value of its payload, or why the payload stands for none.
pub fn load_all<V>(rows: VecDeque<Result<V, String>>) -> (r: Result<Vec<V>, StoreFault>)
    ensures
        match r {
            Ok(values) => {
                &&& first_row_fault(rows@, 0) == rows@.len()
                &&& values@ == rows@.map_values(|row: Result<V, String>| row->Ok_0)
            },
            Err(fault) => {
                let i = first_row_fault(rows@, 0);
                &&& i < rows@.len()
                &&& fault is DeserializeRow
                &&& rows@[i] == Err::<V, String>(fault->DeserializeRow_0)
            },
        },
{
    let ghost all = rows@;
    let mut left = rows;
    let mut values: Vec<V> = Vec::new();
    let ghost mut done: int = 0;
    assert(all.skip(0) =~= all);
    while left.len() > 0
        invariant
            all == rows@,
            0 <= done <= all.len(),
            left@ == all.skip(done),
            values@.len() == done,
            first_row_fault(all, 0) == first_row_fault(all, done),
            forall|j: int| 0 <= j < done ==> #[trigger] values@[j] == all[j]->Ok_0,
        decreases left@.len(),
    {
        if let Some(row) = left.pop_front() {
            assert(all[done] == row);
            match row {
                Ok(value) => {
                    values.push(value);
                },
                Err(e) => {
                    return Err(StoreFault::DeserializeRow(e));
                },
            }
            proof {
                assert(left@ =~= all.skip(done + 1));
                done = done + 1;
            }
        }
    }
    assert(values@ =~= all.map_values(|row: Result<V, String>| row->Ok_0));
    Ok(values)
}

/// All rows have values exactly where none comes first that has none.
pub proof fn all_rows_load<V>(rows: Seq<Result<V, String>>)
    ensures
        (first_row_fault(rows, 0) == rows.len()) == (forall|i: int|
            0 <= i < rows.len() ==> (#[trigger] rows[i]) is Ok),
{
    lemma_first_row_fault(rows, 0);
}

proof fn lemma_first_row_fault<V>(rows: Seq<Result<V, String>>, from: int)
    requires
        0 <= from <= rows.len(),
    ensures
        from <= first_row_fault(rows, from) <= rows.len(),
        forall|i: int| from <= i < first_row_fault(rows, from) ==> (#[trigger] rows[i]) is Ok,
        first_row_fault(rows, from) < rows.len() ==> rows[first_row_fault(rows, from)] is Err,
    decreases rows.len() - from,
{
    if from < rows.len() && rows[from] is Ok {
        lemma_first_row_fault(rows, from + 1);
    }
}

// ---------------------------------------------------------------------------
// Statements
// ---------------------------------------------------------------------------

/// The statement that finds a table by its name.
pub const FIND_TABLE_SQL: &'static str = "SELECT name FROM sqlite_master WHERE type = 'table' AND name = ?1";

/// The statements of the store.
#[derive(Clone, Copy, Debug, PartialEq, Eq, Structural)]
pub enum StoreStatement {
    CreateTable,
    Clear,
    Upsert,
    SelectPayload,
    SelectKeys,
    SelectAll,
}

impl StoreStatement {
    pub open spec fn words(self) -> Seq<char> {
        match self {
            StoreStatement::CreateTable => "CREATE TABLE IF NOT EXISTS "@ + SQLITE_STORE_TABLE_NAME@
                + " (id TEXT PRIMARY KEY, payload_msgpack BLOB NOT NULL)"@,
            StoreStatement::Clear => "DELETE FROM "@ + SQLITE_STORE_TABLE_NAME@,
            StoreStatement::Upsert => "INSERT INTO "@ + SQLITE_STORE_TABLE_NAME@
                + " (id, payload_msgpack) VALUES (?1, ?2) ON CONFLICT(id) DO UPDATE SET payload_msgpack = excluded.payload_msgpack"@,
            StoreStatement::SelectPayload => "SELECT payload_msgpack FROM "@
                + SQLITE_STORE_TABLE_NAME@ + " WHERE id = ?1"@,
            StoreStatement::SelectKeys => "SELECT id FROM "@ + SQLITE_STORE_TABLE_NAME@
                + " ORDER BY id ASC"@,
            StoreStatement::SelectAll => "SELECT payload_msgpack FROM "@ + SQLITE_STORE_TABLE_NAME@
                + " ORDER BY id ASC"@,
        }
    }

    pub fn sql(self) -> (s: String)
        ensures
            s@ == self.words(),
            s@ == (match self {
                StoreStatement::CreateTable => "CREATE TABLE IF NOT EXISTS store_entries (id TEXT PRIMARY KEY, payload_msgpack BLOB NOT NULL)"@,
                StoreStatement::Clear => "DELETE FROM store_entries"@,
                StoreStatement::Upsert => "INSERT INTO store_entries (id, payload_msgpack) VALUES (?1, ?2) ON CONFLICT(id) DO UPDATE SET payload_msgpack = excluded.payload_msgpack"@,
                StoreStatement::SelectPayload => "SELECT payload_msgpack FROM store_entries WHERE id = ?1"@,
                StoreStatement::SelectKeys => "SELECT id FROM store_entries ORDER BY id ASC"@,
                StoreStatement::SelectAll => "SELECT payload_msgpack FROM store_entries ORDER BY id ASC"@,
            }),
    {
        proof {
            statements_in_full();
        }
        match self {
            StoreStatement::CreateTable => text::join3(
                "CREATE TABLE IF NOT EXISTS ",
                SQLITE_STORE_TABLE_NAME,
                " (id TEXT PRIMARY KEY, payload_msgpack BLOB NOT NULL)",
            ),
            StoreStatement::Clear => text::join2("DELETE FROM ", SQLITE_STORE_TABLE_NAME),
            StoreStatement::Upsert => text::join3(
                "INSERT INTO ",
                SQLITE_STORE_TABLE_NAME,
                " (id, payload_msgpack) VALUES (?1, ?2) ON CONFLICT(id) DO UPDATE SET payload_msgpack = excluded.payload_msgpack",
            ),
            StoreStatement::SelectPayload => text::join3(
                "SELECT payload_msgpack FROM ",
                SQLITE_STORE_TABLE_NAME,
                " WHERE id = ?1",
            ),
            StoreStatement::SelectKeys => text::join3(
                "SELECT id FROM ",
                SQLITE_STORE_TABLE_NAME,
                " ORDER BY id ASC",
            ),
            StoreStatement::SelectAll => text::join3(
                "SELECT payload_msgpack FROM ",
                SQLITE_STORE_TABLE_NAME,
                " ORDER BY id ASC",
            ),
        }
    }
}

/// The statements of the store, each in full.
pub proof fn statements_in_full()
    ensures
        StoreStatement::CreateTable.words()
            == "CREATE TABLE IF NOT EXISTS store_entries (id TEXT PRIMARY KEY, payload_msgpack BLOB NOT NULL)"@,
        StoreStatement::Clear.words() == "DELETE FROM store_entries"@,
        StoreStatement::Upsert.words()
            == "INSERT INTO store_entries (id, payload_msgpack) VALUES (?1, ?2) ON CONFLICT(id) DO UPDATE SET payload_msgpack = excluded.payload_msgpack"@,
        StoreStatement::SelectPayload.words()
            == "SELECT payload_msgpack FROM store_entries WHERE id = ?1"@,
        StoreStatement::SelectKeys.words() == "SELECT id FROM store_entries ORDER BY id ASC"@,
        StoreStatement::SelectAll.words()
            == "SELECT payload_msgpack FROM store_entries ORDER BY id ASC"@,
{
    reveal_strlit("store_entries");
    reveal_strlit("CREATE TABLE IF NOT EXISTS ");
    reveal_strlit(" (id TEXT PRIMARY KEY, payload_msgpack BLOB NOT NULL)");
    reveal_strlit(
        "CREATE TABLE IF NOT EXISTS store_entries (id TEXT PRIMARY KEY, payload_msgpack BLOB NOT NULL)",
    );
    assert(StoreStatement::CreateTable.words()
        =~= "CREATE TABLE IF NOT EXISTS store_entries (id TEXT PRIMARY KEY, payload_msgpack BLOB NOT NULL)"@);
    reveal_strlit("DELETE FROM ");
    reveal_strlit("DELETE FROM store_entries");
    assert(StoreStatement::Clear.words() =~= "DELETE FROM store_entries"@);
    lemma_upsert_in_full();
    reveal_strlit("SELECT payload_msgpack FROM ");
    reveal_strlit(" WHERE id = ?1");
    reveal_strlit("SELECT payload_msgpack FROM store_entries WHERE id = ?1");
    assert(StoreStatement::SelectPayload.words()
        =~= "SELECT payload_msgpack FROM store_entries WHERE id = ?1"@);
    reveal_strlit("SELECT id FROM ");
    reveal_strlit(" ORDER BY id ASC");
    reveal_strlit("SELECT id FROM store_entries ORDER BY id ASC");
    assert(StoreStatement::SelectKeys.words() =~= "SELECT id FROM store_entries ORDER BY id ASC"@);
    reveal_strlit("SELECT payload_msgpack FROM store_entries ORDER BY id ASC");
    assert(StoreStatement::SelectAll.words()
        =~= "SELECT payload_msgpack FROM store_entries ORDER BY id ASC"@);
}

proof fn lemma_upsert_in_full()
    ensures
        StoreStatement::Upsert.words()
            == "INSERT INTO store_entries (id, payload_msgpack) VALUES (?1, ?2) ON CONFLICT(id) DO UPDATE SET payload_msgpack = excluded.payload_msgpack"@,
{
    reveal_strlit("store_entries");
    reveal_strlit("INSERT INTO ");
    reveal_strlit(
        " (id, payload_msgpack) VALUES (?1, ?2) ON CONFLICT(id) DO UPDATE SET payload_msgpack = excluded.payload_msgpack",
    );
    reveal_strlit(
        "INSERT INTO store_entries (id, payload_msgpack) VALUES (?1, ?2) ON CONFLICT(id) DO UPDATE SET payload_msgpack = excluded.payload_msgpack",
    );
    assert(StoreStatement::Upsert.words()
        =~= "INSERT INTO store_entries (id, payload_msgpack) VALUES (?1, ?2) ON CONFLICT(id) DO UPDATE SET payload_msgpack = excluded.payload_msgpack"@);
}

/// All payloads are read from the same rows as all keys, without a condition or a limit, and in
/// the same order: the two statements differ in the column only.
pub proof fn keys_and_values_come_from_the_same_rows()
    ensures
        exists|rows: Seq<char>|
            {
                &&& rows == " FROM store_entries ORDER BY id ASC"@
                &&& StoreStatement::SelectKeys.words() == "SELECT id"@ + rows
                &&& #[trigger] ("SELECT payload_msgpack"@ + rows)
                    == StoreStatement::SelectAll.words()
            },
{
    statements_in_full();
    let rows = " FROM store_entries ORDER BY id ASC"@;
    reveal_strlit(" FROM store_entries ORDER BY id ASC");
    reveal_strlit("SELECT id");
    reveal_strlit("SELECT payload_msgpack");
    reveal_strlit("SELECT id FROM store_entries ORDER BY id ASC");
    reveal_strlit("SELECT payload_msgpack FROM store_entries ORDER BY id ASC");
    assert(StoreStatement::SelectKeys.words() =~= "SELECT id"@ + rows);
    assert("SELECT payload_msgpack"@ + rows =~= StoreStatement::SelectAll.words());
}

// ---------------------------------------------------------------------------
// Faults
// ---------------------------------------------------------------------------

/// What went wrong with a key-value store. The texts are those of the underlying errors.
#[derive(Debug)]
pub enum StoreFault {
    Open(String),
    BusyTimeout(String),
    JournalMode(String),
    Synchronous(String),
    QueryMaster(String),
    CreateTable(String),
    DatabaseExists,
    ParentDirectory(String),
    DatabaseMissing,
    TableMissing,
    Clear(String),
    Serialize(String),
    Upsert { key: String, retries: usize, error: String },
    Query { key: String, error: String },
    Deserialize(String),
    QueryKeys(String),
    DecodeKeys(String),
    ParseKey(String),
    Scan(String),
    DecodeRows(String),
    DeserializeRow(String),
}

impl StoreFault {
    /// The fault in words, for the database at `path`.
    pub open spec fn words(self, path: Seq<char>) -> Seq<char> {
        match self {
            StoreFault::Open(e) => "Failed to open sqlite database "@ + path + " for table "@
                + SQLITE_STORE_TABLE_NAME@ + ": "@ + e@,
            StoreFault::BusyTimeout(e) => "Failed to set sqlite busy timeout on "@ + path + ": "@
                + e@,
            StoreFault::JournalMode(e) => "Failed to set sqlite journal_mode on "@ + path + ": "@
                + e@,
            StoreFault::Synchronous(e) => "Failed to set sqlite synchronous pragma on "@ + path
                + ": "@ + e@,
            StoreFault::QueryMaster(e) => "Failed to query sqlite_master for table "@
                + SQLITE_STORE_TABLE_NAME@ + " in "@ + path + ": "@ + e@,
            StoreFault::CreateTable(e) => "Failed to initialize sqlite table "@
                + SQLITE_STORE_TABLE_NAME@ + " in "@ + path + ": "@ + e@,
            StoreFault::DatabaseExists => "Expected sqlite database "@ + path
                + " to not exist when initializing table "@ + SQLITE_STORE_TABLE_NAME@,
            StoreFault::ParentDirectory(e) => "Failed to create parent directory for sqlite database "@
                + path + ": "@ + e@,
            StoreFault::DatabaseMissing => "Expected sqlite database "@ + path
                + " to exist before assuming table "@ + SQLITE_STORE_TABLE_NAME@
                + " is initialized"@,
            StoreFault::TableMissing => "Expected sqlite table "@ + SQLITE_STORE_TABLE_NAME@
                + " to exist in "@ + path + " when assuming initialized"@,
            StoreFault::Clear(e) => "Failed to clear sqlite table "@ + SQLITE_STORE_TABLE_NAME@
                + " in "@ + path + ": "@ + e@,
            StoreFault::Serialize(e) => "Failed to serialize sqlite payload for table "@
                + SQLITE_STORE_TABLE_NAME@ + " in "@ + path + ": "@ + e@,
            StoreFault::Upsert { key, retries, error } => "Failed to upsert sqlite payload for key "@
                + key@ + " in table "@ + SQLITE_STORE_TABLE_NAME@ + " at "@ + path + " after "@
                + decimal::decimal(retries as nat) + " retries: "@ + error@,
            StoreFault::Query { key, error } => "Failed to query key "@ + key@ + " from table "@
                + SQLITE_STORE_TABLE_NAME@ + " at "@ + path + ": "@ + error@,
            StoreFault::Deserialize(e) => "Failed to deserialize sqlite payload for table "@
                + SQLITE_STORE_TABLE_NAME@ + " in "@ + path + ": "@ + e@,
            StoreFault::QueryKeys(e) => "Failed to query keys from table "@
                + SQLITE_STORE_TABLE_NAME@ + " in "@ + path + ": "@ + e@,
            StoreFault::DecodeKeys(e) => "Failed to decode key text from table "@
                + SQLITE_STORE_TABLE_NAME@ + " in "@ + path + ": "@ + e@,
            StoreFault::ParseKey(e) => "Failed to deserialize key from table "@
                + SQLITE_STORE_TABLE_NAME@ + " in "@ + path + ": "@ + e@,
            StoreFault::Scan(e) => "Failed to execute scan query for table "@
                + SQLITE_STORE_TABLE_NAME@ + " in "@ + path + ": "@ + e@,
            StoreFault::DecodeRows(e) => "Failed to decode row payload for table "@
                + SQLITE_STORE_TABLE_NAME@ + " in "@ + path + ": "@ + e@,
            StoreFault::DeserializeRow(e) => "Failed to deserialize row payload for table "@
                + SQLITE_STORE_TABLE_NAME@ + " in "@ + path + ": "@ + e@,
        }
    }

    pub fn text(&self, path: &str) -> (s: String)
        ensures
            s@ == self.words(path@),
    {
        match self {
            StoreFault::Open(e) => text::join6(
                "Failed to open sqlite database ",
                path,
                " for table ",
                SQLITE_STORE_TABLE_NAME,
                ": ",
                e.as_str(),
            ),
            StoreFault::BusyTimeout(e) => text::join4(
                "Failed to set sqlite busy timeout on ",
                path,
                ": ",
                e.as_str(),
            ),
            StoreFault::JournalMode(e) => text::join4(
                "Failed to set sqlite journal_mode on ",
                path,
                ": ",
                e.as_str(),
            ),
            StoreFault::Synchronous(e) => text::join4(
                "Failed to set sqlite synchronous pragma on ",
                path,
                ": ",
                e.as_str(),
            ),
            StoreFault::QueryMaster(e) => text::join6(
                "Failed to query sqlite_master for table ",
                SQLITE_STORE_TABLE_NAME,
                " in ",
                path,
                ": ",
                e.as_str(),
            ),
            StoreFault::CreateTable(e) => text::join6(
                "Failed to initialize sqlite table ",
                SQLITE_STORE_TABLE_NAME,
                " in ",
                path,
                ": ",
                e.as_str(),
            ),
            StoreFault::DatabaseExists => text::join4(
                "Expected sqlite database ",
                path,
                " to not exist when initializing table ",
                SQLITE_STORE_TABLE_NAME,
            ),
            StoreFault::ParentDirectory(e) => text::join4(
                "Failed to create parent directory for sqlite database ",
                path,
                ": ",
                e.as_str(),
            ),
            StoreFault::DatabaseMissing => text::join5(
                "Expected sqlite database ",
                path,
                " to exist before assuming table ",
                SQLITE_STORE_TABLE_NAME,
                " is initialized",
            ),
            StoreFault::TableMissing => text::join5(
                "Expected sqlite table ",
                SQLITE_STORE_TABLE_NAME,
                " to exist in ",
                path,
                " when assuming initialized",
            ),
            StoreFault::Clear(e) => text::join6(
                "Failed to clear sqlite table ",
                SQLITE_STORE_TABLE_NAME,
                " in ",
                path,
                ": ",
                e.as_str(),
            ),
            StoreFault::Serialize(e) => text::join6(
                "Failed to serialize sqlite payload for table ",
                SQLITE_STORE_TABLE_NAME,
                " in ",
                path,
                ": ",
                e.as_str(),
            ),
            StoreFault::Upsert { key, retries, error } => text::join10(
                "Failed to upsert sqlite payload for key ",
                key.as_str(),
                " in table ",
                SQLITE_STORE_TABLE_NAME,
                " at ",
                path,
                " after ",
                decimal::usize_text(*retries).as_str(),
                " retries: ",
                error.as_str(),
            ),
            StoreFault::Query { key, error } => text::join8(
                "Failed to query key ",
                key.as_str(),
                " from table ",
                SQLITE_STORE_TABLE_NAME,
                " at ",
                path,
                ": ",
                error.as_str(),
            ),
            StoreFault::Deserialize(e) => text::join6(
                "Failed to deserialize sqlite payload for table ",
                SQLITE_STORE_TABLE_NAME,
                " in ",
                path,
                ": ",
                e.as_str(),
            ),
            StoreFault::QueryKeys(e) => text::join6(
                "Failed to query keys from table ",
                SQLITE_STORE_TABLE_NAME,
                " in ",
                path,
                ": ",
                e.as_str(),
            ),
            StoreFault::DecodeKeys(e) => text::join6(
                "Failed to decode key text from table ",
                SQLITE_STORE_TABLE_NAME,
                " in ",
                path,
                ": ",
                e.as_str(),
            ),
            StoreFault::ParseKey(e) => text::join6(
                "Failed to deserialize key from table ",
                SQLITE_STORE_TABLE_NAME,
                " in ",
                path,
                ": ",
                e.as_str(),
            ),
            StoreFault::Scan(e) => text::join6(
                "Failed to execute scan query for table ",
                SQLITE_STORE_TABLE_NAME,
                " in ",
                path,
                ": ",
                e.as_str(),
            ),
            StoreFault::DecodeRows(e) => text::join6(
                "Failed to decode row payload for table ",
                SQLITE_STORE_TABLE_NAME,
                " in ",
                path,
                ": ",
                e.as_str(),
            ),
            StoreFault::DeserializeRow(e) => text::join6(
                "Failed to deserialize row payload for table ",
                SQLITE_STORE_TABLE_NAME,
                " in ",
                path,
                ": ",
                e.as_str(),
            ),
        }
    }
}

/// Every fault tells what was done, to which table of which database, and why it failed.
pub proof fn faults_tell_what_failed(fault: StoreFault, path: Seq<char>)
    ensures
        match fault {
            StoreFault::Open(e) => fault.words(path)
                == "Failed to open sqlite database "@ + path + " for table "@ + "store_entries"@
                + ": "@ + e@,
            StoreFault::BusyTimeout(e) => fault.words(path)
                == "Failed to set sqlite busy timeout on "@ + path + ": "@ + e@,
            StoreFault::JournalMode(e) => fault.words(path)
                == "Failed to set sqlite journal_mode on "@ + path + ": "@ + e@,
            StoreFault::Synchronous(e) => fault.words(path)
                == "Failed to set sqlite synchronous pragma on "@ + path + ": "@ + e@,
            StoreFault::QueryMaster(e) => fault.words(path)
                == "Failed to query sqlite_master for table "@ + "store_entries"@ + " in "@
                + path + ": "@ + e@,
            StoreFault::CreateTable(e) => fault.words(path)
                == "Failed to initialize sqlite table "@ + "store_entries"@ + " in "@ + path
                + ": "@ + e@,
            StoreFault::DatabaseExists => fault.words(path)
                == "Expected sqlite database "@ + path
                + " to not exist when initializing table "@ + "store_entries"@,
            StoreFault::ParentDirectory(e) => fault.words(path)
                == "Failed to create parent directory for sqlite database "@ + path + ": "@ + e@,
            StoreFault::DatabaseMissing => fault.words(path)
                == "Expected sqlite database "@ + path + " to exist before assuming table "@
                + "store_entries"@ + " is initialized"@,
            StoreFault::TableMissing => fault.words(path)
                == "Expected sqlite table "@ + "store_entries"@ + " to exist in "@ + path
                + " when assuming initialized"@,
            StoreFault::Clear(e) => fault.words(path)
                == "Failed to clear sqlite table "@ + "store_entries"@ + " in "@ + path + ": "@
                + e@,
            StoreFault::Serialize(e) => fault.words(path)
                == "Failed to serialize sqlite payload for table "@ + "store_entries"@ + " in "@
                + path + ": "@ + e@,
            StoreFault::Upsert { key, retries, error } => fault.words(path)
                == "Failed to upsert sqlite payload for key "@ + key@ + " in table "@
                + "store_entries"@ + " at "@ + path + " after "@
                + decimal::decimal(retries as nat) + " retries: "@ + error@,
            StoreFault::Query { key, error } => fault.words(path)
                == "Failed to query key "@ + key@ + " from table "@ + "store_entries"@ + " at "@
                + path + ": "@ + error@,
            StoreFault::Deserialize(e) => fault.words(path)
                == "Failed to deserialize sqlite payload for table "@ + "store_entries"@
                + " in "@ + path + ": "@ + e@,
            StoreFault::QueryKeys(e) => fault.words(path)
                == "Failed to query keys from table "@ + "store_entries"@ + " in "@ + path
                + ": "@ + e@,
            StoreFault::DecodeKeys(e) => fault.words(path)
                == "Failed to decode key text from table "@ + "store_entries"@ + " in "@ + path
                + ": "@ + e@,
            StoreFault::ParseKey(e) => fault.words(path)
                == "Failed to deserialize key from table "@ + "store_entries"@ + " in "@ + path
                + ": "@ + e@,
            StoreFault::Scan(e) => fault.words(path)
                == "Failed to execute scan query for table "@ + "store_entries"@ + " in "@ + path
                + ": "@ + e@,
            StoreFault::DecodeRows(e) => fault.words(path)
                == "Failed to decode row payload for table "@ + "store_entries"@ + " in "@ + path
                + ": "@ + e@,
            StoreFault::DeserializeRow(e) => fault.words(path)
                == "Failed to deserialize row payload for table "@ + "store_entries"@ + " in "@
                + path + ": "@ + e@,
        },
{
}

/// The first text that is not that of a key is told, and only where there is one are there no
/// keys.
pub proof fn the_first_bad_key_is_told<K: SqliteStoreKey>(texts: Seq<Seq<char>>, i: int)
    requires
        0 <= i <= texts.len(),
        forall|j: int| 0 <= j < i ==> K::text_fault(#[trigger] texts[j]) is None,
        i < texts.len() ==> K::text_fault(texts[i]) is Some,
    ensures
        first_key_fault::<K>(texts, 0) == i,
{
    lemma_first_key_fault::<K>(texts, 0, i);
}

proof fn lemma_first_key_fault<K: SqliteStoreKey>(texts: Seq<Seq<char>>, from: int, i: int)
    requires
        0 <= from <= i <= texts.len(),
        forall|j: int| from <= j < i ==> K::text_fault(#[trigger] texts[j]) is None,
        i < texts.len() ==> K::text_fault(texts[i]) is Some,
    ensures
        first_key_fault::<K>(texts, from) == i,
    decreases i - from,
{
    if from < i {
        assert(K::text_fault(texts[from]) is None);
        lemma_first_key_fault::<K>(texts, from + 1, i);
    }
}

/// The first row that has no value is told, and only where there is one are there no values.
pub proof fn the_first_bad_row_is_told<V>(rows: Seq<Result<V, String>>, i: int)
    requires
        0 <= i <= rows.len(),
        forall|j: int| 0 <= j < i ==> (#[trigger] rows[j]) is Ok,
        i < rows.len() ==> rows[i] is Err,
    ensures
        first_row_fault(rows, 0) == i,
{
    lemma_first_row_fault(rows, 0);
    let f = first_row_fault(rows, 0);
    if f < i {
        assert(rows[f] is Ok);
    }
}

/// Integer keys are read from the texts that stand for integers of their range, and from no other;
/// what is wrong with another text is told. Every text is a text key.
pub proof fn keys_are_read_from_their_texts(text: Seq<char>, key: usize, signed: i64)
    ensures
        usize::text_fault(text) is None <==> decimal::read_unsigned(text, usize::MAX as nat) is Ok,
        i64::text_fault(text) is None <==> decimal::read_signed(text, i64::MAX as nat) is Ok,
        key.read_from(text) <==> decimal::read_unsigned(text, usize::MAX as nat) == Ok::<
            nat,
            IntegerError,
        >(key as nat),
        signed.read_from(text) <==> decimal::read_signed(text, i64::MAX as nat) == Ok::<
            int,
            IntegerError,
        >(signed as int),
        decimal::read_unsigned(text, usize::MAX as nat) matches Err(e) ==> usize::text_fault(text)
            == Some(
            "Failed to parse key text '"@ + text + "' as "@ + "usize"@ + ": "@ + e.words(),
        ),
        decimal::read_signed(text, i64::MAX as nat) matches Err(e) ==> i64::text_fault(text)
            == Some("Failed to parse key text '"@ + text + "' as "@ + "i64"@ + ": "@ + e.words()),
        String::text_fault(text) is None,
{
}

/// The identifier is the one that is bound.
pub open spec fn is_bound(bound: Seq<char>) -> spec_fn(Seq<char>) -> bool {
    |id: Seq<char>| id == bound
}

/// The identifiers of the rows that SQLite selects from a table whose rows have the identifiers
/// `ids` in ascending order, given the one that is bound to the statement's parameter. Of other
/// statements nothing is said.
pub open spec fn selected(
    sql: Seq<char>,
    ids: Seq<Seq<char>>,
    bound: Seq<char>,
) -> Option<Seq<Seq<char>>> {
    if sql == "SELECT id FROM store_entries ORDER BY id ASC"@ {
        Some(ids)
    } else if sql == "SELECT payload_msgpack FROM store_entries ORDER BY id ASC"@ {
        Some(ids)
    } else if sql == "SELECT payload_msgpack FROM store_entries WHERE id = ?1"@ {
        Some(ids.filter(is_bound(bound)))
    } else {
        None
    }
}

/// Loading all keys and loading all values select every row that is stored, each once and in the
/// same order; loading the value of a key selects the rows of that key only.
pub proof fn everything_stored_is_selected(ids: Seq<Seq<char>>, bound: Seq<char>, i: int)
    ensures
        ({
            let keys = selected(StoreStatement::SelectKeys.words(), ids, bound);
            let values = selected(StoreStatement::SelectAll.words(), ids, bound);
            let one = selected(StoreStatement::SelectPayload.words(), ids, bound);
            &&& keys == Some(ids)
            &&& values == keys
            &&& one is Some
            &&& 0 <= i < one->0.len() ==> one->0[i] == bound && ids.contains(bound)
            &&& ids.contains(bound) ==> one->0.contains(bound)
        }),
{
    broadcast use vstd::seq_lib::group_filter_ensures;

    statements_in_full();
    reveal_strlit("SELECT id FROM store_entries ORDER BY id ASC");
    reveal_strlit("SELECT payload_msgpack FROM store_entries ORDER BY id ASC");
    reveal_strlit("SELECT payload_msgpack FROM store_entries WHERE id = ?1");
    let by_id = "SELECT payload_msgpack FROM store_entries WHERE id = ?1"@;
    let all = "SELECT payload_msgpack FROM store_entries ORDER BY id ASC"@;
    assert(by_id.len() != all.len());
    assert(by_id.len() != "SELECT id FROM store_entries ORDER BY id ASC"@.len());
    let same = is_bound(bound);
    let kept = ids.filter(same);
    if 0 <= i < kept.len() {
        assert(kept.contains(kept[i]));
        assert(same(kept[i]));
        ids.lemma_filter_contains_rev(same, kept[i]);
    }
    if ids.contains(bound) {
        assert(same(bound));
        assert(kept.contains(bound));
    }
}

}
