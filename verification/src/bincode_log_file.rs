//! An append-only log file of length-prefixed payloads, with random access.
//!
//! [`BincodeLogFile`] holds what is known of a log file: how many items it has, where its last
//! item ends, and a bounded cache of item offsets. It reads and writes nothing itself. Each
//! operation is a short series of steps: the caller performs the read or write that a step asks
//! for and hands the outcome to the next step. The `_in` functions run the same steps on the
//! bytes of a log held in memory.

use crate::decimal;
use crate::log_format;
use crate::log_format::LENGTH_PREFIX_BYTES;
use crate::lru_cache;
use crate::text;
use lru::LruCache;
use vstd::bytes::*;
use vstd::prelude::*;

verus! {

/// The cache capacity of a log that is opened without one.
pub const DEFAULT_CACHE_CAPACITY: usize = 1024;

/// What went wrong with a log file. The texts are those of the system's own errors.
#[derive(Debug)]
pub enum LogFault {
    CreateParent(String),
    Open(String),
    Metadata(String),
    SeekStart(String),
    PayloadTooLarge,
    Skip { payload_len: u64, error: String },
    ScanCount,
    Serialize(String),
    SeekEnd(String),
    Changed { expected: u64, got: u64 },
    WritePrefix(String),
    WritePayload(String),
    AppendCount,
    AppendOffset,
    Flush(String),
    Seek { offset: u64, error: String },
    ReadPrefix { offset: u64, error: String },
    Offset,
    PayloadExceedsMemory { payload_len: u64, offset: u64 },
    ReadPayload { payload_len: u64, offset: u64, error: String },
    Deserialize { offset: u64, error: String },
    CloneHandle(String),
    SeekIterator(String),
    IteratorPrefix(String),
    IteratorPayloadExceedsMemory(u64),
    IteratorPayload { payload_len: u64, error: String },
    IteratorDeserialize(String),
}

impl LogFault {
    /// The fault in words, for the log file at `path`.
    pub open spec fn words(self, path: Seq<char>) -> Seq<char> {
        match self {
            LogFault::CreateParent(e) => "Failed to create parent directories for "@ + path + ": "@
                + e@,
            LogFault::Open(e) => "Failed to open bincode log file "@ + path + ": "@ + e@,
            LogFault::Metadata(e) => "Failed to read metadata for "@ + path + ": "@ + e@,
            LogFault::SeekStart(e) => "Failed to seek start of "@ + path + ": "@ + e@,
            LogFault::PayloadTooLarge => "Payload length too large in "@ + path,
            LogFault::Skip { payload_len, error } => "Failed to skip "@ + decimal::decimal(
                payload_len as nat,
            ) + " payload bytes in "@ + path + ": "@ + error@,
            LogFault::ScanCount => "Item count overflow while scanning "@ + path,
            LogFault::Serialize(e) => "Failed to bincode-serialize value for "@ + path + ": "@ + e@,
            LogFault::SeekEnd(e) => "Failed to seek end of "@ + path + ": "@ + e@,
            LogFault::Changed { expected, got } => "File "@ + path
                + " changed unexpectedly (expected end "@ + decimal::decimal(expected as nat)
                + ", got "@ + decimal::decimal(got as nat) + ")"@,
            LogFault::WritePrefix(e) => "Failed to write length prefix to "@ + path + ": "@ + e@,
            LogFault::WritePayload(e) => "Failed to write payload to "@ + path + ": "@ + e@,
            LogFault::AppendCount => "Item count overflow while appending to "@ + path,
            LogFault::AppendOffset => "Byte offset overflow while appending to "@ + path,
            LogFault::Flush(e) => "Failed to flush "@ + path + ": "@ + e@,
            LogFault::Seek { offset, error } => "Failed to seek "@ + path + " to offset "@
                + decimal::decimal(offset as nat) + ": "@ + error@,
            LogFault::ReadPrefix { offset, error } => "Failed to read length prefix at offset "@
                + decimal::decimal(offset as nat) + " in "@ + path + ": "@ + error@,
            LogFault::Offset => "Byte offset overflow in "@ + path,
            LogFault::PayloadExceedsMemory { payload_len, offset } => "Payload length "@
                + decimal::decimal(payload_len as nat) + " at offset "@ + decimal::decimal(
                offset as nat,
            ) + " exceeds usize in "@ + path,
            LogFault::ReadPayload { payload_len, offset, error } => "Failed to read payload of "@
                + decimal::decimal(payload_len as nat) + " bytes at offset "@ + decimal::decimal(
                offset as nat,
            ) + " in "@ + path + ": "@ + error@,
            LogFault::Deserialize { offset, error } =>
                "Failed to bincode-deserialize item at offset "@ + decimal::decimal(offset as nat)
                + " in "@ + path + ": "@ + error@,
            LogFault::CloneHandle(e) => "Failed to clone file handle for "@ + path + " iterator: "@
                + e@,
            LogFault::SeekIterator(e) => "Failed to seek iterator start for "@ + path + ": "@ + e@,
            LogFault::IteratorPrefix(e) => "Failed to read iterator length prefix in "@ + path
                + ": "@ + e@,
            LogFault::IteratorPayloadExceedsMemory(n) => "Iterator payload length "@
                + decimal::decimal(n as nat) + " exceeds usize in "@ + path,
            LogFault::IteratorPayload { payload_len, error } =>
                "Failed to read iterator payload ("@ + decimal::decimal(payload_len as nat)
                + " bytes) in "@ + path + ": "@ + error@,
            LogFault::IteratorDeserialize(e) => "Failed to deserialize iterator item in "@ + path
                + ": "@ + e@,
        }
    }

    pub fn text(&self, path: &str) -> (s: String)
        ensures
            s@ == self.words(path@),
    {
        match self {
            LogFault::CreateParent(e) => text::join4(
                "Failed to create parent directories for ",
                path,
                ": ",
                e.as_str(),
            ),
            LogFault::Open(e) => text::join4(
                "Failed to open bincode log file ",
                path,
                ": ",
                e.as_str(),
            ),
            LogFault::Metadata(e) => text::join4(
                "Failed to read metadata for ",
                path,
                ": ",
                e.as_str(),
            ),
            LogFault::SeekStart(e) => text::join4("Failed to seek start of ", path, ": ", e.as_str()),
            LogFault::PayloadTooLarge => text::join2("Payload length too large in ", path),
            LogFault::Skip { payload_len, error } => text::join6(
                "Failed to skip ",
                decimal::u64_text(*payload_len).as_str(),
                " payload bytes in ",
                path,
                ": ",
                error.as_str(),
            ),
            LogFault::ScanCount => text::join2("Item count overflow while scanning ", path),
            LogFault::Serialize(e) => text::join4(
                "Failed to bincode-serialize value for ",
                path,
                ": ",
                e.as_str(),
            ),
            LogFault::SeekEnd(e) => text::join4("Failed to seek end of ", path, ": ", e.as_str()),
            LogFault::Changed { expected, got } => text::join7(
                "File ",
                path,
                " changed unexpectedly (expected end ",
                decimal::u64_text(*expected).as_str(),
                ", got ",
                decimal::u64_text(*got).as_str(),
                ")",
            ),
            LogFault::WritePrefix(e) => text::join4(
                "Failed to write length prefix to ",
                path,
                ": ",
                e.as_str(),
            ),
            LogFault::WritePayload(e) => text::join4(
                "Failed to write payload to ",
                path,
                ": ",
                e.as_str(),
            ),
            LogFault::AppendCount => text::join2("Item count overflow while appending to ", path),
            LogFault::AppendOffset => text::join2("Byte offset overflow while appending to ", path),
            LogFault::Flush(e) => text::join4("Failed to flush ", path, ": ", e.as_str()),
            LogFault::Seek { offset, error } => text::join6(
                "Failed to seek ",
                path,
                " to offset ",
                decimal::u64_text(*offset).as_str(),
                ": ",
                error.as_str(),
            ),
            LogFault::ReadPrefix { offset, error } => text::join6(
                "Failed to read length prefix at offset ",
                decimal::u64_text(*offset).as_str(),
                " in ",
                path,
                ": ",
                error.as_str(),
            ),
            LogFault::Offset => text::join2("Byte offset overflow in ", path),
            LogFault::PayloadExceedsMemory { payload_len, offset } => text::join6(
                "Payload length ",
                decimal::u64_text(*payload_len).as_str(),
                " at offset ",
                decimal::u64_text(*offset).as_str(),
                " exceeds usize in ",
                path,
            ),
            LogFault::ReadPayload { payload_len, offset, error } => text::join8(
                "Failed to read payload of ",
                decimal::u64_text(*payload_len).as_str(),
                " bytes at offset ",
                decimal::u64_text(*offset).as_str(),
                " in ",
                path,
                ": ",
                error.as_str(),
            ),
            LogFault::Deserialize { offset, error } => text::join6(
                "Failed to bincode-deserialize item at offset ",
                decimal::u64_text(*offset).as_str(),
                " in ",
                path,
                ": ",
                error.as_str(),
            ),
            LogFault::CloneHandle(e) => text::join4(
                "Failed to clone file handle for ",
                path,
                " iterator: ",
                e.as_str(),
            ),
            LogFault::SeekIterator(e) => text::join4(
                "Failed to seek iterator start for ",
                path,
                ": ",
                e.as_str(),
            ),
            LogFault::IteratorPrefix(e) => text::join4(
                "Failed to read iterator length prefix in ",
                path,
                ": ",
                e.as_str(),
            ),
            LogFault::IteratorPayloadExceedsMemory(n) => text::join4(
                "Iterator payload length ",
                decimal::u64_text(*n).as_str(),
                " exceeds usize in ",
                path,
            ),
            LogFault::IteratorPayload { payload_len, error } => text::join6(
                "Failed to read iterator payload (",
                decimal::u64_text(*payload_len).as_str(),
                " bytes) in ",
                path,
                ": ",
                error.as_str(),
            ),
            LogFault::IteratorDeserialize(e) => text::join4(
                "Failed to deserialize iterator item in ",
                path,
                ": ",
                e.as_str(),
            ),
        }
    }
}

/// What became of the bytes of a payload when they were turned into a value.
#[derive(Debug)]
pub enum Decoded<T> {
    Value(T),
    /// The bytes ended before the value did.
    UnexpectedEnd,
    Failed(String),
}

/// The item that a payload read at `offset` stands for. A payload that ends too early is a
/// missing item.
pub fn item_of<T>(offset: u64, decoded: Decoded<T>) -> (r: Result<Option<T>, LogFault>)
    ensures
        r == (match decoded {
            Decoded::Value(v) => Ok::<Option<T>, LogFault>(Some(v)),
            Decoded::UnexpectedEnd => Ok(None),
            Decoded::Failed(error) => Err(LogFault::Deserialize { offset, error }),
        }),
{
    match decoded {
        Decoded::Value(v) => Ok(Some(v)),
        Decoded::UnexpectedEnd => Ok(None),
        Decoded::Failed(error) => Err(LogFault::Deserialize { offset, error }),
    }
}

// ---------------------------------------------------------------------------
// Scanning
// ---------------------------------------------------------------------------

/// A scan of a log file from its start, one length prefix after the other.
#[derive(Debug)]
pub struct LogScan {
    file_size: u64,
    offset: u64,
    count: usize,
    last_offset: u64,
    stopped: bool,
}

/// What a scan does after it has read a length prefix.
#[derive(Clone, Copy, Debug, PartialEq, Eq, Structural)]
pub enum ScanMove {
    /// Go on behind a payload of this many bytes.
    Skip(u64),
    /// The record is incomplete: the log ends before it.
    Stop,
}

impl LogScan {
    pub closed spec fn size(self) -> int {
        self.file_size as int
    }

    /// The offset that the scan has reached.
    pub closed spec fn at(self) -> int {
        self.offset as int
    }

    /// How many records the scan has passed.
    pub closed spec fn passed(self) -> nat {
        self.count as nat
    }

    /// The offset of the last record that the scan has passed, or 0.
    pub closed spec fn last_at(self) -> int {
        self.last_offset as int
    }

    pub closed spec fn at_end(self) -> bool {
        self.stopped
    }

    pub open spec fn wf(self) -> bool {
        &&& 0 <= self.last_at() <= self.at() <= self.size() <= u64::MAX
        &&& self.passed() > 0 ==> self.last_at() + 8 <= self.at()
    }

    /// The scan runs over the bytes of `file`.
    pub open spec fn scans(self, file: Seq<u8>) -> bool {
        &&& self.wf()
        &&& self.size() == file.len()
        &&& self.passed() <= log_format::record_count(file)
        &&& self.at() == log_format::record_offset(file, self.passed())
        &&& self.passed() > 0 ==> self.last_at() == log_format::record_offset(
            file,
            (self.passed() - 1) as nat,
        )
        &&& self.at_end() ==> self.passed() == log_format::record_count(file)
    }

    /// Starts a scan of a file of the given size.
    pub fn start(file_size: u64) -> (scan: LogScan)
        ensures
            scan.wf(),
            scan.size() == file_size,
            scan.at() == 0,
            scan.passed() == 0,
            scan.last_at() == 0,
            !scan.at_end(),
    {
        LogScan { file_size, offset: 0, count: 0, last_offset: 0, stopped: false }
    }

    /// The offset at which the next length prefix is to be read, if the scan is not over.
    pub fn next_prefix(&self) -> (r: Option<u64>)
        requires
            self.wf(),
        ensures
            r == (if !self.at_end() && self.size() - self.at() >= 8 {
                Some(self.at() as u64)
            } else {
                None
            }),
    {
        if !self.stopped && self.file_size - self.offset >= LENGTH_PREFIX_BYTES {
            Some(self.offset)
        } else {
            None
        }
    }

    /// Takes the length prefix that was read.
    pub fn take_prefix(&mut self, prefix: &Vec<u8>) -> (r: Result<ScanMove, LogFault>)
        requires
            old(self).wf(),
            !old(self).at_end(),
            old(self).size() - old(self).at() >= 8,
            prefix@.len() == 8,
        ensures
            final(self).wf(),
            final(self).size() == old(self).size(),
            ({
                let n = spec_u64_from_le_bytes(prefix@);
                if n > old(self).size() - old(self).at() - 8 {
                    &&& r == Ok::<ScanMove, LogFault>(ScanMove::Stop)
                    &&& final(self).at_end()
                    &&& final(self).at() == old(self).at()
                    &&& final(self).passed() == old(self).passed()
                    &&& final(self).last_at() == old(self).last_at()
                } else if n > i64::MAX {
                    &&& r == Err::<ScanMove, LogFault>(LogFault::PayloadTooLarge)
                    &&& *final(self) == *old(self)
                } else if old(self).passed() == usize::MAX {
                    &&& r == Err::<ScanMove, LogFault>(LogFault::ScanCount)
                    &&& *final(self) == *old(self)
                } else {
                    &&& r == Ok::<ScanMove, LogFault>(ScanMove::Skip(n))
                    &&& !final(self).at_end()
                    &&& final(self).at() == old(self).at() + 8 + n
                    &&& final(self).passed() == old(self).passed() + 1
                    &&& final(self).last_at() == old(self).at()
                }
            }),
    {
        let payload_len: u64 = u64_from_le_bytes(prefix.as_slice());
        let behind_prefix: u64 = self.offset + LENGTH_PREFIX_BYTES;
        if payload_len > self.file_size - behind_prefix {
            self.stopped = true;
            return Ok(ScanMove::Stop);
        }
        if payload_len > i64::MAX as u64 {
            return Err(LogFault::PayloadTooLarge);
        }
        if self.count == usize::MAX {
            return Err(LogFault::ScanCount);
        }
        self.last_offset = self.offset;
        self.offset = behind_prefix + payload_len;
        self.count = self.count + 1;
        Ok(ScanMove::Skip(payload_len))
    }

    /// The offset and the size of the last record's payload, if there is a record.
    pub fn tail(&self) -> (r: Option<(u64, u64)>)
        requires
            self.wf(),
        ensures
            r == (if self.passed() > 0 {
                Some(((self.last_at() + 8) as u64, (self.at() - self.last_at() - 8) as u64))
            } else {
                None
            }),
    {
        if self.count > 0 {
            let from: u64 = self.last_offset + LENGTH_PREFIX_BYTES;
            Some((from, self.offset - from))
        } else {
            None
        }
    }

    /// How many items the log has and where the last one ends, given whether the payload of the
    /// last record turned out to end too early. Such a record is the trace of an interrupted
    /// write and does not count.
    pub open spec fn outcome(self, tail_cut: bool) -> (nat, int) {
        if tail_cut && self.passed() > 0 {
            ((self.passed() - 1) as nat, self.last_at())
        } else {
            (self.passed(), self.at())
        }
    }

    pub fn finish(&self, tail_cut: bool) -> (r: (usize, u64))
        requires
            self.wf(),
        ensures
            r.0 == self.outcome(tail_cut).0,
            r.1 == self.outcome(tail_cut).1,
    {
        if tail_cut && self.count > 0 {
            (self.count - 1, self.last_offset)
        } else {
            (self.count, self.offset)
        }
    }
}

/// Copies a range of bytes.
fn copy_range(bytes: &Vec<u8>, from: usize, to: usize) -> (r: Vec<u8>)
    requires
        from <= to <= bytes@.len(),
    ensures
        r@ == bytes@.subrange(from as int, to as int),
{
    let mut r: Vec<u8> = Vec::new();
    let mut i: usize = from;
    while i < to
        invariant
            from <= i <= to <= bytes@.len(),
            r@ == bytes@.subrange(from as int, i as int),
        decreases to - i,
    {
        r.push(bytes[i]);
        assert(bytes@.subrange(from as int, i + 1) =~= bytes@.subrange(from as int, i as int).push(
            bytes@[i as int],
        ));
        i = i + 1;
    }
    r
}

/// Scans a log held in memory.
pub fn scan_len_and_tail(bytes: &Vec<u8>) -> (scan: LogScan)
    requires
        bytes@.len() <= i64::MAX,
    ensures
        scan.scans(bytes@),
        scan.passed() == log_format::record_count(bytes@),
        scan.at() == log_format::record_offset(bytes@, log_format::record_count(bytes@)),
{
    let ghost file = bytes@;
    let size: usize = bytes.len();
    let mut scan = LogScan::start(size as u64);
    let mut running = true;
    while running
        invariant
            file == bytes@,
            size == file.len(),
            file.len() <= i64::MAX,
            scan.scans(file),
            scan.at_end() ==> !running,
            !running ==> scan.passed() == log_format::record_count(file),
        decreases file.len() - scan.at() + (if running { 1int } else { 0 }),
    {
        proof {
            log_format::lemma_record_offset(file, scan.passed());
        }
        match scan.next_prefix() {
            None => {
                running = false;
            },
            Some(offset) => {
                let prefix = copy_range(bytes, offset as usize, offset as usize + 8);
                let taken = scan.take_prefix(&prefix);
                match taken {
                    Ok(ScanMove::Stop) => {
                        running = false;
                    },
                    Ok(ScanMove::Skip(_)) => {},
                    Err(_) => {
                        // 8 * count <= offset, so the count cannot overflow.
                        assert(false);
                    },
                }
            },
        }
    }
    scan
}

// ---------------------------------------------------------------------------
// The log
// ---------------------------------------------------------------------------

/// What is known of a log file.
pub struct BincodeLogFile {
    len: usize,
    next_offset: u64,
    offset_cache: LruCache<usize, u64>,
}

/// A walk along the length prefixes to the offset of one item.
#[derive(Debug)]
pub struct OffsetSearch {
    target: usize,
    index: usize,
    offset: u64,
}

/// The cached item that is nearest before `target`, or the start of the log.
pub open spec fn anchor(entries: Seq<(usize, u64)>, target: usize) -> (usize, u64)
    decreases entries.len(),
{
    if entries.len() == 0 {
        (0, 0)
    } else {
        let before = anchor(entries.drop_last(), target);
        let e = entries.last();
        if e.0 <= target && e.0 >= before.0 {
            e
        } else {
            before
        }
    }
}

/// The anchor is no cached item behind the target, and no cached item stands between the two.
pub proof fn anchor_is_nearest(entries: Seq<(usize, u64)>, target: usize)
    ensures
        anchor(entries, target).0 <= target,
        anchor(entries, target) == (0usize, 0u64) || entries.contains(anchor(entries, target)),
        forall|i: int|
            0 <= i < entries.len() && (#[trigger] entries[i]).0 <= target ==> entries[i].0
                <= anchor(entries, target).0,
    decreases entries.len(),
{
    if entries.len() > 0 {
        let init = entries.drop_last();
        anchor_is_nearest(init, target);
        let a = anchor(init, target);
        if init.contains(a) {
            let m = choose|m: int| 0 <= m < init.len() && init[m] == a;
            assert(entries[m] == a);
        }
        assert(entries[entries.len() - 1] == entries.last());
        assert forall|i: int| 0 <= i < entries.len() && (#[trigger] entries[i]).0
            <= target implies entries[i].0 <= anchor(entries, target).0 by {
            if i < init.len() {
                assert(init[i] == entries[i]);
            }
        }
    }
}

/// The entries without the least recently used ones that stand behind a log of `len` items.
pub open spec fn without_stale(entries: Seq<(usize, u64)>, len: usize) -> Seq<(usize, u64)>
    decreases entries.len(),
{
    if entries.len() > 0 && entries.last().0 >= len {
        without_stale(entries.drop_last(), len)
    } else {
        entries
    }
}

/// The entries after a reload that found `len` items.
pub open spec fn after_reload(entries: Seq<(usize, u64)>, cap: nat, len: usize) -> Seq<
    (usize, u64),
> {
    let kept = without_stale(entries, len);
    if len > 0 && lru_cache::lookup(kept, 0) is None {
        lru_cache::after_put(kept, cap, 0, 0)
    } else {
        kept
    }
}

/// Every cached offset of one of the first `n` items is the offset of that item.
pub open spec fn cache_agrees(entries: Seq<(usize, u64)>, file: Seq<u8>, n: nat) -> bool {
    forall|i: int|
        0 <= i < entries.len() && (#[trigger] entries[i]).0 < n ==> entries[i].1
            == log_format::record_offset(file, entries[i].0 as nat)
}

impl OffsetSearch {
    pub closed spec fn wanted(self) -> usize {
        self.target
    }

    pub closed spec fn position(self) -> (usize, u64) {
        (self.index, self.offset)
    }

    pub open spec fn wf(self) -> bool {
        self.position().0 <= self.wanted()
    }

    /// The search stands at the offset of the item.
    pub open spec fn finished(self) -> bool {
        self.position().0 >= self.wanted()
    }

    pub fn is_finished(&self) -> (r: bool)
        ensures
            r == self.finished(),
    {
        self.index >= self.target
    }

    /// The offset at which the search stands: that of the item, or that of the next length
    /// prefix to read.
    pub fn offset(&self) -> (r: u64)
        ensures
            r == self.position().1,
    {
        self.offset
    }
}

impl BincodeLogFile {
    pub closed spec fn count(self) -> usize {
        self.len
    }

    /// Where the last item ends.
    pub closed spec fn end(self) -> u64 {
        self.next_offset
    }

    /// The cached offsets, most recently used first.
    pub closed spec fn cached(self) -> Seq<(usize, u64)> {
        lru_cache::offset_entries(self.offset_cache)
    }

    pub closed spec fn capacity(self) -> nat {
        lru_cache::offset_capacity(self.offset_cache)
    }

    pub open spec fn wf(self) -> bool {
        lru_cache::cache_entries_wf(self.cached(), self.capacity())
    }

    /// What is known of the log is true of the bytes of `file`.
    pub open spec fn serves(self, file: Seq<u8>) -> bool {
        &&& self.wf()
        &&& self.count() <= log_format::record_count(file)
        &&& self.end() == log_format::record_offset(file, self.count() as nat)
        &&& cache_agrees(self.cached(), file, self.count() as nat)
    }

    /// No cached item stands behind the end of the log.
    pub open spec fn no_stale(self) -> bool {
        lru_cache::keys_below(self.cached(), self.count() as int)
    }

    /// Every cached offset is that of a record of `file`.
    pub open spec fn caches(self, file: Seq<u8>) -> bool {
        &&& lru_cache::keys_below(self.cached(), log_format::record_count(file) as int)
        &&& cache_agrees(self.cached(), file, log_format::record_count(file))
    }

    /// A log that was just opened, where a scan found `found`.
    pub open spec fn opened(self, found: (nat, int)) -> bool {
        &&& self.wf()
        &&& self.count() == found.0
        &&& self.end() == found.1
        &&& self.cached() == (if self.count() > 0 {
            seq![(0usize, 0u64)]
        } else {
            seq![]
        })
    }

    /// What a reload makes of the log, where a scan found `found`.
    pub open spec fn reloaded(self, found: (nat, int), after: BincodeLogFile) -> bool {
        &&& after.wf()
        &&& after.count() == found.0
        &&& after.end() == found.1
        &&& after.capacity() == self.capacity()
        &&& after.cached() == after_reload(self.cached(), self.capacity(), after.count())
    }

    /// What an append makes of the log and of the bytes of its file, and what it returns.
    pub open spec fn appended(
        self,
        file: Seq<u8>,
        payload: Seq<u8>,
        after: BincodeLogFile,
        grown: Seq<u8>,
        r: Result<(), LogFault>,
    ) -> bool {
        if file.len() != self.end() {
            &&& r == Err::<(), LogFault>(
                LogFault::Changed { expected: self.end(), got: file.len() as u64 },
            )
            &&& after == self
            &&& grown == file
        } else {
            &&& grown == file + log_format::framed(payload)
            &&& r == (if self.count() == usize::MAX {
                Err::<(), LogFault>(LogFault::AppendCount)
            } else if self.end() + 8 + payload.len() > u64::MAX {
                Err(LogFault::AppendOffset)
            } else {
                Ok(())
            })
            &&& after.wf()
            &&& after.capacity() == self.capacity()
            &&& after.cached() == lru_cache::after_put(
                self.cached(),
                self.capacity(),
                self.count(),
                self.end(),
            )
            &&& after.count() == (if self.count() == usize::MAX {
                self.count() as int
            } else {
                self.count() + 1
            })
            &&& after.end() == (if r is Ok {
                self.end() + 8 + payload.len()
            } else {
                self.end() as int
            })
        }
    }

    /// What a read makes of a log that serves `file`, and the payload that it returns.
    pub open spec fn got(
        self,
        file: Seq<u8>,
        index: usize,
        after: BincodeLogFile,
        item: Option<Seq<u8>>,
    ) -> bool {
        &&& after.serves(file)
        &&& after.count() == self.count()
        &&& after.end() == self.end()
        &&& after.capacity() == self.capacity()
        &&& self.no_stale() ==> after.no_stale()
        &&& self.caches(file) ==> after.caches(file)
        &&& item == (if index < self.count() {
            Some(log_format::payload(file, index as nat))
        } else {
            None
        })
    }

    /// Opens a log with the default cache capacity.
    pub fn open(scan: &LogScan, tail_cut: bool) -> (log: BincodeLogFile)
        requires
            scan.wf(),
        ensures
            log.opened(scan.outcome(tail_cut)),
            log.no_stale(),
            log.capacity() == DEFAULT_CACHE_CAPACITY,
            forall|file: Seq<u8>| scan.scans(file) ==> #[trigger] log.serves(file),
    {
        Self::open_with_cache_capacity(scan, tail_cut, DEFAULT_CACHE_CAPACITY)
    }

    /// Opens a log that was scanned to its end. The cache holds at least one offset.
    pub fn open_with_cache_capacity(scan: &LogScan, tail_cut: bool, cache_capacity: usize) -> (log:
        BincodeLogFile)
        requires
            scan.wf(),
            cache_capacity <= lru_cache::MAX_CACHE_CAPACITY,
        ensures
            log.opened(scan.outcome(tail_cut)),
            log.no_stale(),
            log.capacity() == (if cache_capacity == 0 {
                1
            } else {
                cache_capacity
            }),
            forall|file: Seq<u8>| scan.scans(file) ==> #[trigger] log.serves(file),
    {
        let (len, next_offset) = scan.finish(tail_cut);
        let capacity: usize = if cache_capacity == 0 {
            1
        } else {
            cache_capacity
        };
        let mut offset_cache = lru_cache::new_offset_cache(capacity);
        if len > 0 {
            lru_cache::put_offset(&mut offset_cache, 0, 0);
        }
        let log = BincodeLogFile { len, next_offset, offset_cache };
        assert(log.count() > 0 ==> log.cached() =~= seq![(0usize, 0u64)]);
        assert(log.count() == 0 ==> log.cached() =~= seq![]);
        log
    }

    /// How many items the log has.
    pub fn len(&self) -> (r: usize)
        ensures
            r == self.count(),
    {
        self.len
    }

    pub fn is_empty(&self) -> (r: bool)
        ensures
            r == (self.count() == 0),
    {
        self.len == 0
    }

    /// Takes over what a new scan of the file found.
    pub fn reload(&mut self, scan: &LogScan, tail_cut: bool) -> (r: usize)
        requires
            old(self).wf(),
            scan.wf(),
        ensures
            old(self).reloaded(scan.outcome(tail_cut), *final(self)),
            r == final(self).count(),
    {
        let (len, next_offset) = scan.finish(tail_cut);
        self.len = len;
        self.next_offset = next_offset;
        let mut stale = true;
        while stale
            invariant
                self.len == len,
                self.next_offset == next_offset,
                self.wf(),
                self.capacity() == old(self).capacity(),
                without_stale(self.cached(), len) == without_stale(old(self).cached(), len),
                !stale ==> self.cached() == without_stale(self.cached(), len),
            decreases self.cached().len() + (if stale { 1int } else { 0 }),
        {
            match lru_cache::oldest_offset(&self.offset_cache) {
                Some((index, _)) => {
                    if index < self.len {
                        stale = false;
                    } else {
                        lru_cache::drop_oldest_offset(&mut self.offset_cache);
                    }
                },
                None => {
                    stale = false;
                },
            }
        }
        if self.len > 0 && lru_cache::peek_offset(&self.offset_cache, 0).is_none() {
            proof {
                lru_cache::put_keeps_entries(self.cached(), self.capacity(), 0, 0);
            }
            lru_cache::put_offset(&mut self.offset_cache, 0, 0);
        }
        self.len
    }

    /// Whether a record may be appended to a file that now ends at `end_offset`.
    pub fn check_append(&self, end_offset: u64) -> (r: Result<(), LogFault>)
        ensures
            r == (if end_offset == self.end() {
                Ok::<(), LogFault>(())
            } else {
                Err(LogFault::Changed { expected: self.end(), got: end_offset })
            }),
    {
        if end_offset != self.next_offset {
            Err(LogFault::Changed { expected: self.next_offset, got: end_offset })
        } else {
            Ok(())
        }
    }

    /// Takes note of a record that was written at the end of the log.
    pub fn commit_append(&mut self, payload_len: usize) -> (r: Result<(), LogFault>)
        requires
            old(self).wf(),
        ensures
            final(self).wf(),
            final(self).capacity() == old(self).capacity(),
            final(self).cached() == lru_cache::after_put(
                old(self).cached(),
                old(self).capacity(),
                old(self).count(),
                old(self).end(),
            ),
            final(self).count() == (if old(self).count() == usize::MAX {
                old(self).count() as int
            } else {
                old(self).count() + 1
            }),
            final(self).end() == (if r is Ok {
                old(self).end() + 8 + payload_len
            } else {
                old(self).end() as int
            }),
            r == (if old(self).count() == usize::MAX {
                Err::<(), LogFault>(LogFault::AppendCount)
            } else if old(self).end() + 8 + payload_len > u64::MAX {
                Err(LogFault::AppendOffset)
            } else {
                Ok(())
            }),
            r is Ok && old(self).no_stale() ==> final(self).no_stale(),
    {
        proof {
            let cached = self.cached();
            let cap = self.capacity();
            let n = self.count();
            lru_cache::put_keeps_entries(cached, cap, n, self.end());
            if self.no_stale() {
                lru_cache::keys_stay_below(cached, cap, n, self.end(), n + 1);
            }
        }
        lru_cache::put_offset(&mut self.offset_cache, self.len, self.next_offset);
        if self.len == usize::MAX {
            return Err(LogFault::AppendCount);
        }
        self.len = self.len + 1;
        let record_len = match LENGTH_PREFIX_BYTES.checked_add(payload_len as u64) {
            Some(n) => n,
            None => {
                return Err(LogFault::AppendOffset);
            },
        };
        match self.next_offset.checked_add(record_len) {
            Some(offset) => {
                self.next_offset = offset;
                Ok(())
            },
            None => Err(LogFault::AppendOffset),
        }
    }

    /// Starts the search for an item's offset, if the log has the item.
    pub fn begin_get(&mut self, index: usize) -> (r: Option<OffsetSearch>)
        requires
            old(self).wf(),
        ensures
            final(self).wf(),
            final(self).count() == old(self).count(),
            final(self).end() == old(self).end(),
            final(self).capacity() == old(self).capacity(),
            (r is None) == (index >= old(self).count()),
            r is None ==> *final(self) == *old(self),
            r is Some ==> r->0.wf() && r->0.wanted() == index,
            r is Some && lru_cache::lookup(old(self).cached(), index) is Some ==> {
                &&& r->0.position() == (index, lru_cache::lookup(old(self).cached(), index)->0)
                &&& final(self).cached() == lru_cache::after_get(old(self).cached(), index)
            },
            r is Some && lru_cache::lookup(old(self).cached(), index) is None ==> {
                &&& r->0.position() == anchor(old(self).cached(), index)
                &&& final(self).cached() == (if anchor(old(self).cached(), index).0 == 0 {
                    lru_cache::after_put(old(self).cached(), old(self).capacity(), 0, 0)
                } else {
                    old(self).cached()
                })
            },
            old(self).no_stale() ==> final(self).no_stale(),
    {
        if index >= self.len {
            return None;
        }
        proof {
            if self.no_stale() {
                let n = self.count() as int;
                lru_cache::keys_stay_below(self.cached(), self.capacity(), index, 0, n);
                lru_cache::keys_stay_below(self.cached(), self.capacity(), 0, 0, n);
            }
        }
        Some(self.offset_for_index(index))
    }

    fn offset_for_index(&mut self, target: usize) -> (search: OffsetSearch)
        requires
            old(self).wf(),
        ensures
            final(self).wf(),
            final(self).count() == old(self).count(),
            final(self).end() == old(self).end(),
            final(self).capacity() == old(self).capacity(),
            search.wf(),
            search.wanted() == target,
            lru_cache::lookup(old(self).cached(), target) is Some ==> {
                &&& search.position() == (target, lru_cache::lookup(old(self).cached(), target)->0)
                &&& final(self).cached() == lru_cache::after_get(old(self).cached(), target)
            },
            lru_cache::lookup(old(self).cached(), target) is None ==> {
                &&& search.position() == anchor(old(self).cached(), target)
                &&& final(self).cached() == (if anchor(old(self).cached(), target).0 == 0 {
                    lru_cache::after_put(old(self).cached(), old(self).capacity(), 0, 0)
                } else {
                    old(self).cached()
                })
            },
    {
        proof {
            lru_cache::get_keeps_entries(self.cached(), self.capacity(), target);
        }
        if let Some(offset) = lru_cache::get_offset(&mut self.offset_cache, target) {
            return OffsetSearch { target, index: target, offset };
        }
        let entries = lru_cache::list_offsets(&self.offset_cache);
        let mut start_index: usize = 0;
        let mut start_offset: u64 = 0;
        let mut i: usize = 0;
        while i < entries.len()
            invariant
                i <= entries@.len(),
                start_index <= target,
                (start_index, start_offset) == anchor(entries@.take(i as int), target),
            decreases entries@.len() - i,
        {
            let (cached_index, cached_offset) = entries[i];
            assert(entries@.take(i + 1).drop_last() =~= entries@.take(i as int));
            if cached_index <= target && cached_index >= start_index {
                start_index = cached_index;
                start_offset = cached_offset;
            }
            i = i + 1;
        }
        assert(entries@.take(entries@.len() as int) =~= entries@);
        if start_index == 0 {
            proof {
                lru_cache::put_keeps_entries(self.cached(), self.capacity(), 0, 0);
            }
            lru_cache::put_offset(&mut self.offset_cache, 0, 0);
        }
        OffsetSearch { target, index: start_index, offset: start_offset }
    }

    /// Takes the length prefix that was read where the search stands, and moves on by one item.
    pub fn advance(&mut self, search: &mut OffsetSearch, prefix: &Vec<u8>) -> (r: Result<
        (),
        LogFault,
    >)
        requires
            old(self).wf(),
            old(search).wf(),
            !old(search).finished(),
            prefix@.len() == 8,
        ensures
            final(self).wf(),
            final(search).wf(),
            final(self).count() == old(self).count(),
            final(self).end() == old(self).end(),
            final(self).capacity() == old(self).capacity(),
            final(search).wanted() == old(search).wanted(),
            ({
                let next = old(search).position().1 + 8 + spec_u64_from_le_bytes(prefix@);
                let index = (old(search).position().0 + 1) as usize;
                if next > u64::MAX {
                    &&& r == Err::<(), LogFault>(LogFault::Offset)
                    &&& *final(self) == *old(self)
                    &&& *final(search) == *old(search)
                } else {
                    &&& r == Ok::<(), LogFault>(())
                    &&& final(search).position() == (index, next as u64)
                    &&& final(self).cached() == lru_cache::after_put(
                        old(self).cached(),
                        old(self).capacity(),
                        index,
                        next as u64,
                    )
                }
            }),
            old(self).no_stale() && old(search).wanted() < old(self).count()
                ==> final(self).no_stale(),
    {
        let next = match Self::advance_offset(search.offset, prefix) {
            Ok(next) => next,
            Err(fault) => {
                return Err(fault);
            },
        };
        search.index = search.index + 1;
        search.offset = next;
        proof {
            let cached = self.cached();
            let cap = self.capacity();
            lru_cache::put_keeps_entries(cached, cap, search.index, next);
            if self.no_stale() {
                lru_cache::keys_stay_below(cached, cap, search.index, next, self.count() as int);
            }
        }
        lru_cache::put_offset(&mut self.offset_cache, search.index, next);
        Ok(())
    }

    fn advance_offset(offset: u64, prefix: &Vec<u8>) -> (r: Result<u64, LogFault>)
        requires
            prefix@.len() == 8,
        ensures
            ({
                let next = offset + 8 + spec_u64_from_le_bytes(prefix@);
                if next > u64::MAX {
                    r == Err::<u64, LogFault>(LogFault::Offset)
                } else {
                    r == Ok::<u64, LogFault>(next as u64)
                }
            }),
    {
        let payload_len: u64 = u64_from_le_bytes(prefix.as_slice());
        match LENGTH_PREFIX_BYTES.checked_add(payload_len) {
            Some(record_len) => match offset.checked_add(record_len) {
                Some(next) => Ok(next),
                None => Err(LogFault::Offset),
            },
            None => Err(LogFault::Offset),
        }
    }

    /// How many payload bytes follow the length prefix that was read at `offset`.
    pub fn payload_size(offset: u64, prefix: &Vec<u8>) -> (r: Result<usize, LogFault>)
        requires
            prefix@.len() == 8,
        ensures
            ({
                let n = spec_u64_from_le_bytes(prefix@);
                if n > usize::MAX {
                    r == Err::<usize, LogFault>(
                        LogFault::PayloadExceedsMemory { payload_len: n, offset },
                    )
                } else {
                    r == Ok::<usize, LogFault>(n as usize)
                }
            }),
    {
        let payload_len: u64 = u64_from_le_bytes(prefix.as_slice());
        if payload_len > usize::MAX as u64 {
            Err(LogFault::PayloadExceedsMemory { payload_len, offset })
        } else {
            Ok(payload_len as usize)
        }
    }

    /// The length prefix of a payload.
    pub fn prefix_of(payload_len: usize) -> (r: Vec<u8>)
        ensures
            r@ == spec_u64_to_le_bytes(payload_len as u64),
            r@.len() == 8,
    {
        u64_to_le_bytes(payload_len as u64)
    }
}

// ---------------------------------------------------------------------------
// Logs held in memory
// ---------------------------------------------------------------------------

impl BincodeLogFile {
    /// Appends a payload to a log held in memory.
    pub fn append_in(&mut self, bytes: &mut Vec<u8>, payload: &Vec<u8>) -> (r: Result<
        (),
        LogFault,
    >)
        requires
            old(self).wf(),
            old(bytes)@.len() <= u64::MAX,
        ensures
            old(self).appended(old(bytes)@, payload@, *final(self), final(bytes)@, r),
            r is Ok && old(self).no_stale() ==> final(self).no_stale(),
            r is Ok && old(self).serves(old(bytes)@) ==> {
                &&& final(self).serves(final(bytes)@)
                &&& log_format::records(final(bytes)@) == log_format::records(old(bytes)@).push(
                    payload@,
                )
            },
    {
        if let Err(fault) = self.check_append(bytes.len() as u64) {
            return Err(fault);
        }
        let ghost before = bytes@;
        let mut prefix = Self::prefix_of(payload.len());
        bytes.append(&mut prefix);
        let mut copy = copy_range(payload, 0, payload.len());
        bytes.append(&mut copy);
        assert(payload@.subrange(0, payload@.len() as int) =~= payload@);
        assert(bytes@ =~= before + log_format::framed(payload@));
        let r = self.commit_append(payload.len());
        proof {
            if r is Ok && old(self).serves(before) {
                lemma_append_serves(*old(self), *self, before, payload@);
            }
        }
        r
    }

    /// The payload of an item of a log held in memory, if the log has the item.
    pub fn get_in(&mut self, bytes: &Vec<u8>, index: usize) -> (r: Result<
        Option<Vec<u8>>,
        LogFault,
    >)
        requires
            old(self).serves(bytes@),
            bytes@.len() <= i64::MAX,
        ensures
            match r {
                Ok(Some(p)) => old(self).got(bytes@, index, *final(self), Some(p@)),
                Ok(None) => old(self).got(bytes@, index, *final(self), None),
                Err(_) => false,
            },
    {
        let ghost file = bytes@;
        let size: usize = bytes.len();
        proof {
            if index < self.count() {
                lemma_begin_serves(*self, file, index);
                if self.caches(file) {
                    lemma_get_caches(self.cached(), self.capacity(), file, index);
                    lemma_put_caches(self.cached(), self.capacity(), file, 0);
                }
            }
        }
        let mut search = match self.begin_get(index) {
            None => {
                return Ok(None);
            },
            Some(search) => search,
        };
        while !search.is_finished()
            invariant
                file == bytes@,
                size == file.len(),
                size <= i64::MAX,
                self.serves(file),
                self.count() == old(self).count(),
                self.end() == old(self).end(),
                self.capacity() == old(self).capacity(),
                old(self).no_stale() ==> self.no_stale(),
                old(self).caches(file) ==> self.caches(file),
                search.wf(),
                search.wanted() == index,
                index < self.count(),
                search.position().1 == log_format::record_offset(
                    file,
                    search.position().0 as nat,
                ),
            decreases index - search.position().0,
        {
            let ghost n = search.position().0 as nat;
            proof {
                log_format::lemma_record_offset(file, n);
                log_format::lemma_record_offset(file, n + 1);
                lemma_put_agrees(
                    self.cached(),
                    self.capacity(),
                    file,
                    self.count() as nat,
                    (n + 1) as usize,
                );
                if self.caches(file) {
                    lemma_put_caches(self.cached(), self.capacity(), file, (n + 1) as usize);
                }
            }
            let at: usize = search.offset() as usize;
            let prefix = copy_range(bytes, at, at + 8);
            match self.advance(&mut search, &prefix) {
                Ok(_) => {},
                Err(_) => {
                    assert(false);
                },
            }
        }
        proof {
            log_format::lemma_record_offset(file, index as nat);
        }
        let at: usize = search.offset() as usize;
        let prefix = copy_range(bytes, at, at + 8);
        match Self::payload_size(search.offset(), &prefix) {
            Ok(n) => {
                let from: usize = at + 8;
                Ok(Some(copy_range(bytes, from, from + n)))
            },
            Err(fault) => {
                assert(false);
                Err(fault)
            },
        }
    }
}

proof fn lemma_append_serves(
    before: BincodeLogFile,
    after: BincodeLogFile,
    file: Seq<u8>,
    payload: Seq<u8>,
)
    requires
        before.serves(file),
        before.end() == file.len(),
        payload.len() <= u64::MAX,
        after.wf(),
        after.count() == before.count() + 1,
        after.end() == before.end() + 8 + payload.len(),
        after.cached() == lru_cache::after_put(
            before.cached(),
            before.capacity(),
            before.count(),
            before.end(),
        ),
    ensures
        after.serves(file + log_format::framed(payload)),
        log_format::records(file + log_format::framed(payload)) == log_format::records(file).push(
            payload,
        ),
{
    let g = file + log_format::framed(payload);
    let n = before.count() as nat;
    log_format::lemma_framed(payload);
    log_format::lemma_record_offset(file, n);
    assert(log_format::count_from(file, file.len() as int) == 0);
    assert(log_format::record_count(file) == n);
    let none = Seq::<u8>::empty();
    assert(g + none =~= g);
    assert(!log_format::complete_at(g, g.len() as int));
    log_format::append_adds_record(file, payload, none);
    assert(g.take(file.len() as int) =~= file.take(file.len() as int));
    log_format::agreement_keeps_records(file, g, n);
    lru_cache::put_keeps_entries(
        before.cached(),
        before.capacity(),
        before.count(),
        before.end(),
    );
    assert forall|i: int|
        0 <= i < after.cached().len() && (#[trigger] after.cached()[i]).0
            < after.count() implies after.cached()[i].1 == log_format::record_offset(
        g,
        after.cached()[i].0 as nat,
    ) by {
        let e = after.cached()[i];
        if e != (before.count(), before.end()) {
            assert(before.cached().contains(e));
            let j = choose|j: int| 0 <= j < before.cached().len() && before.cached()[j] == e;
            assert(before.cached()[j].0 < n);
        }
    }
}

/// What the start of a search does to the cache leaves it in agreement with the file.
proof fn lemma_begin_serves(log: BincodeLogFile, file: Seq<u8>, index: usize)
    requires
        log.serves(file),
        index < log.count(),
    ensures
        lru_cache::lookup(log.cached(), index) is Some ==> lru_cache::lookup(
            log.cached(),
            index,
        )->0 == log_format::record_offset(file, index as nat),
        anchor(log.cached(), index).1 == log_format::record_offset(
            file,
            anchor(log.cached(), index).0 as nat,
        ),
        cache_agrees(lru_cache::after_get(log.cached(), index), file, log.count() as nat),
        cache_agrees(
            lru_cache::after_put(log.cached(), log.capacity(), 0, 0),
            file,
            log.count() as nat,
        ),
{
    let s = log.cached();
    lru_cache::lemma_lookup(s, index);
    anchor_is_nearest(s, index);
    lru_cache::get_keeps_entries(s, log.capacity(), index);
    if lru_cache::lookup(s, index) is Some {
        let e = (index, lru_cache::lookup(s, index)->0);
        let j = choose|j: int| 0 <= j < s.len() && s[j] == e;
        assert(s[j].0 < log.count());
    }
    let a = anchor(s, index);
    if a != (0usize, 0u64) {
        let j = choose|j: int| 0 <= j < s.len() && s[j] == a;
        assert(s[j].0 < log.count());
    }
    let g = lru_cache::after_get(s, index);
    assert forall|i: int| 0 <= i < g.len() && (#[trigger] g[i]).0 < log.count() implies g[i].1
        == log_format::record_offset(file, g[i].0 as nat) by {
        assert(s.contains(g[i]));
        let j = choose|j: int| 0 <= j < s.len() && s[j] == g[i];
        assert(s[j].0 < log.count());
    }
    lemma_put_agrees(s, log.capacity(), file, log.count() as nat, 0);
}

/// Caching the true offset of an item keeps the cache in agreement with the file.
proof fn lemma_put_agrees(s: Seq<(usize, u64)>, cap: nat, file: Seq<u8>, n: nat, index: usize)
    requires
        lru_cache::cache_entries_wf(s, cap),
        cache_agrees(s, file, n),
        0 <= log_format::record_offset(file, index as nat) <= u64::MAX,
    ensures
        cache_agrees(
            lru_cache::after_put(
                s,
                cap,
                index,
                log_format::record_offset(file, index as nat) as u64,
            ),
            file,
            n,
        ),
{
    let offset = log_format::record_offset(file, index as nat) as u64;
    let p = lru_cache::after_put(s, cap, index, offset);
    lru_cache::put_keeps_entries(s, cap, index, offset);
    assert forall|i: int| 0 <= i < p.len() && (#[trigger] p[i]).0 < n implies p[i].1
        == log_format::record_offset(file, p[i].0 as nat) by {
        if p[i] != (index, offset) {
            assert(s.contains(p[i]));
            let j = choose|j: int| 0 <= j < s.len() && s[j] == p[i];
            assert(s[j].0 < n);
        }
    }
}

/// Caching the offset of a record keeps every cached offset that of a record.
pub proof fn lemma_put_caches(s: Seq<(usize, u64)>, cap: nat, file: Seq<u8>, index: usize)
    requires
        lru_cache::cache_entries_wf(s, cap),
        lru_cache::keys_below(s, log_format::record_count(file) as int),
        cache_agrees(s, file, log_format::record_count(file)),
        index < log_format::record_count(file),
        log_format::record_offset(file, index as nat) <= u64::MAX,
    ensures
        ({
            let offset = log_format::record_offset(file, index as nat) as u64;
            let p = lru_cache::after_put(s, cap, index, offset);
            &&& lru_cache::keys_below(p, log_format::record_count(file) as int)
            &&& cache_agrees(p, file, log_format::record_count(file))
        }),
{
    let n = log_format::record_count(file);
    let offset = log_format::record_offset(file, index as nat) as u64;
    log_format::lemma_record_offset(file, index as nat);
    lemma_put_agrees(s, cap, file, n, index);
    lru_cache::keys_stay_below(s, cap, index, offset, n as int);
}

/// Reading the cache keeps every cached offset that of a record.
proof fn lemma_get_caches(s: Seq<(usize, u64)>, cap: nat, file: Seq<u8>, index: usize)
    requires
        lru_cache::cache_entries_wf(s, cap),
        lru_cache::keys_below(s, log_format::record_count(file) as int),
        cache_agrees(s, file, log_format::record_count(file)),
    ensures
        lru_cache::keys_below(
            lru_cache::after_get(s, index),
            log_format::record_count(file) as int,
        ),
        cache_agrees(lru_cache::after_get(s, index), file, log_format::record_count(file)),
{
    let n = log_format::record_count(file);
    let g = lru_cache::after_get(s, index);
    lru_cache::keys_stay_below(s, cap, index, 0, n as int);
    lru_cache::get_keeps_entries(s, cap, index);
    assert forall|i: int| 0 <= i < g.len() && (#[trigger] g[i]).0 < n implies g[i].1
        == log_format::record_offset(file, g[i].0 as nat) by {
        assert(s.contains(g[i]));
        let j = choose|j: int| 0 <= j < s.len() && s[j] == g[i];
        assert(s[j].0 < n);
    }
}

// ---------------------------------------------------------------------------
// Laws
// ---------------------------------------------------------------------------

/// A payload that is appended to a log becomes its last item, and all items before it stay.
pub proof fn append_then_get(log: BincodeLogFile, file: Seq<u8>, payload: Seq<u8>, index: nat)
    requires
        log.serves(file),
        log.end() == file.len(),
        payload.len() <= u64::MAX,
    ensures
        log_format::record_count(file + log_format::framed(payload)) == log.count() + 1,
        index == log.count() ==> log_format::payload(file + log_format::framed(payload), index)
            == payload,
        index < log.count() ==> log_format::payload(file + log_format::framed(payload), index)
            == log_format::payload(file, index),
{
    let g = file + log_format::framed(payload);
    let n = log.count() as nat;
    log_format::lemma_framed(payload);
    log_format::lemma_record_offset(file, n);
    assert(log_format::count_from(file, file.len() as int) == 0);
    let none = Seq::<u8>::empty();
    assert(g + none =~= g);
    assert(!log_format::complete_at(g, g.len() as int));
    log_format::append_adds_record(file, payload, none);
    assert(log_format::records(g)[n as int] == payload);
    assert(g.take(file.len() as int) =~= file.take(file.len() as int));
    log_format::agreement_keeps_records(file, g, n);
}

pub proof fn lemma_without_stale(entries: Seq<(usize, u64)>, cap: nat, len: usize)
    requires
        lru_cache::cache_entries_wf(entries, cap),
    ensures
        lru_cache::cache_entries_wf(without_stale(entries, len), cap),
        without_stale(entries, len).len() <= entries.len(),
        without_stale(entries, len) == entries.take(without_stale(entries, len).len() as int),
    decreases entries.len(),
{
    if entries.len() > 0 && entries.last().0 >= len {
        let init = entries.drop_last();
        lemma_without_stale(init, cap, len);
        let m = without_stale(entries, len).len() as int;
        assert(init.take(m) =~= entries.take(m));
    } else {
        assert(entries.take(entries.len() as int) =~= entries);
    }
}

/// Reloading a file that was only written to behind the known items keeps every cached offset
/// true, so that all items of the grown file can be read.
pub proof fn reload_follows_growth(
    before: BincodeLogFile,
    after: BincodeLogFile,
    file: Seq<u8>,
    grown: Seq<u8>,
    scan: LogScan,
    tail_cut: bool,
)
    requires
        before.serves(file),
        before.no_stale(),
        log_format::agree_up_to(file, grown, before.end() as int),
        scan.scans(grown),
        scan.outcome(tail_cut).0 >= before.count(),
        before.reloaded(scan.outcome(tail_cut), after),
    ensures
        after.serves(grown),
        after.no_stale(),
{
    let n = before.count() as nat;
    log_format::agreement_keeps_records(file, grown, n);
    let s = before.cached();
    let kept = without_stale(s, after.count());
    lemma_without_stale(s, before.capacity(), after.count());
    assert forall|i: int| 0 <= i < kept.len() implies (#[trigger] kept[i]).0 < n && kept[i].1
        == log_format::record_offset(grown, kept[i].0 as nat) by {
        assert(kept[i] == s[i]);
        assert(s[i].0 < n);
    }
    lemma_put_agrees(kept, before.capacity(), grown, after.count() as nat, 0);
    if after.count() > 0 {
        lru_cache::put_keeps_entries(kept, before.capacity(), 0, 0);
    }
    assert forall|i: int| 0 <= i < after.cached().len() implies (#[trigger] after.cached()[i]).0
        < after.count() by {
        let e = after.cached()[i];
        if after.count() > 0 && lru_cache::lookup(kept, 0) is None {
            if e != (0usize, 0u64) {
                assert(kept.contains(e));
                let j = choose|j: int| 0 <= j < kept.len() && kept[j] == e;
                assert(kept[j].0 < n);
            }
        } else {
            assert(e == kept[i]);
        }
    }
}

// ---------------------------------------------------------------------------
// Iterating
// ---------------------------------------------------------------------------

/// A walk over the items of a log from its start.
#[derive(Debug)]
pub struct BincodeLogFileIterator {
    remaining: usize,
}

impl BincodeLogFileIterator {
    /// How many items are still to come.
    pub closed spec fn left(self) -> usize {
        self.remaining
    }

    pub fn is_done(&self) -> (r: bool)
        ensures
            r == (self.left() == 0),
    {
        self.remaining == 0
    }

    /// Takes the outcome of reading the next length prefix. A failed read ends the walk.
    pub fn take_prefix(&mut self, read: Result<Vec<u8>, String>) -> (r: Result<usize, LogFault>)
        requires
            old(self).left() > 0,
            read is Ok ==> read->Ok_0@.len() == 8,
        ensures
            final(self).left() == (if r is Ok {
                old(self).left()
            } else {
                0
            }),
            r == (match read {
                Ok(prefix) => if spec_u64_from_le_bytes(prefix@) > usize::MAX {
                    Err::<usize, LogFault>(
                        LogFault::IteratorPayloadExceedsMemory(spec_u64_from_le_bytes(prefix@)),
                    )
                } else {
                    Ok(spec_u64_from_le_bytes(prefix@) as usize)
                },
                Err(error) => Err(LogFault::IteratorPrefix(error)),
            }),
    {
        match read {
            Ok(prefix) => {
                let payload_len: u64 = u64_from_le_bytes(prefix.as_slice());
                if payload_len > usize::MAX as u64 {
                    self.remaining = 0;
                    Err(LogFault::IteratorPayloadExceedsMemory(payload_len))
                } else {
                    Ok(payload_len as usize)
                }
            },
            Err(error) => {
                self.remaining = 0;
                Err(LogFault::IteratorPrefix(error))
            },
        }
    }

    /// Takes the outcome of reading a payload of `payload_len` bytes. A failed read ends the
    /// walk; a payload counts as one item, whatever becomes of its bytes.
    pub fn take_payload(&mut self, payload_len: usize, read: Result<Vec<u8>, String>) -> (r: Result<
        Vec<u8>,
        LogFault,
    >)
        requires
            old(self).left() > 0,
        ensures
            final(self).left() == (if read is Ok {
                old(self).left() - 1
            } else {
                0
            }),
            r == (match read {
                Ok(payload) => Ok::<Vec<u8>, LogFault>(payload),
                Err(error) => Err(
                    LogFault::IteratorPayload { payload_len: payload_len as u64, error },
                ),
            }),
    {
        match read {
            Ok(payload) => {
                self.remaining = self.remaining - 1;
                Ok(payload)
            },
            Err(error) => {
                self.remaining = 0;
                Err(LogFault::IteratorPayload { payload_len: payload_len as u64, error })
            },
        }
    }

    /// The value of an item, or the fault that its bytes gave. Here a payload that ends too
    /// early is a fault like any other.
    pub fn item<T>(decoded: Result<T, String>) -> (r: Result<T, LogFault>)
        ensures
            r == (match decoded {
                Ok(value) => Ok::<T, LogFault>(value),
                Err(error) => Err(LogFault::IteratorDeserialize(error)),
            }),
    {
        match decoded {
            Ok(value) => Ok(value),
            Err(error) => Err(LogFault::IteratorDeserialize(error)),
        }
    }
}

impl BincodeLogFile {
    /// A walk over the items from the start of the file.
    pub fn iter(&self) -> (r: BincodeLogFileIterator)
        ensures
            r.left() == self.count(),
    {
        BincodeLogFileIterator { remaining: self.len }
    }

    /// The payloads of all items of a log held in memory.
    pub fn items_in(&self, bytes: &Vec<u8>) -> (r: Vec<Vec<u8>>)
        requires
            self.serves(bytes@),
        ensures
            r@.len() == self.count(),
            forall|i: int|
                0 <= i < r@.len() ==> (#[trigger] r@[i])@ == log_format::records(bytes@)[i],
    {
        let ghost file = bytes@;
        let size: usize = bytes.len();
        let mut walk = self.iter();
        let mut at: usize = 0;
        let mut out: Vec<Vec<u8>> = Vec::new();
        while !walk.is_done()
            invariant
                file == bytes@,
                size == file.len(),
                self.serves(file),
                out@.len() + walk.left() == self.count(),
                at == log_format::record_offset(file, out@.len()),
                forall|i: int|
                    0 <= i < out@.len() ==> (#[trigger] out@[i])@ == log_format::records(file)[i],
            decreases walk.left(),
        {
            let ghost n = out@.len();
            proof {
                log_format::lemma_record_offset(file, n);
                log_format::lemma_record_offset(file, n + 1);
            }
            let prefix = copy_range(bytes, at, at + 8);
            if let Ok(payload_len) = walk.take_prefix(Ok(prefix)) {
                let from: usize = at + 8;
                let to: usize = from + payload_len;
                let read = copy_range(bytes, from, to);
                if let Ok(payload) = walk.take_payload(payload_len, Ok(read)) {
                    assert(payload@ == log_format::payload(file, n));
                    out.push(payload);
                    at = to;
                }
            }
        }
        out
    }
}

/// Every fault tells what was done, where in which file, and why it failed.
pub proof fn faults_tell_what_failed(fault: LogFault, path: Seq<char>)
    ensures
        match fault {
            LogFault::CreateParent(e) => fault.words(path)
                == "Failed to create parent directories for "@ + path + ": "@ + e@,
            LogFault::Open(e) => fault.words(path)
                == "Failed to open bincode log file "@ + path + ": "@ + e@,
            LogFault::Metadata(e) => fault.words(path)
                == "Failed to read metadata for "@ + path + ": "@ + e@,
            LogFault::SeekStart(e) => fault.words(path)
                == "Failed to seek start of "@ + path + ": "@ + e@,
            LogFault::PayloadTooLarge => fault.words(path)
                == "Payload length too large in "@ + path,
            LogFault::Skip { payload_len, error } => fault.words(path)
                == "Failed to skip "@ + decimal::decimal(payload_len as nat)
                + " payload bytes in "@ + path + ": "@ + error@,
            LogFault::ScanCount => fault.words(path)
                == "Item count overflow while scanning "@ + path,
            LogFault::Serialize(e) => fault.words(path)
                == "Failed to bincode-serialize value for "@ + path + ": "@ + e@,
            LogFault::SeekEnd(e) => fault.words(path)
                == "Failed to seek end of "@ + path + ": "@ + e@,
            LogFault::Changed { expected, got } => fault.words(path)
                == "File "@ + path + " changed unexpectedly (expected end "@
                + decimal::decimal(expected as nat) + ", got "@ + decimal::decimal(got as nat)
                + ")"@,
            LogFault::WritePrefix(e) => fault.words(path)
                == "Failed to write length prefix to "@ + path + ": "@ + e@,
            LogFault::WritePayload(e) => fault.words(path)
                == "Failed to write payload to "@ + path + ": "@ + e@,
            LogFault::AppendCount => fault.words(path)
                == "Item count overflow while appending to "@ + path,
            LogFault::AppendOffset => fault.words(path)
                == "Byte offset overflow while appending to "@ + path,
            LogFault::Flush(e) => fault.words(path) == "Failed to flush "@ + path + ": "@ + e@,
            LogFault::Seek { offset, error } => fault.words(path)
                == "Failed to seek "@ + path + " to offset "@ + decimal::decimal(offset as nat)
                + ": "@ + error@,
            LogFault::ReadPrefix { offset, error } => fault.words(path)
                == "Failed to read length prefix at offset "@ + decimal::decimal(offset as nat)
                + " in "@ + path + ": "@ + error@,
            LogFault::Offset => fault.words(path) == "Byte offset overflow in "@ + path,
            LogFault::PayloadExceedsMemory { payload_len, offset } => fault.words(path)
                == "Payload length "@ + decimal::decimal(payload_len as nat) + " at offset "@
                + decimal::decimal(offset as nat) + " exceeds usize in "@ + path,
            LogFault::ReadPayload { payload_len, offset, error } => fault.words(path)
                == "Failed to read payload of "@ + decimal::decimal(payload_len as nat)
                + " bytes at offset "@ + decimal::decimal(offset as nat) + " in "@ + path
                + ": "@ + error@,
            LogFault::Deserialize { offset, error } => fault.words(path)
                == "Failed to bincode-deserialize item at offset "@
                + decimal::decimal(offset as nat) + " in "@ + path + ": "@ + error@,
            LogFault::CloneHandle(e) => fault.words(path)
                == "Failed to clone file handle for "@ + path + " iterator: "@ + e@,
            LogFault::SeekIterator(e) => fault.words(path)
                == "Failed to seek iterator start for "@ + path + ": "@ + e@,
            LogFault::IteratorPrefix(e) => fault.words(path)
                == "Failed to read iterator length prefix in "@ + path + ": "@ + e@,
            LogFault::IteratorPayloadExceedsMemory(n) => fault.words(path)
                == "Iterator payload length "@ + decimal::decimal(n as nat)
                + " exceeds usize in "@ + path,
            LogFault::IteratorPayload { payload_len, error } => fault.words(path)
                == "Failed to read iterator payload ("@ + decimal::decimal(payload_len as nat)
                + " bytes) in "@ + path + ": "@ + error@,
            LogFault::IteratorDeserialize(e) => fault.words(path)
                == "Failed to deserialize iterator item in "@ + path + ": "@ + e@,
        },
{
}

/// Every complete record counts, up to the end of the last one. Where the payload of the last one
/// ends too early, that one alone does not count.
pub proof fn only_an_interrupted_write_does_not_count(scan: LogScan, file: Seq<u8>)
    requires
        scan.scans(file),
        scan.passed() == log_format::record_count(file),
    ensures
        scan.outcome(false).0 == log_format::records(file).len(),
        scan.outcome(false).1 == log_format::record_offset(file, log_format::records(file).len()),
        log_format::records(file).len() > 0 ==> {
            &&& scan.outcome(true).0 + 1 == log_format::records(file).len()
            &&& scan.outcome(true).1 == log_format::record_offset(file, scan.outcome(true).0)
            &&& scan.outcome(true).1 + 8 + log_format::records(file).last().len()
                == scan.outcome(false).1
        },
        log_format::records(file).len() == 0 ==> scan.outcome(true) == (0nat, 0int)
            && scan.outcome(false) == (0nat, 0int),
{
    let n = log_format::record_count(file);
    if n > 0 {
        log_format::lemma_record_offset(file, (n - 1) as nat);
        log_format::lemma_record_offset(file, n);
    }
}

/// A reload forgets cached items behind the end of the log, least recently used ones first, until
/// it meets one that is still there; and it keeps the rest as it is.
pub proof fn reloads_forget_what_is_gone(entries: Seq<(usize, u64)>, len: usize, i: int)
    ensures
        ({
            let kept = without_stale(entries, len);
            &&& kept.len() <= entries.len()
            &&& kept == entries.take(kept.len() as int)
            &&& kept.len() > 0 ==> kept.last().0 < len
            &&& kept.len() <= i < entries.len() ==> entries[i].0 >= len
        }),
    decreases entries.len(),
{
    if entries.len() > 0 && entries.last().0 >= len {
        let init = entries.drop_last();
        reloads_forget_what_is_gone(init, len, i);
        let m = without_stale(init, len).len() as int;
        assert(init.take(m) =~= entries.take(m));
        if m <= i < init.len() {
            assert(init[i] == entries[i]);
        }
    } else {
        assert(entries.take(entries.len() as int) =~= entries);
    }
}

/// The start of a log that has items is cached after a reload.
pub proof fn reloads_know_the_start(entries: Seq<(usize, u64)>, cap: nat, len: usize)
    requires
        lru_cache::cache_entries_wf(entries, cap),
        len > 0,
    ensures
        lru_cache::lookup(after_reload(entries, cap, len), 0) is Some,
        lru_cache::lookup(without_stale(entries, len), 0) is Some ==> after_reload(
            entries,
            cap,
            len,
        ) == without_stale(entries, len),
{
    lemma_without_stale(entries, cap, len);
    lru_cache::puts_drop_only_the_oldest(without_stale(entries, len), cap, 0, 0, 1);
}

/// A log that was opened or reloaded has as many items as the scan found, and ends where the last
/// one ends.
pub proof fn logs_hold_what_a_scan_finds(
    before: BincodeLogFile,
    after: BincodeLogFile,
    scan: LogScan,
    file: Seq<u8>,
)
    requires
        scan.scans(file),
        scan.passed() == log_format::record_count(file),
        after.opened(scan.outcome(false)) || before.reloaded(scan.outcome(false), after),
    ensures
        after.count() == log_format::records(file).len(),
        after.end() == log_format::record_offset(file, log_format::records(file).len()),
{
    only_an_interrupted_write_does_not_count(scan, file);
}

/// An append puts one record behind all others, if and only if the file ends where the log does
/// and the log can count one more; the log then ends where the file does. A file that others
/// changed stays as it is, and so does the log.
pub proof fn appends_put_one_record_at_the_end(
    before: BincodeLogFile,
    file: Seq<u8>,
    payload: Seq<u8>,
    after: BincodeLogFile,
    grown: Seq<u8>,
    r: Result<(), LogFault>,
)
    requires
        before.appended(file, payload, after, grown, r),
        file.len() + 8 + payload.len() <= u64::MAX,
    ensures
        r is Ok <==> file.len() == before.end() && before.count() < usize::MAX,
        r is Ok ==> {
            &&& grown.len() == file.len() + 8 + payload.len()
            &&& grown.take(file.len() as int) == file
            &&& grown.skip(file.len() as int + 8) == payload
            &&& log_format::prefix_at(grown, file.len() as int) == payload.len()
            &&& after.count() == before.count() + 1
            &&& after.end() == grown.len()
        },
        file.len() != before.end() ==> {
            &&& grown == file
            &&& after == before
            &&& r == Err::<(), LogFault>(
                LogFault::Changed { expected: before.end(), got: file.len() as u64 },
            )
        },
        file.len() == before.end() && before.count() == usize::MAX ==> r == Err::<(), LogFault>(
            LogFault::AppendCount,
        ),
{
    if file.len() == before.end() {
        let at = file.len() as int;
        let prefix = spec_u64_to_le_bytes(payload.len() as u64);
        log_format::lemma_framed(payload);
        lemma_auto_spec_u64_to_from_le_bytes();
        assert(grown.take(at) =~= file);
        assert(grown.skip(at + 8) =~= payload);
        assert(grown.subrange(at, at + 8) =~= prefix);
    }
}

/// A read gives the record of the item, if and only if the log has the item, and changes neither
/// how many items the log has nor where it ends.
pub proof fn reads_give_the_records(
    before: BincodeLogFile,
    file: Seq<u8>,
    index: usize,
    after: BincodeLogFile,
    item: Option<Seq<u8>>,
)
    requires
        before.serves(file),
        before.got(file, index, after, item),
    ensures
        item is Some <==> index < before.count(),
        item is Some ==> index < log_format::records(file).len() && item->0
            == log_format::records(file)[index as int],
        after.count() == before.count(),
        after.end() == before.end(),
        after.capacity() == before.capacity(),
{
}

/// A log caches a thousand and twenty-four offsets where nothing else is asked for.
pub proof fn logs_cache_a_thousand_offsets()
    ensures
        DEFAULT_CACHE_CAPACITY == 1024,
{
}

}
