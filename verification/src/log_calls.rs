//! What a log answers to a series of calls.
//!
//! The answers are those of a model that knows no cache: how many offsets a log caches, and which,
//! is never seen.

use crate::bincode_log_file;
use crate::bincode_log_file::{BincodeLogFile, LogFault, LogScan};
use crate::log_format;
use crate::lru_cache;
use vstd::prelude::*;

verus! {

/// What is asked of a log, or happens to its file.
pub enum LogCall {
    /// Append a payload.
    Append(Seq<u8>),
    /// Read the payload of an item.
    Get(usize),
    /// Count the items.
    Len,
    /// Scan the file again.
    Reload,
    /// Nothing is asked: others write these bytes behind the records of the file.
    Grow(Seq<u8>),
}

/// What a log answers.
pub enum LogReply {
    Done(Result<(), LogFault>),
    Item(Option<Seq<u8>>),
    Count(usize),
    Nothing,
}

/// What a scan of the whole file finds, given whether the payload of the last record turns out to
/// end too early: how many items the log has, and where the last one ends.
pub open spec fn found(file: Seq<u8>, tail_cut: bool) -> (nat, int) {
    let n = log_format::record_count(file);
    if tail_cut && n > 0 {
        ((n - 1) as nat, log_format::record_offset(file, (n - 1) as nat))
    } else {
        (n, log_format::record_offset(file, n))
    }
}

/// A scan that has passed all records of a file finds what is to be found.
pub proof fn full_scan_finds_all(scan: LogScan, file: Seq<u8>, tail_cut: bool)
    requires
        scan.scans(file),
        scan.passed() == log_format::record_count(file),
    ensures
        scan.outcome(tail_cut) == found(file, tail_cut),
{
}

/// `grown` holds all records of `file`, and anything behind them.
pub open spec fn grows(file: Seq<u8>, grown: Seq<u8>) -> bool {
    log_format::agree_up_to(
        file,
        grown,
        log_format::record_offset(file, log_format::record_count(file)),
    )
}

/// A log takes a call on a file, and answers it. Whether the last payload of a file ends too early
/// is what `cut` says of the file.
pub open spec fn answers(
    before: BincodeLogFile,
    file: Seq<u8>,
    call: LogCall,
    cut: spec_fn(Seq<u8>) -> bool,
    after: BincodeLogFile,
    file_after: Seq<u8>,
    reply: LogReply,
) -> bool {
    match call {
        LogCall::Append(payload) => {
            &&& reply is Done
            &&& before.appended(file, payload, after, file_after, reply->Done_0)
        },
        LogCall::Get(index) => {
            &&& file_after == file
            &&& reply is Item
            &&& before.got(file, index, after, reply->Item_0)
        },
        LogCall::Len => {
            &&& file_after == file
            &&& after == before
            &&& reply == LogReply::Count(before.count())
        },
        LogCall::Reload => {
            &&& file_after == file
            &&& before.reloaded(found(file, cut(file)), after)
            &&& reply == LogReply::Count(after.count())
        },
        LogCall::Grow(grown) => {
            &&& grows(file, grown)
            &&& file_after == grown
            &&& after == before
            &&& reply == LogReply::Nothing
        },
    }
}

/// A log is opened on a file that can be held in memory, and answers one call after the other.
pub open spec fn session(
    logs: Seq<BincodeLogFile>,
    files: Seq<Seq<u8>>,
    calls: Seq<LogCall>,
    cut: spec_fn(Seq<u8>) -> bool,
    replies: Seq<LogReply>,
) -> bool {
    &&& logs.len() == calls.len() + 1
    &&& files.len() == calls.len() + 1
    &&& replies.len() == calls.len()
    &&& logs[0].opened(found(files[0], cut(files[0])))
    &&& forall|i: int| 0 <= i < files.len() ==> (#[trigger] files[i]).len() <= i64::MAX
    &&& forall|i: int|
        0 <= i < calls.len() ==> answers(
            logs[i],
            files[i],
            #[trigger] calls[i],
            cut,
            logs[i + 1],
            files[i + 1],
            replies[i],
        )
}

// ---------------------------------------------------------------------------
// A log without a cache
// ---------------------------------------------------------------------------

/// What is to be known of a log: how many items it has, where the last one ends, and its file.
#[verifier::ext_equal]
pub struct LogModel {
    pub count: int,
    pub end: int,
    pub file: Seq<u8>,
}

impl LogModel {
    pub open spec fn opened(file: Seq<u8>, tail_cut: bool) -> LogModel {
        LogModel { count: found(file, tail_cut).0 as int, end: found(file, tail_cut).1, file }
    }

    /// What a call is answered.
    pub open spec fn reply(self, call: LogCall, cut: spec_fn(Seq<u8>) -> bool) -> LogReply {
        match call {
            LogCall::Append(_) => LogReply::Done(
                if self.file.len() != self.end {
                    Err(
                        LogFault::Changed {
                            expected: self.end as u64,
                            got: self.file.len() as u64,
                        },
                    )
                } else if self.count == usize::MAX {
                    Err(LogFault::AppendCount)
                } else {
                    Ok(())
                },
            ),
            LogCall::Get(index) => LogReply::Item(
                if index < self.count {
                    Some(log_format::payload(self.file, index as nat))
                } else {
                    None
                },
            ),
            LogCall::Len => LogReply::Count(self.count as usize),
            LogCall::Reload => LogReply::Count(found(self.file, cut(self.file)).0 as usize),
            LogCall::Grow(_) => LogReply::Nothing,
        }
    }

    /// What is to be known after a call.
    pub open spec fn after(self, call: LogCall, cut: spec_fn(Seq<u8>) -> bool) -> LogModel {
        match call {
            LogCall::Append(payload) => if self.file.len() != self.end {
                self
            } else if self.count == usize::MAX {
                LogModel { file: self.file + log_format::framed(payload), ..self }
            } else {
                LogModel {
                    count: self.count + 1,
                    end: self.end + 8 + payload.len(),
                    file: self.file + log_format::framed(payload),
                }
            },
            LogCall::Reload => Self::opened(self.file, cut(self.file)),
            LogCall::Grow(grown) => LogModel { file: grown, ..self },
            _ => self,
        }
    }
}

/// What is to be known after a series of calls.
pub open spec fn modelled(
    file: Seq<u8>,
    calls: Seq<LogCall>,
    cut: spec_fn(Seq<u8>) -> bool,
) -> LogModel
    decreases calls.len(),
{
    if calls.len() == 0 {
        LogModel::opened(file, cut(file))
    } else {
        modelled(file, calls.drop_last(), cut).after(calls.last(), cut)
    }
}

/// The log knows what the model knows, and its cache holds true offsets.
pub open spec fn follows(log: BincodeLogFile, model: LogModel) -> bool {
    &&& log.serves(model.file)
    &&& log.caches(model.file)
    &&& log.count() == model.count
    &&& log.end() == model.end
}

proof fn lemma_opened(log: BincodeLogFile, file: Seq<u8>, tail_cut: bool)
    requires
        log.opened(found(file, tail_cut)),
    ensures
        follows(log, LogModel::opened(file, tail_cut)),
{
    if log.count() > 0 {
        assert(log.cached()[0] == (0usize, 0u64));
    }
}

/// A log that serves a file and caches no offset behind its end caches offsets of records only.
pub proof fn offsets_of_items_are_those_of_records(log: BincodeLogFile, file: Seq<u8>)
    requires
        log.serves(file),
        log.no_stale(),
    ensures
        log.caches(file),
{
    assert forall|i: int| 0 <= i < log.cached().len() implies (#[trigger] log.cached()[i]).0
        < log_format::record_count(file) by {
        assert(log.cached()[i].0 < log.count());
    }
    assert forall|i: int|
        0 <= i < log.cached().len() && (#[trigger] log.cached()[i]).0 < log_format::record_count(
            file,
        ) implies log.cached()[i].1 == log_format::record_offset(
        file,
        log.cached()[i].0 as nat,
    ) by {
        assert(log.cached()[i].0 < log.count());
    }
}

/// Records that stay keep the cache true.
proof fn lemma_grown(log: BincodeLogFile, file: Seq<u8>, grown: Seq<u8>)
    requires
        log.serves(file),
        log.caches(file),
        grows(file, grown),
    ensures
        log.serves(grown),
        log.caches(grown),
{
    let n = log_format::record_count(file);
    log_format::agreement_keeps_records(file, grown, n);
    assert forall|i: int|
        0 <= i < log.cached().len() && (#[trigger] log.cached()[i]).0 < log_format::record_count(
            grown,
        ) implies log.cached()[i].1 == log_format::record_offset(
        grown,
        log.cached()[i].0 as nat,
    ) by {
        assert(log.cached()[i].0 < n);
    }
}

proof fn lemma_append(
    log: BincodeLogFile,
    file: Seq<u8>,
    payload: Seq<u8>,
    after: BincodeLogFile,
    grown: Seq<u8>,
    r: Result<(), LogFault>,
)
    requires
        log.serves(file),
        log.caches(file),
        log.appended(file, payload, after, grown, r),
        grown.len() <= i64::MAX,
    ensures
        after.serves(grown),
        after.caches(grown),
        r is Err ==> after.count() == log.count() && after.end() == log.end(),
{
    if file.len() == log.end() {
        let n = log.count() as nat;
        log_format::lemma_framed(payload);
        log_format::lemma_record_offset(file, n);
        assert(!log_format::complete_at(file, file.len() as int));
        assert(n == log_format::record_count(file));
        let none = Seq::<u8>::empty();
        assert(grown + none =~= grown);
        assert(!log_format::complete_at(grown, grown.len() as int));
        log_format::append_adds_record(file, payload, none);
        assert(grown.take(file.len() as int) =~= file.take(file.len() as int));
        lemma_grown(log, file, grown);
        bincode_log_file::lemma_put_caches(log.cached(), log.capacity(), grown, log.count());
        assert forall|i: int|
            0 <= i < after.cached().len() && (#[trigger] after.cached()[i]).0
                < after.count() implies after.cached()[i].1 == log_format::record_offset(
            grown,
            after.cached()[i].0 as nat,
        ) by {
            assert(after.cached()[i].0 < log_format::record_count(grown));
        }
    }
}

proof fn lemma_reload(log: BincodeLogFile, file: Seq<u8>, tail_cut: bool, after: BincodeLogFile)
    requires
        log.serves(file),
        log.caches(file),
        log.reloaded(found(file, tail_cut), after),
    ensures
        after.serves(file),
        after.caches(file),
{
    let n = log_format::record_count(file);
    let s = log.cached();
    let kept = bincode_log_file::without_stale(s, after.count());
    bincode_log_file::lemma_without_stale(s, log.capacity(), after.count());
    assert forall|i: int| 0 <= i < kept.len() implies (#[trigger] kept[i]).0 < n && kept[i].1
        == log_format::record_offset(file, kept[i].0 as nat) by {
        assert(kept[i] == s[i]);
        assert(s[i].0 < n);
    }
    if after.count() > 0 && lru_cache::lookup(kept, 0) is None {
        bincode_log_file::lemma_put_caches(kept, log.capacity(), file, 0);
    }
    assert forall|i: int|
        0 <= i < after.cached().len() && (#[trigger] after.cached()[i]).0
            < after.count() implies after.cached()[i].1 == log_format::record_offset(
        file,
        after.cached()[i].0 as nat,
    ) by {
        assert(after.cached()[i].0 < n);
    }
}

/// A log answers a call as the model does, and knows afterwards what the model knows.
pub proof fn call_is_answered_as_modelled(
    log: BincodeLogFile,
    model: LogModel,
    call: LogCall,
    cut: spec_fn(Seq<u8>) -> bool,
    after: BincodeLogFile,
    file_after: Seq<u8>,
    reply: LogReply,
)
    requires
        follows(log, model),
        answers(log, model.file, call, cut, after, file_after, reply),
        file_after.len() <= i64::MAX,
    ensures
        reply == model.reply(call, cut),
        file_after == model.after(call, cut).file,
        follows(after, model.after(call, cut)),
{
    match call {
        LogCall::Append(payload) => {
            log_format::lemma_framed(payload);
            lemma_append(log, model.file, payload, after, file_after, reply->Done_0);
        },
        LogCall::Reload => {
            lemma_reload(log, model.file, cut(model.file), after);
        },
        LogCall::Grow(grown) => {
            lemma_grown(log, model.file, grown);
        },
        _ => {},
    }
}

/// A log answers every call of a session as the model does, which knows no cache.
pub proof fn session_is_answered_as_modelled(
    logs: Seq<BincodeLogFile>,
    files: Seq<Seq<u8>>,
    calls: Seq<LogCall>,
    cut: spec_fn(Seq<u8>) -> bool,
    replies: Seq<LogReply>,
    n: int,
)
    requires
        session(logs, files, calls, cut, replies),
        0 <= n <= calls.len(),
    ensures
        follows(logs[n], modelled(files[0], calls.take(n), cut)),
        files[n] == modelled(files[0], calls.take(n), cut).file,
        n < calls.len() ==> replies[n] == modelled(files[0], calls.take(n), cut).reply(
            calls[n],
            cut,
        ),
    decreases n,
{
    if n == 0 {
        lemma_opened(logs[0], files[0], cut(files[0]));
    } else {
        session_is_answered_as_modelled(logs, files, calls, cut, replies, n - 1);
        let before = calls.take(n - 1);
        assert(calls.take(n).drop_last() =~= before);
        assert(calls.take(n).last() == calls[n - 1]);
        assert(files[n].len() <= i64::MAX);
        call_is_answered_as_modelled(
            logs[n - 1],
            modelled(files[0], before, cut),
            calls[n - 1],
            cut,
            logs[n],
            files[n],
            replies[n - 1],
        );
    }
    if n < calls.len() {
        assert(files[n + 1].len() <= i64::MAX);
        call_is_answered_as_modelled(
            logs[n],
            modelled(files[0], calls.take(n), cut),
            calls[n],
            cut,
            logs[n + 1],
            files[n + 1],
            replies[n],
        );
    }
}

/// Two logs that are opened on the same bytes give the same answers to the same calls, and leave
/// the same bytes behind, whatever the capacities of their caches are.
pub proof fn cache_capacity_is_never_seen(
    logs: Seq<BincodeLogFile>,
    files: Seq<Seq<u8>>,
    replies: Seq<LogReply>,
    other_logs: Seq<BincodeLogFile>,
    other_files: Seq<Seq<u8>>,
    other_replies: Seq<LogReply>,
    calls: Seq<LogCall>,
    cut: spec_fn(Seq<u8>) -> bool,
)
    requires
        session(logs, files, calls, cut, replies),
        session(other_logs, other_files, calls, cut, other_replies),
        files[0] == other_files[0],
    ensures
        replies == other_replies,
        files == other_files,
        forall|i: int|
            0 <= i < logs.len() ==> (#[trigger] logs[i]).count() == other_logs[i].count()
                && logs[i].end() == other_logs[i].end(),
{
    assert forall|i: int| 0 <= i < replies.len() implies replies[i] == other_replies[i] by {
        session_is_answered_as_modelled(logs, files, calls, cut, replies, i);
        session_is_answered_as_modelled(other_logs, other_files, calls, cut, other_replies, i);
    }
    assert forall|i: int| 0 <= i < files.len() implies files[i] == other_files[i] by {
        session_is_answered_as_modelled(logs, files, calls, cut, replies, i);
        session_is_answered_as_modelled(other_logs, other_files, calls, cut, other_replies, i);
    }
    assert forall|i: int| 0 <= i < logs.len() implies (#[trigger] logs[i]).count()
        == other_logs[i].count() && logs[i].end() == other_logs[i].end() by {
        session_is_answered_as_modelled(logs, files, calls, cut, replies, i);
        session_is_answered_as_modelled(other_logs, other_files, calls, cut, other_replies, i);
    }
}

/// Two logs that know the same of the same bytes, each with true offsets in its cache, give the
/// same answer to a call, and know the same afterwards.
pub proof fn caches_are_not_seen_in_a_call(
    log: BincodeLogFile,
    other: BincodeLogFile,
    file: Seq<u8>,
    call: LogCall,
    cut: spec_fn(Seq<u8>) -> bool,
    after: BincodeLogFile,
    file_after: Seq<u8>,
    reply: LogReply,
    other_after: BincodeLogFile,
    other_file_after: Seq<u8>,
    other_reply: LogReply,
)
    requires
        log.serves(file),
        log.caches(file),
        other.serves(file),
        other.caches(file),
        log.count() == other.count(),
        log.end() == other.end(),
        answers(log, file, call, cut, after, file_after, reply),
        answers(other, file, call, cut, other_after, other_file_after, other_reply),
        file_after.len() <= i64::MAX,
        other_file_after.len() <= i64::MAX,
    ensures
        reply == other_reply,
        file_after == other_file_after,
        after.serves(file_after),
        after.caches(file_after),
        other_after.serves(file_after),
        other_after.caches(file_after),
        after.count() == other_after.count(),
        after.end() == other_after.end(),
{
    let model = LogModel { count: log.count() as int, end: log.end() as int, file };
    call_is_answered_as_modelled(log, model, call, cut, after, file_after, reply);
    call_is_answered_as_modelled(
        other,
        model,
        call,
        cut,
        other_after,
        other_file_after,
        other_reply,
    );
}

}
