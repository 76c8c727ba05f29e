//! The appender as a machine of plain values: its states, what each
//! operation and each reply leads to, and what follows from that.

use crate::condition::{RollingCondition, RollingConditionBasic};
use crate::datetime::LocalDateTime;
use crate::frequency::same_bucket;
use crate::naming::file_name;
use crate::protocol::{ActionView, EventView, Failure, Outcome, Pending, Purpose, Stage, Task};
use crate::retention::{
    after_pruning, files_to_remove, lemma_pruning_keeps_newest, lemma_pruning_leaves_the_cap,
    log_files,
};
use vstd::prelude::*;

verus! {

/// What a rolling file appender holds.
pub struct AppenderState<RC> {
    /// The rolling condition.
    pub condition: RC,
    /// The folder of the files.
    pub folder: Seq<char>,
    /// What every file name begins with, and the name of the pointer.
    pub prefix: Seq<char>,
    /// How many files are kept.
    pub max_files: usize,
    /// The size of the write buffer, where the caller chose one.
    pub buffer_capacity: Option<usize>,
    /// Bytes in the open file.
    pub current_filesize: u64,
    /// Whether a file is open.
    pub open: bool,
    /// The reply awaited.
    pub pending: Pending,
}

/// A size after `len` more bytes: the sum, or the largest number there is.
pub open spec fn grown(size: u64, len: usize) -> u64 {
    if size + len > u64::MAX {
        u64::MAX
    } else {
        (size + len) as u64
    }
}

/// The operation ends with `outcome`.
pub open spec fn finished<RC>(s: AppenderState<RC>, outcome: Outcome) -> (
    AppenderState<RC>,
    ActionView,
) {
    (AppenderState { pending: Pending::Idle, ..s }, ActionView::Finish { outcome })
}

/// The task goes on with `action`, at `stage`.
pub open spec fn asked<RC>(s: AppenderState<RC>, task: Task, stage: Stage, action: ActionView) -> (
    AppenderState<RC>,
    ActionView,
) {
    (AppenderState { pending: Pending::Step { task, stage }, ..s }, action)
}

/// The task asks for the file of its date-time to be opened.
pub open spec fn open_started<RC>(s: AppenderState<RC>, task: Task) -> (
    AppenderState<RC>,
    ActionView,
) {
    asked(
        s,
        task,
        Stage::Open,
        ActionView::Open {
            file_name: file_name(s.prefix, task.now@),
            buffer_capacity: s.buffer_capacity,
        },
    )
}

/// A rollover starts: an open file is flushed first, then closed; with no
/// file open the size is reset and the next file is opened at once.
pub open spec fn rollover_started<RC>(s: AppenderState<RC>, task: Task) -> (
    AppenderState<RC>,
    ActionView,
) {
    if s.open {
        asked(s, task, Stage::Flush, ActionView::Flush)
    } else {
        open_started(AppenderState { current_filesize: 0, ..s }, task)
    }
}

/// A write, with any rollover behind it, makes sure that a file is open and
/// then appends.
pub open spec fn write_resumed<RC>(s: AppenderState<RC>, len: usize, now: LocalDateTime) -> (
    AppenderState<RC>,
    ActionView,
) {
    let task = Task { purpose: Purpose::Write { len, rolling: false }, now };
    if s.open {
        asked(s, task, Stage::Append, ActionView::Append)
    } else {
        open_started(s, task)
    }
}

/// A write of `len` bytes starts, the condition having answered `due`.
pub open spec fn write_begun<RC>(s: AppenderState<RC>, due: bool, len: usize, now: LocalDateTime) -> (
    AppenderState<RC>,
    ActionView,
) {
    if due {
        rollover_started(s, Task { purpose: Purpose::Write { len, rolling: true }, now })
    } else {
        write_resumed(s, len, now)
    }
}

/// A file is opened for `now` unless one is open.
pub open spec fn open_begun<RC>(s: AppenderState<RC>, now: LocalDateTime) -> (
    AppenderState<RC>,
    ActionView,
) {
    if s.open {
        finished(s, Outcome::Done)
    } else {
        open_started(s, Task { purpose: Purpose::Open, now })
    }
}

/// A rollover that the caller asked for starts.
pub open spec fn rollover_begun<RC>(s: AppenderState<RC>, now: LocalDateTime) -> (
    AppenderState<RC>,
    ActionView,
) {
    rollover_started(s, Task { purpose: Purpose::Rollover, now })
}

/// A flush starts: with no file open there is nothing to do.
pub open spec fn flush_begun<RC>(s: AppenderState<RC>) -> (AppenderState<RC>, ActionView) {
    if s.open {
        (AppenderState { pending: Pending::Flush, ..s }, ActionView::Flush)
    } else {
        finished(s, Outcome::Done)
    }
}

/// A new appender, which at once asks for its first file.
pub open spec fn created<RC>(
    folder: Seq<char>,
    prefix: Seq<char>,
    condition: RC,
    max_files: usize,
    buffer_capacity: Option<usize>,
    now: LocalDateTime,
) -> (AppenderState<RC>, ActionView) {
    open_begun(
        AppenderState {
            condition,
            folder,
            prefix,
            max_files,
            buffer_capacity,
            current_filesize: 0,
            open: false,
            pending: Pending::Idle,
        },
        now,
    )
}

/// The file system refused a step. Within the rollover of a write this is
/// passed over and the write goes on; anywhere else the operation fails.
pub open spec fn refused<RC>(s: AppenderState<RC>, task: Task) -> (AppenderState<RC>, ActionView) {
    match task.purpose {
        Purpose::Write { len, rolling: true } => write_resumed(s, len, task.now),
        _ => finished(s, Outcome::Failed(Failure::Io)),
    }
}

/// A file is open, the pointer set and the old files gone: a write goes on,
/// anything else is complete.
pub open spec fn secured<RC>(s: AppenderState<RC>, task: Task) -> (AppenderState<RC>, ActionView) {
    match task.purpose {
        Purpose::Write { len, rolling } => write_resumed(s, len, task.now),
        _ => finished(s, Outcome::Done),
    }
}

/// The reply to a step of `task` at `stage`.
pub open spec fn step_replied<RC>(
    s: AppenderState<RC>,
    task: Task,
    stage: Stage,
    event: EventView,
) -> (AppenderState<RC>, ActionView) {
    match stage {
        Stage::Flush => match event {
            EventView::Completed | EventView::NotOpen => asked(
                s,
                task,
                Stage::Close,
                ActionView::Close,
            ),
            _ => refused(s, task),
        },
        Stage::Close => open_started(
            AppenderState { open: false, current_filesize: 0, ..s },
            task,
        ),
        Stage::Open => match event {
            EventView::Opened { size } => asked(
                AppenderState { open: true, current_filesize: size, ..s },
                task,
                Stage::Link,
                ActionView::Link { pointer: s.prefix, target: file_name(s.prefix, task.now@) },
            ),
            _ => refused(s, task),
        },
        Stage::Link => asked(s, task, Stage::List, ActionView::List),
        Stage::List => match event {
            EventView::Listed { names } => {
                let doomed = files_to_remove(names, s.prefix, s.max_files as nat);
                if doomed.len() > 0 {
                    asked(s, task, Stage::Remove, ActionView::Remove { file_names: doomed })
                } else {
                    secured(s, task)
                }
            },
            _ => refused(s, task),
        },
        Stage::Remove => secured(s, task),
        Stage::Append => match event {
            EventView::Completed => match task.purpose {
                Purpose::Write { len, rolling } => finished(
                    AppenderState { current_filesize: grown(s.current_filesize, len), ..s },
                    Outcome::Written(len),
                ),
                _ => finished(s, Outcome::Done),
            },
            EventView::NotOpen => finished(
                AppenderState { open: false, ..s },
                Outcome::Failed(Failure::WriterMissing),
            ),
            _ => finished(s, Outcome::Failed(Failure::Io)),
        },
    }
}

/// The state after `event`, and the next action.
pub open spec fn replied<RC>(s: AppenderState<RC>, event: EventView) -> (
    AppenderState<RC>,
    ActionView,
) {
    match s.pending {
        Pending::Idle => finished(s, Outcome::Done),
        Pending::Flush => match event {
            EventView::Completed => finished(s, Outcome::Done),
            EventView::NotOpen => finished(AppenderState { open: false, ..s }, Outcome::Done),
            _ => finished(s, Outcome::Failed(Failure::Io)),
        },
        Pending::Step { task, stage } => step_replied(s, task, stage, event),
    }
}

/// A write of `len` bytes at `now` leads from `pre` to `post` and `action`:
/// the condition is evaluated once, on `now` and the size of the open file,
/// and the write starts on its answer.
pub open spec fn write_starts<RC: RollingCondition>(
    pre: AppenderState<RC>,
    len: usize,
    now: LocalDateTime,
    post: AppenderState<RC>,
    action: ActionView,
) -> bool {
    exists|due: bool|
        {
            &&& #[trigger] pre.condition.may_decide(
                now@,
                pre.current_filesize,
                due,
                &post.condition,
            )
            &&& (post, action) == write_begun(
                AppenderState { condition: post.condition, ..pre },
                due,
                len,
                now,
            )
        }
}

/// The pointer follows the file opened last: once the file that was asked
/// for is open, the next action points the entry named after the prefix at
/// that very file, and the size starts from what the file held.
pub proof fn lemma_pointer_follows_open<RC>(s: AppenderState<RC>, task: Task, size: u64)
    ensures
        open_started(s, task).1 == (ActionView::Open {
            file_name: file_name(s.prefix, task.now@),
            buffer_capacity: s.buffer_capacity,
        }),
        replied(open_started(s, task).0, EventView::Opened { size }).1 == (ActionView::Link {
            pointer: s.prefix,
            target: file_name(s.prefix, task.now@),
        }),
        replied(open_started(s, task).0, EventView::Opened { size }).0.open,
        replied(open_started(s, task).0, EventView::Opened { size }).0.current_filesize == size,
{
}

/// Every listing is pruned to the cap: the files handed out for deletion are
/// those beyond the `max_files` newest, no deletion is asked for where
/// nothing is beyond them, and with them gone no more than `max_files` files
/// of the prefix are left.
pub proof fn lemma_listing_is_pruned_to_the_cap<RC>(
    s: AppenderState<RC>,
    task: Task,
    names: Seq<Seq<char>>,
)
    requires
        names.no_duplicates(),
    ensures
        ({
            let doomed = files_to_remove(names, s.prefix, s.max_files as nat);
            let next = step_replied(s, task, Stage::List, EventView::Listed { names }).1;
            &&& doomed.len() > 0 ==> next == (ActionView::Remove { file_names: doomed })
            &&& doomed.len() == 0 ==> !(next is Remove) && log_files(names, s.prefix).len()
                <= s.max_files
            &&& log_files(after_pruning(names, s.prefix, s.max_files as nat), s.prefix).len()
                <= s.max_files
        }),
{
    lemma_pruning_leaves_the_cap(names, s.prefix, s.max_files as nat);
    lemma_pruning_keeps_newest(names, s.prefix, s.max_files as nat);
}

/// A write with no rollover due appends once to the open file, and the size
/// grows by its bytes, stopping at the largest number there is; a refused
/// append leaves the size as it was.
pub proof fn lemma_write_counts_its_bytes<RC>(s: AppenderState<RC>, len: usize, now: LocalDateTime)
    requires
        s.open,
    ensures
        write_begun(s, false, len, now).1 == ActionView::Append,
        replied(write_begun(s, false, len, now).0, EventView::Completed) == finished(
            AppenderState { current_filesize: grown(s.current_filesize, len), ..s },
            Outcome::Written(len),
        ),
        replied(write_begun(s, false, len, now).0, EventView::Failed) == finished(
            s,
            Outcome::Failed(Failure::Io),
        ),
        s.current_filesize + len <= u64::MAX ==> grown(s.current_filesize, len)
            == s.current_filesize + len,
        s.current_filesize + len > u64::MAX ==> grown(s.current_filesize, len) == u64::MAX,
{
}

/// Flushing with no file open succeeds at once and changes nothing, however
/// often it is done.
pub proof fn lemma_flush_without_file<RC>(s: AppenderState<RC>)
    requires
        !s.open,
    ensures
        flush_begun(s).1 == (ActionView::Finish { outcome: Outcome::Done }),
        s.pending == Pending::Idle ==> flush_begun(s).0 == s,
        flush_begun(flush_begun(s).0) == flush_begun(s),
{
}

/// Flushing an open file asks for one flush and ends as the flush did.
pub proof fn lemma_flush_of_open_file<RC>(s: AppenderState<RC>)
    requires
        s.open,
    ensures
        flush_begun(s).1 == ActionView::Flush,
        replied(flush_begun(s).0, EventView::Completed) == finished(s, Outcome::Done),
        replied(flush_begun(s).0, EventView::Failed) == finished(
            s,
            Outcome::Failed(Failure::Io),
        ),
{
}

/// A rollover that the caller asked for: flush, close, open, in that order,
/// with the size reset on closing; a refused flush ends it with the file
/// still open and its size unchanged.
pub proof fn lemma_rollover_sequence<RC>(s: AppenderState<RC>, now: LocalDateTime)
    requires
        s.open,
    ensures
        ({
            let (s1, a1) = rollover_begun(s, now);
            let (s2, a2) = replied(s1, EventView::Completed);
            let (s3, a3) = replied(s2, EventView::Completed);
            let (s4, a4) = replied(s3, EventView::Failed);
            let (r, b) = replied(s1, EventView::Failed);
            &&& a1 == ActionView::Flush
            &&& a2 == ActionView::Close
            &&& a3 == (ActionView::Open {
                file_name: file_name(s.prefix, now@),
                buffer_capacity: s.buffer_capacity,
            })
            &&& !s3.open && s3.current_filesize == 0
            &&& a4 == (ActionView::Finish { outcome: Outcome::Failed(Failure::Io) })
            &&& !s4.open
            &&& b == (ActionView::Finish { outcome: Outcome::Failed(Failure::Io) })
            &&& r == (AppenderState { pending: Pending::Idle, ..s })
        }),
{
}

/// A write whose rollover is refused still writes: after a refused flush the
/// bytes go to the file that is open, and after a refused open the file is
/// asked for once more, a second refusal ending the write.
pub proof fn lemma_write_outlives_failed_rollover<RC>(
    s: AppenderState<RC>,
    len: usize,
    now: LocalDateTime,
)
    requires
        s.open,
    ensures
        ({
            let (s1, a1) = write_begun(s, true, len, now);
            let (s2, a2) = replied(s1, EventView::Failed);
            let (t2, b2) = replied(s1, EventView::Completed);
            let (t3, b3) = replied(t2, EventView::Completed);
            let (t4, b4) = replied(t3, EventView::Failed);
            let (t5, b5) = replied(t4, EventView::Failed);
            &&& a1 == ActionView::Flush
            &&& a2 == ActionView::Append
            &&& s2.current_filesize == s.current_filesize
            &&& b2 == ActionView::Close
            &&& b3 is Open
            &&& b4 == b3
            &&& b5 == (ActionView::Finish { outcome: Outcome::Failed(Failure::Io) })
        }),
{
}

/// Two writes in one bucket, below the size limit, go to one file: each is
/// appended with no step in between, and the file has grown by both.
pub proof fn lemma_two_writes_one_file(
    s: AppenderState<RollingConditionBasic>,
    len1: usize,
    now1: LocalDateTime,
    s1: AppenderState<RollingConditionBasic>,
    a1: ActionView,
    len2: usize,
    now2: LocalDateTime,
    s3: AppenderState<RollingConditionBasic>,
    a3: ActionView,
)
    requires
        s.open,
        s.condition@.frequency is Some && s.condition@.last_write is Some ==> same_bucket(
            s.condition@.frequency->0,
            now1@,
            s.condition@.last_write->0,
        ),
        s.condition@.frequency is Some ==> same_bucket(s.condition@.frequency->0, now2@, now1@),
        s.condition@.max_size is Some ==> s.current_filesize + len1 < s.condition@.max_size->0,
        s.current_filesize + len1 + len2 <= u64::MAX,
        write_starts(s, len1, now1, s1, a1),
        write_starts(replied(s1, EventView::Completed).0, len2, now2, s3, a3),
    ensures
        a1 == ActionView::Append,
        replied(s1, EventView::Completed).1 == (ActionView::Finish {
            outcome: Outcome::Written(len1),
        }),
        a3 == ActionView::Append,
        replied(s3, EventView::Completed).1 == (ActionView::Finish {
            outcome: Outcome::Written(len2),
        }),
        replied(s3, EventView::Completed).0.open,
        replied(s3, EventView::Completed).0.current_filesize == s.current_filesize + len1 + len2,
{
}

/// How many replies an operation can still take before it ends.
pub open spec fn steps_left<RC>(s: AppenderState<RC>) -> nat {
    match s.pending {
        Pending::Idle => 0,
        Pending::Flush => 1,
        Pending::Step { task, stage } => {
            let after_open: nat = if s.open {
                0
            } else {
                7
            };
            let own: nat = match stage {
                Stage::Flush => 8,
                Stage::Close => 7,
                Stage::Open => 6,
                Stage::Link => 5 + after_open,
                Stage::List => 4 + after_open,
                Stage::Remove => 3 + after_open,
                Stage::Append => 1,
            };
            match task.purpose {
                Purpose::Write { len, rolling: true } => own + 13,
                _ => own,
            }
        },
    }
}

/// Every operation ends: an action other than `Finish` leaves the appender
/// waiting, `Finish` leaves it idle, and each reply brings the end nearer.
pub proof fn lemma_every_reply_brings_the_end_nearer<RC>(s: AppenderState<RC>, event: EventView)
    ensures
        replied(s, event).1 is Finish <==> replied(s, event).0.pending == Pending::Idle,
        s.pending != Pending::Idle ==> steps_left(replied(s, event).0) < steps_left(s),
        steps_left(s) <= 28,
{
}

} // verus!
