//! The rolling file appender: what to do next, step by step.

use crate::condition::{RollingCondition, RollingConditionBasic};
use crate::datetime::{is_civil, LocalDateTime};
use crate::machine::{
    created, finished, flush_begun, open_begun, open_started, refused, replied, rollover_begun,
    rollover_started, secured, step_replied, write_begun, write_resumed, write_starts,
    AppenderState,
};
use crate::naming::{file_name, new_file_name};
use crate::protocol::{Action, Event, Failure, Outcome, Pending, Purpose, Stage, Task};
use crate::retention::{files_to_remove, log_files_to_remove};
use vstd::prelude::*;
use vstd::string::*;

verus! {

/// Writes data to a file, and "rolls over" to preserve older data in a
/// separate set of files, each named after the prefix and the date-time at
/// which it was opened. At most `max_files` of them are kept.
///
/// The appender decides and keeps count; whoever drives it carries out each
/// [`Action`] and reports back with [`RollingFileAppender::advance`] until
/// the action is [`Action::Finish`]. Starting an operation while another
/// waits for a reply gives the other up.
#[derive(Debug)]
pub struct RollingFileAppender<RC> where RC: RollingCondition {
    condition: RC,
    folder: String,
    prefix: String,
    max_files: usize,
    buffer_capacity: Option<usize>,
    current_filesize: u64,
    writer_open: bool,
    pending: Pending,
}

impl<RC> View for RollingFileAppender<RC> where RC: RollingCondition {
    type V = AppenderState<RC>;

    closed spec fn view(&self) -> AppenderState<RC> {
        AppenderState {
            condition: self.condition,
            folder: self.folder@,
            prefix: self.prefix@,
            max_files: self.max_files,
            buffer_capacity: self.buffer_capacity,
            current_filesize: self.current_filesize,
            open: self.writer_open,
            pending: self.pending,
        }
    }
}

impl<RC> RollingFileAppender<RC> where RC: RollingCondition {
    /// Creates a new rolling file appender with the given condition, and asks
    /// for the file of the present moment to be opened. The folder must
    /// already exist.
    pub fn new(folder: &str, prefix: &str, condition: RC, max_files: usize) -> (made: (
        RollingFileAppender<RC>,
        Action,
    ))
        ensures
            exists|now: LocalDateTime|
                is_civil(now@) && (made.0@, made.1@) == #[trigger] created(
                    folder@,
                    prefix@,
                    condition,
                    max_files,
                    None,
                    now,
                ),
    {
        Self::_new(folder, prefix, condition, max_files, None)
    }

    /// Creates a new rolling file appender with the given condition and write
    /// buffer capacity, and asks for the file of the present moment to be
    /// opened. The folder must already exist.
    pub fn new_with_buffer_capacity(
        folder: &str,
        prefix: &str,
        condition: RC,
        max_files: usize,
        buffer_capacity: usize,
    ) -> (made: (RollingFileAppender<RC>, Action))
        ensures
            exists|now: LocalDateTime|
                is_civil(now@) && (made.0@, made.1@) == #[trigger] created(
                    folder@,
                    prefix@,
                    condition,
                    max_files,
                    Some(buffer_capacity),
                    now,
                ),
    {
        Self::_new(folder, prefix, condition, max_files, Some(buffer_capacity))
    }

    fn _new(
        folder: &str,
        prefix: &str,
        condition: RC,
        max_files: usize,
        buffer_capacity: Option<usize>,
    ) -> (made: (RollingFileAppender<RC>, Action))
        ensures
            exists|now: LocalDateTime|
                is_civil(now@) && (made.0@, made.1@) == #[trigger] created(
                    folder@,
                    prefix@,
                    condition,
                    max_files,
                    buffer_capacity,
                    now,
                ),
    {
        let now = LocalDateTime::now();
        Self::new_with_datetime(folder, prefix, condition, max_files, buffer_capacity, &now)
    }

    /// Creates a new rolling file appender as of `now`, and asks for the file
    /// of `now` to be opened.
    pub fn new_with_datetime(
        folder: &str,
        prefix: &str,
        condition: RC,
        max_files: usize,
        buffer_capacity: Option<usize>,
        now: &LocalDateTime,
    ) -> (made: (RollingFileAppender<RC>, Action))
        ensures
            (made.0@, made.1@) == created(
                folder@,
                prefix@,
                condition,
                max_files,
                buffer_capacity,
                *now,
            ),
    {
        let folder = String::from_str(folder);
        let prefix = String::from_str(prefix);
        let mut rfa = RollingFileAppender {
            condition,
            folder,
            prefix,
            max_files,
            buffer_capacity,
            current_filesize: 0,
            writer_open: false,
            pending: Pending::Idle,
        };
        let first = rfa.open_writer_if_needed(now);
        (rfa, first)
    }

    fn finish(&mut self, outcome: Outcome) -> (action: Action)
        ensures
            (final(self)@, action@) == finished(old(self)@, outcome),
    {
        self.pending = Pending::Idle;
        Action::Finish { outcome }
    }

    fn start_open(&mut self, task: Task) -> (action: Action)
        ensures
            (final(self)@, action@) == open_started(old(self)@, task),
    {
        self.pending = Pending::Step { task, stage: Stage::Open };
        Action::Open {
            file_name: self.new_file_name(&task.now),
            buffer_capacity: self.buffer_capacity,
        }
    }

    fn start_rollover(&mut self, task: Task) -> (action: Action)
        ensures
            (final(self)@, action@) == rollover_started(old(self)@, task),
    {
        if self.writer_open {
            self.pending = Pending::Step { task, stage: Stage::Flush };
            Action::Flush
        } else {
            self.current_filesize = 0;
            self.start_open(task)
        }
    }

    fn resume_write(&mut self, len: usize, now: LocalDateTime) -> (action: Action)
        ensures
            (final(self)@, action@) == write_resumed(old(self)@, len, now),
    {
        let task = Task { purpose: Purpose::Write { len, rolling: false }, now };
        if self.writer_open {
            self.pending = Pending::Step { task, stage: Stage::Append };
            Action::Append
        } else {
            self.start_open(task)
        }
    }

    fn give_way(&mut self, task: Task) -> (action: Action)
        ensures
            (final(self)@, action@) == refused(old(self)@, task),
    {
        match task.purpose {
            Purpose::Write { len, rolling: true } => self.resume_write(len, task.now),
            _ => self.finish(Outcome::Failed(Failure::Io)),
        }
    }

    fn carry_on(&mut self, task: Task) -> (action: Action)
        ensures
            (final(self)@, action@) == secured(old(self)@, task),
    {
        match task.purpose {
            Purpose::Write { len, rolling: _ } => self.resume_write(len, task.now),
            _ => self.finish(Outcome::Done),
        }
    }

    /// Asks for the file of `now` to be opened, unless a file is open.
    pub fn open_writer_if_needed(&mut self, now: &LocalDateTime) -> (action: Action)
        ensures
            (final(self)@, action@) == open_begun(old(self)@, *now),
    {
        if !self.writer_open {
            self.start_open(Task { purpose: Purpose::Open, now: *now })
        } else {
            self.finish(Outcome::Done)
        }
    }

    /// Forces a rollover to happen immediately: the open file is flushed and
    /// closed, the size starts again at zero and the file of `now` is opened.
    pub fn rollover(&mut self, now: &LocalDateTime) -> (action: Action)
        ensures
            (final(self)@, action@) == rollover_begun(old(self)@, *now),
    {
        self.start_rollover(Task { purpose: Purpose::Rollover, now: *now })
    }

    /// Returns a reference to the rolling condition.
    pub fn condition_ref(&self) -> (condition: &RC)
        ensures
            *condition == self@.condition,
    {
        &self.condition
    }

    /// Returns a mutable reference to the rolling condition, possibly to
    /// mutate its state dynamically.
    pub fn condition_mut(&mut self) -> (condition: &mut RC)
        ensures
            *condition == old(self)@.condition,
            final(self)@ == (AppenderState { condition: *final(condition), ..old(self)@ }),
    {
        &mut self.condition
    }

    /// The folder of the files.
    pub fn folder(&self) -> (folder: &str)
        ensures
            folder@ == self@.folder,
    {
        self.folder.as_str()
    }

    /// What every file name begins with, and the name of the pointer.
    pub fn prefix(&self) -> (prefix: &str)
        ensures
            prefix@ == self@.prefix,
    {
        self.prefix.as_str()
    }

    /// How many files are kept.
    pub fn max_files(&self) -> (max_files: usize)
        ensures
            max_files == self@.max_files,
    {
        self.max_files
    }

    /// The size of the write buffer, where the caller chose one.
    pub fn buffer_capacity(&self) -> (buffer_capacity: Option<usize>)
        ensures
            buffer_capacity == self@.buffer_capacity,
    {
        self.buffer_capacity
    }

    /// Bytes in the open file, as far as the appender has counted.
    pub fn current_filesize(&self) -> (size: u64)
        ensures
            size == self@.current_filesize,
    {
        self.current_filesize
    }

    /// Whether a file is open.
    pub fn is_open(&self) -> (open: bool)
        ensures
            open == self@.open,
    {
        self.writer_open
    }

    /// Whether an operation is under way, waiting for a reply.
    pub fn is_busy(&self) -> (busy: bool)
        ensures
            busy == (self@.pending != Pending::Idle),
    {
        match self.pending {
            Pending::Idle => false,
            _ => true,
        }
    }

    /// Picks from a listing of the folder the files to delete: those of the
    /// prefix beyond the `max_files` newest.
    pub fn check_and_remove_log_file(&self, names: &Vec<String>) -> (doomed: Vec<String>)
        ensures
            doomed.deep_view() == files_to_remove(
                names.deep_view(),
                self@.prefix,
                self@.max_files as nat,
            ),
    {
        log_files_to_remove(names, self.prefix.as_str(), self.max_files)
    }

    /// The name of the file that is opened at `now`.
    pub fn new_file_name(&self, now: &LocalDateTime) -> (name: String)
        ensures
            name@ == file_name(self@.prefix, now@),
    {
        new_file_name(self.prefix.as_str(), now)
    }

    /// Starts a write of `len` bytes at `now`, the condition having answered
    /// `due`: a rollover first if it is due, then the write.
    pub fn write_once_decided(&mut self, due: bool, len: usize, now: &LocalDateTime) -> (action:
        Action)
        ensures
            (final(self)@, action@) == write_begun(old(self)@, due, len, *now),
    {
        if due {
            self.start_rollover(
                Task { purpose: Purpose::Write { len, rolling: true }, now: *now },
            )
        } else {
            self.resume_write(len, *now)
        }
    }

    /// Writes data using the given datetime to calculate the rolling
    /// condition.
    pub fn write_with_datetime(&mut self, buf: &[u8], now: &LocalDateTime) -> (action: Action)
        ensures
            write_starts(old(self)@, buf@.len() as usize, *now, final(self)@, action@),
    {
        let size = self.current_filesize;
        let due = self.condition.should_rollover(now, size);
        let ghost decided = self@;
        let action = self.write_once_decided(due, buf.len(), now);
        proof {
            assert(decided == AppenderState { condition: self@.condition, ..old(self)@ });
            assert(old(self)@.condition.may_decide(
                now@,
                old(self)@.current_filesize,
                due,
                &self@.condition,
            ));
        }
        action
    }

    /// Writes data, using the local clock to calculate the rolling condition.
    pub fn write(&mut self, buf: &[u8]) -> (action: Action)
        ensures
            exists|now: LocalDateTime|
                is_civil(now@) && #[trigger] write_starts(
                    old(self)@,
                    buf@.len() as usize,
                    now,
                    final(self)@,
                    action@,
                ),
    {
        let now = LocalDateTime::now();
        self.write_with_datetime(buf, &now)
    }

    /// Flushes the open file. With no file open there is nothing to do.
    pub fn flush(&mut self) -> (action: Action)
        ensures
            (final(self)@, action@) == flush_begun(old(self)@),
    {
        if self.writer_open {
            self.pending = Pending::Flush;
            Action::Flush
        } else {
            self.finish(Outcome::Done)
        }
    }

    fn step(&mut self, task: Task, stage: Stage, event: Event) -> (action: Action)
        ensures
            (final(self)@, action@) == step_replied(old(self)@, task, stage, event@),
    {
        match stage {
            Stage::Flush => match event {
                Event::Completed | Event::NotOpen => {
                    self.pending = Pending::Step { task, stage: Stage::Close };
                    Action::Close
                },
                _ => self.give_way(task),
            },
            Stage::Close => {
                self.writer_open = false;
                self.current_filesize = 0;
                self.start_open(task)
            },
            Stage::Open => match event {
                Event::Opened { size } => {
                    self.writer_open = true;
                    self.current_filesize = size;
                    self.pending = Pending::Step { task, stage: Stage::Link };
                    Action::Link {
                        pointer: self.prefix.clone(),
                        target: self.new_file_name(&task.now),
                    }
                },
                _ => self.give_way(task),
            },
            Stage::Link => {
                self.pending = Pending::Step { task, stage: Stage::List };
                Action::List
            },
            Stage::List => match event {
                Event::Listed { names } => {
                    let doomed = self.check_and_remove_log_file(&names);
                    if doomed.len() > 0 {
                        self.pending = Pending::Step { task, stage: Stage::Remove };
                        Action::Remove { file_names: doomed }
                    } else {
                        self.carry_on(task)
                    }
                },
                _ => self.give_way(task),
            },
            Stage::Remove => self.carry_on(task),
            Stage::Append => match event {
                Event::Completed => match task.purpose {
                    Purpose::Write { len, rolling: _ } => {
                        self.current_filesize = self.current_filesize.saturating_add(len as u64);
                        self.finish(Outcome::Written(len))
                    },
                    _ => self.finish(Outcome::Done),
                },
                Event::NotOpen => {
                    self.writer_open = false;
                    self.finish(Outcome::Failed(Failure::WriterMissing))
                },
                _ => self.finish(Outcome::Failed(Failure::Io)),
            },
        }
    }

    /// Takes the reply to the last action and says what to do next.
    pub fn advance(&mut self, event: Event) -> (action: Action)
        ensures
            (final(self)@, action@) == replied(old(self)@, event@),
    {
        match self.pending {
            Pending::Idle => self.finish(Outcome::Done),
            Pending::Flush => match event {
                Event::Completed => self.finish(Outcome::Done),
                Event::NotOpen => {
                    self.writer_open = false;
                    self.finish(Outcome::Done)
                },
                _ => self.finish(Outcome::Failed(Failure::Io)),
            },
            Pending::Step { task, stage } => self.step(task, stage, event),
        }
    }
}

/// A rolling file appender with a rolling condition based on date/time or size.
pub type BasicRollingFileAppender = RollingFileAppender<RollingConditionBasic>;

} // verus!
