//! What the appender asks of the file system, and what it is told back.

use crate::datetime::LocalDateTime;
use vstd::prelude::*;

verus! {

/// Why an operation failed.
#[derive(Clone, Copy, Debug, PartialEq, Eq, Structural)]
pub enum Failure {
    /// The file system refused the step reported last.
    Io,
    /// A write found no file open after the step that should have opened one.
    WriterMissing,
}

/// How an operation ended.
#[derive(Clone, Copy, Debug, PartialEq, Eq, Structural)]
pub enum Outcome {
    /// The operation is complete.
    Done,
    /// The bytes were written; their number.
    Written(usize),
    /// The operation was given up.
    Failed(Failure),
}

/// The next thing to do on the file system.
#[derive(Debug, PartialEq, Eq)]
pub enum Action {
    /// Flush the buffer of the open file.
    Flush,
    /// Close the open file. The file stays on disk.
    Close,
    /// Open `file_name` in the folder for appending, creating it if it is
    /// missing and never truncating it, and report its present size.
    Open { file_name: String, buffer_capacity: Option<usize> },
    /// Make the entry `pointer` of the folder refer to the file `target`,
    /// replacing any earlier pointer.
    Link { pointer: String, target: String },
    /// List the names of the folder's entries.
    List,
    /// Delete these files of the folder, each on its own.
    Remove { file_names: Vec<String> },
    /// Write the caller's bytes to the open file.
    Append,
    /// Nothing is left to do: hand `outcome` to the caller.
    Finish { outcome: Outcome },
}

/// An [`Action`] with its texts as sequences of characters.
pub enum ActionView {
    Flush,
    Close,
    Open { file_name: Seq<char>, buffer_capacity: Option<usize> },
    Link { pointer: Seq<char>, target: Seq<char> },
    List,
    Remove { file_names: Seq<Seq<char>> },
    Append,
    Finish { outcome: Outcome },
}

impl View for Action {
    type V = ActionView;

    open spec fn view(&self) -> ActionView {
        match self {
            Action::Flush => ActionView::Flush,
            Action::Close => ActionView::Close,
            Action::Open { file_name, buffer_capacity } => ActionView::Open {
                file_name: file_name@,
                buffer_capacity: *buffer_capacity,
            },
            Action::Link { pointer, target } => ActionView::Link {
                pointer: pointer@,
                target: target@,
            },
            Action::List => ActionView::List,
            Action::Remove { file_names } => ActionView::Remove {
                file_names: file_names.deep_view(),
            },
            Action::Append => ActionView::Append,
            Action::Finish { outcome } => ActionView::Finish { outcome: *outcome },
        }
    }
}

/// How the last [`Action`] went.
#[derive(Debug, PartialEq, Eq)]
pub enum Event {
    /// The action was carried out.
    Completed,
    /// The file was opened; `size` is what it held already.
    Opened { size: u64 },
    /// The folder was listed; the names of its entries.
    Listed { names: Vec<String> },
    /// The file system refused the action.
    Failed,
    /// The action needs an open file and there is none.
    NotOpen,
}

/// An [`Event`] with its texts as sequences of characters.
pub enum EventView {
    Completed,
    Opened { size: u64 },
    Listed { names: Seq<Seq<char>> },
    Failed,
    NotOpen,
}

impl View for Event {
    type V = EventView;

    open spec fn view(&self) -> EventView {
        match self {
            Event::Completed => EventView::Completed,
            Event::Opened { size } => EventView::Opened { size: *size },
            Event::Listed { names } => EventView::Listed { names: names.deep_view() },
            Event::Failed => EventView::Failed,
            Event::NotOpen => EventView::NotOpen,
        }
    }
}

/// What a sequence of steps is for.
#[derive(Clone, Copy, Debug, PartialEq, Eq, Structural)]
pub enum Purpose {
    /// Opening a file because none is open.
    Open,
    /// A rollover that the caller asked for.
    Rollover,
    /// A write of `len` bytes. While `rolling`, the steps belong to the
    /// rollover that the condition asked for, and a refusal is passed over.
    Write { len: usize, rolling: bool },
}

/// A purpose and the date-time it works with.
#[derive(Clone, Copy, Debug, PartialEq, Eq, Structural)]
pub struct Task {
    pub purpose: Purpose,
    pub now: LocalDateTime,
}

/// The step of a task whose reply is awaited.
#[derive(Clone, Copy, Debug, PartialEq, Eq, Structural)]
pub enum Stage {
    Flush,
    Close,
    Open,
    Link,
    List,
    Remove,
    Append,
}

/// What the appender waits for.
#[derive(Clone, Copy, Debug, PartialEq, Eq, Structural)]
pub enum Pending {
    /// Nothing: no operation is under way.
    Idle,
    /// The reply to the flush that the caller asked for.
    Flush,
    /// The reply to a step of a task.
    Step { task: Task, stage: Stage },
}

} // verus!
