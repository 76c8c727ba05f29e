//! Rolling conditions: when to move on to a new file.

use crate::datetime::{Civil, LocalDateTime};
use crate::frequency::{lemma_same_bucket_same_start, same_bucket, RollingFrequency};
use vstd::prelude::*;

verus! {

/// Determines when a file should be "rolled over".
///
/// An evaluation both answers and moves the condition to its next state.
/// An implementation may say in `may_decide` which answers and next states
/// an evaluation can produce; left as it is, it promises nothing.
pub trait RollingCondition: Sized {
    /// Whether an evaluation at `now`, with a file of `current_filesize`
    /// bytes, may answer `due` and leave the condition as `next`.
    open spec fn may_decide(
        &self,
        now: Civil,
        current_filesize: u64,
        due: bool,
        next: &Self,
    ) -> bool {
        true
    }

    /// Determine and return whether or not the file should be rolled over.
    fn should_rollover(&mut self, now: &LocalDateTime, current_filesize: u64) -> (due: bool)
        ensures
            old(self).may_decide(now@, current_filesize, due, final(self)),
    ;
}

/// Implements a rolling condition based on a certain frequency
/// and/or a size limit. The default condition is to rotate daily.
#[derive(Copy, Clone, Debug, Eq, PartialEq)]
pub struct RollingConditionBasic {
    last_write_opt: Option<LocalDateTime>,
    frequency_opt: Option<RollingFrequency>,
    max_size_opt: Option<u64>,
}

/// What a [`RollingConditionBasic`] holds.
pub struct BasicCondition {
    /// Date-time of the previous evaluation, if there was one.
    pub last_write: Option<Civil>,
    /// The calendar trigger, if set.
    pub frequency: Option<RollingFrequency>,
    /// The size trigger in bytes, if set.
    pub max_size: Option<u64>,
}

/// The decision of a basic condition: the calendar trigger fires when `now`
/// has left the bucket of the previous evaluation, the size trigger when the
/// file has reached the limit.
pub open spec fn rollover_due(condition: BasicCondition, now: Civil, current_filesize: u64) -> bool {
    ||| time_trigger_fires(condition, now)
    ||| size_trigger_fires(condition, current_filesize)
}

pub open spec fn time_trigger_fires(condition: BasicCondition, now: Civil) -> bool {
    &&& condition.frequency matches Some(frequency)
    &&& condition.last_write matches Some(last_write)
    &&& !same_bucket(frequency, now, last_write)
}

pub open spec fn size_trigger_fires(condition: BasicCondition, current_filesize: u64) -> bool {
    &&& condition.max_size matches Some(max_size)
    &&& current_filesize >= max_size
}

impl View for RollingConditionBasic {
    type V = BasicCondition;

    closed spec fn view(&self) -> BasicCondition {
        BasicCondition {
            last_write: match self.last_write_opt {
                Some(at) => Some(at@),
                None => None,
            },
            frequency: self.frequency_opt,
            max_size: self.max_size_opt,
        }
    }
}

impl RollingConditionBasic {
    /// Constructs a new struct that does not yet have any condition set.
    pub fn new() -> (condition: RollingConditionBasic)
        ensures
            condition@ == (BasicCondition { last_write: None, frequency: None, max_size: None }),
    {
        RollingConditionBasic { last_write_opt: None, frequency_opt: None, max_size_opt: None }
    }

    /// Sets a condition to rollover on the given frequency.
    pub fn frequency(self, x: RollingFrequency) -> (condition: RollingConditionBasic)
        ensures
            condition@ == (BasicCondition { frequency: Some(x), ..self@ }),
    {
        let mut condition = self;
        condition.frequency_opt = Some(x);
        condition
    }

    /// Sets a condition to rollover when the date changes.
    pub fn daily(self) -> (condition: RollingConditionBasic)
        ensures
            condition@ == (BasicCondition {
                frequency: Some(RollingFrequency::EveryDay),
                ..self@
            }),
    {
        let mut condition = self;
        condition.frequency_opt = Some(RollingFrequency::EveryDay);
        condition
    }

    /// Sets a condition to rollover when the date or hour changes.
    pub fn hourly(self) -> (condition: RollingConditionBasic)
        ensures
            condition@ == (BasicCondition {
                frequency: Some(RollingFrequency::EveryHour),
                ..self@
            }),
    {
        let mut condition = self;
        condition.frequency_opt = Some(RollingFrequency::EveryHour);
        condition
    }

    /// Sets a condition to rollover when the date, hour or minute changes.
    pub fn minutely(self) -> (condition: RollingConditionBasic)
        ensures
            condition@ == (BasicCondition {
                frequency: Some(RollingFrequency::EveryMinute),
                ..self@
            }),
    {
        let mut condition = self;
        condition.frequency_opt = Some(RollingFrequency::EveryMinute);
        condition
    }

    /// Sets a condition to rollover when a certain size is reached.
    pub fn max_size(self, x: u64) -> (condition: RollingConditionBasic)
        ensures
            condition@ == (BasicCondition { max_size: Some(x), ..self@ }),
    {
        let mut condition = self;
        condition.max_size_opt = Some(x);
        condition
    }
}

impl Default for RollingConditionBasic {
    /// The default condition rolls over daily.
    fn default() -> (condition: Self)
        ensures
            condition@ == (BasicCondition {
                last_write: None,
                frequency: Some(RollingFrequency::EveryDay),
                max_size: None,
            }),
    {
        RollingConditionBasic::new().frequency(RollingFrequency::EveryDay)
    }
}

impl RollingCondition for RollingConditionBasic {
    open spec fn may_decide(
        &self,
        now: Civil,
        current_filesize: u64,
        due: bool,
        next: &Self,
    ) -> bool {
        &&& due == rollover_due(self@, now, current_filesize)
        &&& next@ == (BasicCondition { last_write: Some(now), ..self@ })
    }

    fn should_rollover(&mut self, now: &LocalDateTime, current_filesize: u64) -> (due: bool)
        ensures
            due == rollover_due(old(self)@, now@, current_filesize),
            final(self)@ == (BasicCondition { last_write: Some(now@), ..old(self)@ }),
    {
        let mut rollover = false;
        if let Some(frequency) = self.frequency_opt {
            if let Some(last_write) = self.last_write_opt {
                let current = frequency.equivalent_datetime(now);
                let previous = frequency.equivalent_datetime(&last_write);
                proof {
                    LocalDateTime::lemma_view_decides_equality(current, previous);
                    lemma_same_bucket_same_start(frequency, now@, last_write@);
                }
                if current != previous {
                    rollover = true;
                }
            }
        }
        if let Some(max_size) = self.max_size_opt {
            if current_filesize >= max_size {
                rollover = true;
            }
        }
        self.last_write_opt = Some(*now);
        rollover
    }
}

/// With the size trigger alone, the date-times play no part: the condition
/// asks for a rollover exactly when the file has reached the limit.
pub proof fn lemma_size_trigger_alone(
    condition: BasicCondition,
    now: Civil,
    current_filesize: u64,
)
    requires
        condition.frequency is None,
        condition.max_size is Some,
    ensures
        rollover_due(condition, now, current_filesize) == (current_filesize
            >= condition.max_size->0),
{
}

/// The first evaluation never rolls over on the calendar, and a condition
/// with no trigger set never rolls over at all.
pub proof fn lemma_no_trigger_no_rollover(
    condition: BasicCondition,
    now: Civil,
    current_filesize: u64,
)
    ensures
        condition.last_write is None ==> !time_trigger_fires(condition, now),
        condition.frequency is None ==> !time_trigger_fires(condition, now),
        condition.max_size is None ==> !size_trigger_fires(condition, current_filesize),
        condition.frequency is None && condition.max_size is None ==> !rollover_due(
            condition,
            now,
            current_filesize,
        ),
{
}

/// With the calendar trigger alone, after a first evaluation, the condition
/// asks for a rollover exactly when `now` has left the bucket of the previous
/// evaluation, whatever the size.
pub proof fn lemma_time_trigger_alone(
    condition: BasicCondition,
    now: Civil,
    current_filesize: u64,
)
    requires
        condition.frequency is Some,
        condition.last_write is Some,
        condition.max_size is None,
    ensures
        rollover_due(condition, now, current_filesize) == !same_bucket(
            condition.frequency->0,
            now,
            condition.last_write->0,
        ),
{
}

} // verus!
