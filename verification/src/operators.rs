//! Declarations of the streaming operators and the rules they are created under. The
//! numeric settings (event-time bounds, window sizes) are checked by the caller, which
//! passes the verdict in.
use crate::streaming::{Comparison, IntervalJoinType, TemporalJoinType};
use crate::text::{is_blank, spec_is_blank, str_eq};
use vstd::prelude::*;

verus! {

/// Why an operator declaration was refused.
#[derive(Debug, Clone, Copy, PartialEq, Eq, Structural)]
pub enum OperatorSpecError {
    /// The operator's identifier is blank.
    EmptyIdentifier,
    /// An input stream is blank.
    EmptyStream,
    /// The two inputs of a temporal join are the same stream.
    SameStreams,
    /// The interval bounds are not finite or the lower one exceeds the upper one.
    InvalidBounds,
    /// A join of a stream with itself whose lower bound is negative.
    NegativeSelfJoin,
    /// The workflow type is blank.
    EmptyWorkflowType,
    /// The operator id, stream, workflow type or field of a filter is blank.
    EmptyFilterSetting,
    /// The stream name of a stream declaration is blank.
    EmptyStreamName,
    /// A stream declared without partitions.
    NoPartitions,
}

/// The declaration of a temporal join.
pub struct TemporalJoinSpec {
    pub join_id: String,
    pub probe_stream: String,
    pub version_stream: String,
    pub workflow_type: String,
    pub task_queue: String,
    pub join_type: TemporalJoinType,
}

pub open spec fn spec_check_temporal_join(s: TemporalJoinSpec) -> Result<(), OperatorSpecError> {
    if spec_is_blank(s.join_id@) {
        Err(OperatorSpecError::EmptyIdentifier)
    } else if spec_is_blank(s.probe_stream@) || spec_is_blank(s.version_stream@) {
        Err(OperatorSpecError::EmptyStream)
    } else if s.probe_stream@ == s.version_stream@ {
        Err(OperatorSpecError::SameStreams)
    } else if spec_is_blank(s.workflow_type@) {
        Err(OperatorSpecError::EmptyWorkflowType)
    } else {
        Ok(())
    }
}

impl TemporalJoinSpec {
    pub fn validate(&self) -> (r: Result<(), OperatorSpecError>)
        ensures
            r == spec_check_temporal_join(*self),
    {
        if is_blank(self.join_id.as_str()) {
            return Err(OperatorSpecError::EmptyIdentifier);
        }
        if is_blank(self.probe_stream.as_str()) || is_blank(self.version_stream.as_str()) {
            return Err(OperatorSpecError::EmptyStream);
        }
        if str_eq(self.probe_stream.as_str(), self.version_stream.as_str()) {
            return Err(OperatorSpecError::SameStreams);
        }
        if is_blank(self.workflow_type.as_str()) {
            return Err(OperatorSpecError::EmptyWorkflowType);
        }
        Ok(())
    }

    /// Whether two declarations ask for the same join, so that redeclaring it is no change.
    pub fn has_same_spec(&self, other: &Self) -> (same: bool)
        ensures
            same == (self.join_id@ == other.join_id@ && self.probe_stream@
                == other.probe_stream@ && self.version_stream@ == other.version_stream@
                && self.workflow_type@ == other.workflow_type@ && self.task_queue@
                == other.task_queue@ && self.join_type == other.join_type),
    {
        str_eq(self.join_id.as_str(), other.join_id.as_str()) && str_eq(
            self.probe_stream.as_str(),
            other.probe_stream.as_str(),
        ) && str_eq(self.version_stream.as_str(), other.version_stream.as_str()) && str_eq(
            self.workflow_type.as_str(),
            other.workflow_type.as_str(),
        ) && str_eq(self.task_queue.as_str(), other.task_queue.as_str()) && self.join_type
            == other.join_type
    }
}

/// The declaration of an interval join, apart from its numeric bounds.
pub struct IntervalJoinSpec {
    pub join_id: String,
    pub left_stream: String,
    pub right_stream: String,
    pub workflow_type: String,
    pub task_queue: String,
    pub join_type: IntervalJoinType,
}

/// `bounds_valid` says whether both bounds are finite with the lower one no greater than
/// the upper one; `lower_negative` whether the lower bound is below zero.
pub open spec fn spec_check_interval_join(
    s: IntervalJoinSpec,
    bounds_valid: bool,
    lower_negative: bool,
) -> Result<(), OperatorSpecError> {
    if spec_is_blank(s.join_id@) {
        Err(OperatorSpecError::EmptyIdentifier)
    } else if spec_is_blank(s.left_stream@) || spec_is_blank(s.right_stream@) {
        Err(OperatorSpecError::EmptyStream)
    } else if !bounds_valid {
        Err(OperatorSpecError::InvalidBounds)
    } else if s.left_stream@ == s.right_stream@ && lower_negative {
        Err(OperatorSpecError::NegativeSelfJoin)
    } else if spec_is_blank(s.workflow_type@) {
        Err(OperatorSpecError::EmptyWorkflowType)
    } else {
        Ok(())
    }
}

impl IntervalJoinSpec {
    pub fn validate(&self, bounds_valid: bool, lower_negative: bool) -> (r: Result<
        (),
        OperatorSpecError,
    >)
        ensures
            r == spec_check_interval_join(*self, bounds_valid, lower_negative),
    {
        if is_blank(self.join_id.as_str()) {
            return Err(OperatorSpecError::EmptyIdentifier);
        }
        if is_blank(self.left_stream.as_str()) || is_blank(self.right_stream.as_str()) {
            return Err(OperatorSpecError::EmptyStream);
        }
        if !bounds_valid {
            return Err(OperatorSpecError::InvalidBounds);
        }
        if str_eq(self.left_stream.as_str(), self.right_stream.as_str()) && lower_negative {
            return Err(OperatorSpecError::NegativeSelfJoin);
        }
        if is_blank(self.workflow_type.as_str()) {
            return Err(OperatorSpecError::EmptyWorkflowType);
        }
        Ok(())
    }
}

/// The declaration of a deduplicating operator.
pub struct DeduplicateSpec {
    pub operator_id: String,
    pub stream: String,
    pub workflow_type: String,
    pub task_queue: String,
}

pub open spec fn spec_check_deduplicate(s: DeduplicateSpec) -> Result<(), OperatorSpecError> {
    if spec_is_blank(s.operator_id@) || spec_is_blank(s.stream@) {
        Err(OperatorSpecError::EmptyIdentifier)
    } else if spec_is_blank(s.workflow_type@) {
        Err(OperatorSpecError::EmptyWorkflowType)
    } else {
        Ok(())
    }
}

impl DeduplicateSpec {
    pub fn validate(&self) -> (r: Result<(), OperatorSpecError>)
        ensures
            r == spec_check_deduplicate(*self),
    {
        if is_blank(self.operator_id.as_str()) || is_blank(self.stream.as_str()) {
            return Err(OperatorSpecError::EmptyIdentifier);
        }
        if is_blank(self.workflow_type.as_str()) {
            return Err(OperatorSpecError::EmptyWorkflowType);
        }
        Ok(())
    }

    pub fn has_same_spec(&self, other: &Self) -> (same: bool)
        ensures
            same == (self.operator_id@ == other.operator_id@ && self.stream@ == other.stream@
                && self.workflow_type@ == other.workflow_type@ && self.task_queue@
                == other.task_queue@),
    {
        str_eq(self.operator_id.as_str(), other.operator_id.as_str()) && str_eq(
            self.stream.as_str(),
            other.stream.as_str(),
        ) && str_eq(self.workflow_type.as_str(), other.workflow_type.as_str()) && str_eq(
            self.task_queue.as_str(),
            other.task_queue.as_str(),
        )
    }
}

/// The declaration of a stream filter, apart from its operand.
pub struct StreamFilterSpec {
    pub operator_id: String,
    pub stream: String,
    pub workflow_type: String,
    pub task_queue: String,
    pub field: String,
    pub comparison: Comparison,
}

pub open spec fn spec_check_stream_filter(s: StreamFilterSpec) -> Result<(), OperatorSpecError> {
    if spec_is_blank(s.operator_id@) || spec_is_blank(s.stream@) || spec_is_blank(
        s.workflow_type@,
    ) || spec_is_blank(s.field@) {
        Err(OperatorSpecError::EmptyFilterSetting)
    } else {
        Ok(())
    }
}

impl StreamFilterSpec {
    pub fn validate(&self) -> (r: Result<(), OperatorSpecError>)
        ensures
            r == spec_check_stream_filter(*self),
    {
        if is_blank(self.operator_id.as_str()) || is_blank(self.stream.as_str()) || is_blank(
            self.workflow_type.as_str(),
        ) || is_blank(self.field.as_str()) {
            return Err(OperatorSpecError::EmptyFilterSetting);
        }
        Ok(())
    }
}

/// The first rules of a stream declaration, checked before its numeric settings: a name
/// and at least one partition.
pub fn check_stream_identity(name: &str, partitions: u32) -> (r: Result<(), OperatorSpecError>)
    ensures
        r == if spec_is_blank(name@) {
            Err(OperatorSpecError::EmptyStreamName)
        } else if partitions == 0 {
            Err(OperatorSpecError::NoPartitions)
        } else {
            Ok::<(), OperatorSpecError>(())
        },
{
    if is_blank(name) {
        Err(OperatorSpecError::EmptyStreamName)
    } else if partitions == 0 {
        Err(OperatorSpecError::NoPartitions)
    } else {
        Ok(())
    }
}

/// The first rule of a window schedule, checked before its numeric settings: an id.
pub fn check_schedule_identity(schedule_id: &str) -> (r: Result<(), OperatorSpecError>)
    ensures
        r == if spec_is_blank(schedule_id@) {
            Err(OperatorSpecError::EmptyIdentifier)
        } else {
            Ok::<(), OperatorSpecError>(())
        },
{
    if is_blank(schedule_id) {
        Err(OperatorSpecError::EmptyIdentifier)
    } else {
        Ok(())
    }
}

} // verus!
