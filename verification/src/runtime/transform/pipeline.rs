//! The ordered operation list of a transform pipeline and the results of
//! replaying it.
use vstd::prelude::*;
use crate::runtime::decode::DecodedImage;
use super::model::{ImageTransform, TransformError};

verus! {

/// Errors from editing the operation list.
#[derive(Debug, Clone, Copy, PartialEq, Eq, Hash, Structural)]
pub enum PipelineError {
    /// `index` does not name an operation of a list of `len`.
    IndexOutOfBounds { index: usize, len: usize },
}

/// The failure of a strict replay: the operation at `index` failed with
/// `error`.
#[derive(Debug)]
pub struct ReplayError {
    index: usize,
    error: TransformError,
}

impl ReplayError {
    /// The failure of the operation at `index`.
    pub fn new(index: usize, error: TransformError) -> (r: ReplayError)
        ensures
            r.spec_index() == index,
            r.spec_error() == error,
    {
        ReplayError { index, error }
    }

    /// The index of the failed operation.
    pub closed spec fn spec_index(&self) -> usize {
        self.index
    }

    /// The error of the failed operation.
    pub closed spec fn spec_error(&self) -> TransformError {
        self.error
    }

    /// The index of the operation that failed.
    pub fn index(&self) -> (r: usize)
        ensures
            r == self.spec_index(),
    {
        self.index
    }

    /// The error of the operation that failed.
    pub fn error(&self) -> (r: &TransformError)
        ensures
            *r == self.spec_error(),
    {
        &self.error
    }
}

/// One operation skipped by a best-effort replay.
#[derive(Debug)]
pub struct ReplaySkip {
    /// The index of the skipped operation.
    pub index: usize,
    /// Its error.
    pub error: TransformError,
}

/// The result of a best-effort replay: the image after every operation
/// that succeeded, and the failed ones in order.
#[derive(Debug)]
pub struct ReplayReport {
    pub image: DecodedImage,
    pub skips: Vec<ReplaySkip>,
}

/// An ordered list of operations.
#[derive(Debug, Clone)]
pub struct TransformPipeline {
    ops: Vec<ImageTransform>,
}

impl TransformPipeline {
    /// The operations in replay order.
    pub closed spec fn spec_ops(&self) -> Seq<ImageTransform> {
        self.ops@
    }

    /// An empty pipeline.
    pub fn new() -> (r: TransformPipeline)
        ensures
            r.spec_ops() == Seq::<ImageTransform>::empty(),
    {
        TransformPipeline { ops: Vec::new() }
    }

    /// Appends an operation.
    pub fn push(&mut self, op: ImageTransform)
        ensures
            final(self).spec_ops() == old(self).spec_ops().push(op),
    {
        self.ops.push(op);
    }

    /// Removes every operation.
    pub fn clear(&mut self)
        ensures
            final(self).spec_ops() == Seq::<ImageTransform>::empty(),
    {
        self.ops.clear();
    }

    /// The operations in replay order.
    pub fn ops(&self) -> (r: &[ImageTransform])
        ensures
            r@ == self.spec_ops(),
    {
        self.ops.as_slice()
    }

    /// Whether there are no operations.
    pub fn is_empty(&self) -> (r: bool)
        ensures
            r == (self.spec_ops().len() == 0),
    {
        self.ops.len() == 0
    }

    /// The number of operations.
    pub fn len(&self) -> (r: usize)
        ensures
            r == self.spec_ops().len(),
    {
        self.ops.len()
    }

    /// Removes and returns the operation at `index`; an index past the end
    /// is an error and leaves the list unchanged.
    pub fn remove(&mut self, index: usize) -> (r: Result<ImageTransform, PipelineError>)
        ensures
            index < old(self).spec_ops().len() ==> r == Ok::<ImageTransform, PipelineError>(
                old(self).spec_ops()[index as int],
            ) && final(self).spec_ops() == old(self).spec_ops().remove(index as int),
            index >= old(self).spec_ops().len() ==> r == Err::<ImageTransform, PipelineError>(
                PipelineError::IndexOutOfBounds { index, len: old(self).spec_ops().len() as usize },
            ) && final(self).spec_ops() == old(self).spec_ops(),
    {
        if index >= self.ops.len() {
            return Err(PipelineError::IndexOutOfBounds { index, len: self.ops.len() });
        }
        Ok(self.ops.remove(index))
    }

    /// Removes and returns the last operation, if any.
    pub fn pop(&mut self) -> (r: Option<ImageTransform>)
        ensures
            old(self).spec_ops().len() == 0 ==> r is None && final(self).spec_ops() == old(self).spec_ops(),
            old(self).spec_ops().len() > 0 ==> r == Some(old(self).spec_ops().last())
                && final(self).spec_ops() == old(self).spec_ops().drop_last(),
    {
        self.ops.pop()
    }
}

impl Default for TransformPipeline {
    fn default() -> (r: TransformPipeline)
        ensures
            r.spec_ops() == Seq::<ImageTransform>::empty(),
    {
        TransformPipeline::new()
    }
}

} // verus!
