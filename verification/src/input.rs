//! The input abstraction that parsers of the `Parser` trait read from.
use vstd::prelude::*;

verus! {

/// A position-based input that can be saved to a checkpoint and rewound.
///
/// `advanced(a, b)` holds when `b` is `a` or a later state of the same input;
/// every parse moves its input forward in this sense, so a checkpoint taken
/// before a parse can always be restored after it.
pub trait Input: Sized {
    type Checkpoint: Copy;

    /// The state is well formed.
    spec fn wf(&self) -> bool;

    /// Byte offset of the current position.
    spec fn spec_offset(&self) -> int;

    /// Byte offset of the end of the input.
    spec fn spec_end(&self) -> int;

    /// Whether the whole input has been consumed.
    spec fn spec_is_eof(&self) -> bool;

    /// The checkpoint that `checkpoint` returns in this state.
    spec fn spec_checkpoint(&self) -> Self::Checkpoint;

    /// Whether `cp` may be restored from this state.
    spec fn can_reset(&self, cp: Self::Checkpoint) -> bool;

    /// The state that `reset(cp)` produces from this state.
    spec fn spec_reset(&self, cp: Self::Checkpoint) -> Self;

    /// `later` is this state or a later state of the same input (both well formed).
    spec fn advanced(&self, later: Self) -> bool;

    proof fn lemma_advanced_wf(a: Self, b: Self)
        requires
            a.advanced(b),
        ensures
            a.wf(),
            b.wf(),
            a.spec_offset() <= b.spec_offset(),
            a.spec_end() == b.spec_end(),
    ;

    /// A well-formed position lies within the input.
    proof fn lemma_offset_bound(&self)
        requires
            self.wf(),
        ensures
            0 <= self.spec_offset() <= self.spec_end(),
    ;

    proof fn lemma_advanced_refl(&self)
        requires
            self.wf(),
        ensures
            self.advanced(*self),
    ;

    proof fn lemma_advanced_trans(a: Self, b: Self, c: Self)
        requires
            a.advanced(b),
            b.advanced(c),
        ensures
            a.advanced(c),
    ;

    /// A checkpoint of an earlier state restores exactly that state.
    proof fn lemma_reset_restores(a: Self, b: Self)
        requires
            a.advanced(b),
        ensures
            b.can_reset(a.spec_checkpoint()),
            b.spec_reset(a.spec_checkpoint()) == a,
    ;

    fn offset(&self) -> (r: usize)
        requires
            self.wf(),
        ensures
            r == self.spec_offset(),
    ;

    fn is_eof(&self) -> (r: bool)
        requires
            self.wf(),
        ensures
            r == self.spec_is_eof(),
    ;

    fn checkpoint(&self) -> (cp: Self::Checkpoint)
        requires
            self.wf(),
        ensures
            cp == self.spec_checkpoint(),
    ;

    fn reset(&mut self, cp: Self::Checkpoint)
        requires
            old(self).wf(),
            old(self).can_reset(cp),
        ensures
            final(self).wf(),
            *final(self) == old(self).spec_reset(cp),
    ;
}

} // verus!
