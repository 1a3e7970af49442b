use vstd::prelude::*;

verus! {

/// One level of `@if`/`@ifdef`/`@ifndef` nesting, or the sentinel root level.
///
/// `in_if` is true only for frames created by a real conditional directive;
/// the root frame has it false. `saw_else` records that an `@else` was seen at
/// this level (at most one is permitted). `handled` is true once some branch
/// at this level has matched, so later `@elif`/`@else` branches must stay
/// inactive. `copy` says whether this level alone wants its lines emitted; the
/// global emission decision is the conjunction of `copy` over the whole stack.
#[derive(Clone, Copy, Debug, PartialEq, Eq, Structural)]
pub struct ConditionalHelper {
    pub in_if: bool,
    pub saw_else: bool,
    pub handled: bool,
    pub copy: bool,
}

impl ConditionalHelper {
    pub fn new(in_if: bool, saw_else: bool, handled: bool, copy: bool) -> (r: Self)
        ensures
            r == (ConditionalHelper { in_if, saw_else, handled, copy }),
    {
        ConditionalHelper { in_if, saw_else, handled, copy }
    }

    pub fn in_if(&self) -> (r: bool)
        ensures
            r == self.in_if,
    {
        self.in_if
    }

    pub fn saw_else(&self) -> (r: bool)
        ensures
            r == self.saw_else,
    {
        self.saw_else
    }

    pub fn set_saw_else(&mut self, saw_else: bool)
        ensures
            *final(self) == (ConditionalHelper { saw_else, ..*old(self) }),
    {
        self.saw_else = saw_else;
    }

    pub fn handled(&self) -> (r: bool)
        ensures
            r == self.handled,
    {
        self.handled
    }

    pub fn set_handled(&mut self, handled: bool)
        ensures
            *final(self) == (ConditionalHelper { handled, ..*old(self) }),
    {
        self.handled = handled;
    }

    pub fn copy(&self) -> (r: bool)
        ensures
            r == self.copy,
    {
        self.copy
    }

    pub fn set_copy(&mut self, copy: bool)
        ensures
            *final(self) == (ConditionalHelper { copy, ..*old(self) }),
    {
        self.copy = copy;
    }
}

} // verus!
