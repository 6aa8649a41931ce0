//! The token budget of a context window.
use vstd::prelude::*;

use crate::context::compact;
use crate::context::compact::CompactionPolicy;

verus! {

#[derive(Clone, Copy, Debug, PartialEq, Eq, Structural)]
pub struct ContextBudget {
    pub window_tokens: u64,
    pub used_tokens: u64,
    pub reserve_tokens: u64,
}

impl ContextBudget {
    pub fn new(window_tokens: u64, used_tokens: u64, reserve_tokens: u64) -> (r: ContextBudget)
        ensures
            r == (ContextBudget { window_tokens, used_tokens, reserve_tokens }),
    {
        ContextBudget { window_tokens, used_tokens, reserve_tokens }
    }

    /// The usage from which the context is compacted.
    pub fn threshold_tokens(self) -> (r: u64)
        ensures
            r == compact::hard_threshold(self.window_tokens),
    {
        CompactionPolicy::default().hard_threshold_tokens(self.window_tokens)
    }

    /// Whether the context is due for compaction.
    pub fn should_compact(self) -> (r: bool)
        ensures
            r == (self.used_tokens >= compact::hard_threshold(self.window_tokens)
                || compact::reserve_overflows(
                self.used_tokens,
                self.window_tokens,
                self.reserve_tokens,
            )),
    {
        CompactionPolicy::default().is_over_hard(
            self.used_tokens,
            self.window_tokens,
            self.reserve_tokens,
        )
    }

    /// Whether so many tokens still fit in the window. A sum beyond 64 bits
    /// counts as the largest number.
    pub fn can_fit(self, additional_tokens: u64) -> (r: bool)
        ensures
            r == (self.used_tokens + additional_tokens <= self.window_tokens || self.window_tokens
                == u64::MAX),
    {
        self.used_tokens.saturating_add(additional_tokens) <= self.window_tokens
    }
}

} // verus!
