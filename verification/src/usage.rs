//! Token counts of model requests, summed over projects.

use vstd::prelude::*;

use crate::parser::saturated;

verus! {

/// The tokens that one request used.
#[derive(Debug, Clone, Copy, PartialEq, Eq, Structural)]
pub struct TokenUsage {
    pub prompt_tokens: u32,
    pub reasoning_tokens: u32,
    pub total_tokens: u32,
}

/// Which count of a usage.
pub enum TokenKind {
    Prompt,
    Reasoning,
    Total,
}

/// The count of the given kind.
pub open spec fn count_of(u: TokenUsage, kind: TokenKind) -> int {
    match kind {
        TokenKind::Prompt => u.prompt_tokens as int,
        TokenKind::Reasoning => u.reasoning_tokens as int,
        TokenKind::Total => u.total_tokens as int,
    }
}

/// The sum of the counts of the given kind.
pub open spec fn sum_of(s: Seq<TokenUsage>, kind: TokenKind) -> int
    decreases s.len(),
{
    if s.len() == 0 {
        0
    } else {
        sum_of(s.drop_last(), kind) + count_of(s.last(), kind)
    }
}

/// The usages added up, each count saturating at the largest `u32`.
pub fn sum_usage(usages: &Vec<TokenUsage>) -> (r: TokenUsage)
    ensures
        r.prompt_tokens == saturated(sum_of(usages@, TokenKind::Prompt)),
        r.reasoning_tokens == saturated(sum_of(usages@, TokenKind::Reasoning)),
        r.total_tokens == saturated(sum_of(usages@, TokenKind::Total)),
{
    let mut acc = TokenUsage { prompt_tokens: 0, reasoning_tokens: 0, total_tokens: 0 };
    let n = usages.len();
    let mut i: usize = 0;
    while i < n
        invariant
            n == usages@.len(),
            i <= n,
            acc.prompt_tokens == saturated(sum_of(usages@.take(i as int), TokenKind::Prompt)),
            acc.reasoning_tokens == saturated(sum_of(usages@.take(i as int), TokenKind::Reasoning)),
            acc.total_tokens == saturated(sum_of(usages@.take(i as int), TokenKind::Total)),
        decreases n - i,
    {
        let u = usages[i];
        assert(usages@.take(i + 1).drop_last() =~= usages@.take(i as int));
        assert(usages@.take(i + 1).last() == u);
        acc = TokenUsage {
            prompt_tokens: acc.prompt_tokens.saturating_add(u.prompt_tokens),
            reasoning_tokens: acc.reasoning_tokens.saturating_add(u.reasoning_tokens),
            total_tokens: acc.total_tokens.saturating_add(u.total_tokens),
        };
        i = i + 1;
    }
    assert(usages@.take(n as int) =~= usages@);
    acc
}

/// `a - b`, or 0 where `b` is larger.
pub open spec fn monus(a: int, b: int) -> int {
    if a >= b {
        a - b
    } else {
        0
    }
}

impl TokenUsage {
    /// The tokens that were neither prompt nor reasoning.
    pub fn output_tokens(&self) -> (r: u32)
        ensures
            r == monus(monus(self.total_tokens as int, self.prompt_tokens as int), self.reasoning_tokens as int),
    {
        self.total_tokens.saturating_sub(self.prompt_tokens).saturating_sub(self.reasoning_tokens)
    }
}

} // verus!
