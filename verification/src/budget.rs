//! Token estimates and the token budgets of a chat request.
use vstd::prelude::*;
use vstd::utf8::encode_utf8;

verus! {

/// Estimated tokens of a text: one token for every four bytes of its UTF-8
/// encoding, the byte count taken modulo 2^32 as `as u32` does.
pub open spec fn token_estimate(s: Seq<char>) -> u32 {
    ((encode_utf8(s).len() as usize as u32) / 4) as u32
}

/// Rough token estimate: 1 token for about 4 characters (bytes).
pub fn estimate_tokens(s: &str) -> (r: u32)
    ensures
        r == token_estimate(s@),
{
    (s.len() as u32) / 4
}

/// Tokens set aside for the system prompt, the summary and a safety margin.
pub const CONTEXT_OVERHEAD_TOKENS: u32 = 600;

/// Percentage of the available budget whose excess in unsummarized text
/// triggers a summary.
pub const SUMMARY_TRIGGER_RATIO: u32 = 60;

/// Percentage of the available budget kept as raw recent messages when summarizing.
pub const SUMMARY_KEEP_RATIO: u32 = 30;

/// Tokens left for conversation messages: the context window less the
/// response reserve and the fixed overhead, each subtraction saturating at 0.
pub open spec fn spec_available_context_tokens(context_window_size: u32, max_tokens: u32) -> u32 {
    context_window_size.saturating_sub(max_tokens).saturating_sub(CONTEXT_OVERHEAD_TOKENS)
}

/// The token budget for conversation messages.
pub fn available_context_tokens(context_window_size: u32, max_tokens: u32) -> (r: u32)
    ensures
        r == spec_available_context_tokens(context_window_size, max_tokens),
{
    context_window_size.saturating_sub(max_tokens).saturating_sub(CONTEXT_OVERHEAD_TOKENS)
}

/// Sum of `ts[i..]`.
pub open spec fn suffix_sum(ts: Seq<u32>, i: int) -> int
    decreases ts.len() - i,
{
    if 0 <= i < ts.len() {
        ts[i] + suffix_sum(ts, i + 1)
    } else {
        0
    }
}

/// `k` is where the longest suffix of `ts` that starts at or after `floor`
/// and sums to at most `budget` begins.
pub open spec fn is_fit_start(ts: Seq<u32>, floor: int, budget: int, k: int) -> bool {
    &&& floor <= k <= ts.len()
    &&& suffix_sum(ts, k) <= budget
    &&& (k > floor ==> suffix_sum(ts, k - 1) > budget)
}

/// The start of the longest suffix of `ts` at or after `floor` within `budget`.
pub open spec fn fit_start(ts: Seq<u32>, floor: int, budget: int) -> int {
    choose|k: int| is_fit_start(ts, floor, budget, k)
}

/// Suffix sums are never negative.
pub proof fn lemma_suffix_sum_nonneg(ts: Seq<u32>, i: int)
    ensures
        suffix_sum(ts, i) >= 0,
    decreases ts.len() - i,
{
    if 0 <= i < ts.len() {
        lemma_suffix_sum_nonneg(ts, i + 1);
    }
}

/// Suffix sums do not grow as the suffix shrinks.
pub proof fn lemma_suffix_sum_monotone(ts: Seq<u32>, i: int, j: int)
    requires
        0 <= i <= j,
    ensures
        suffix_sum(ts, i) >= suffix_sum(ts, j),
        suffix_sum(ts, j) >= 0,
    decreases j - i,
{
    lemma_suffix_sum_nonneg(ts, j);
    if i < j {
        lemma_suffix_sum_monotone(ts, i + 1, j);
    }
}

/// There is exactly one fit start.
pub proof fn lemma_fit_start_unique(ts: Seq<u32>, floor: int, budget: int, k1: int, k2: int)
    requires
        0 <= floor,
        is_fit_start(ts, floor, budget, k1),
        is_fit_start(ts, floor, budget, k2),
    ensures
        k1 == k2,
{
    if k1 < k2 {
        lemma_suffix_sum_monotone(ts, k1, k2 - 1);
    } else if k2 < k1 {
        lemma_suffix_sum_monotone(ts, k2, k1 - 1);
    }
}

/// A fit start exists at or before `k` when the suffix from `k` fits.
pub proof fn lemma_fit_start_exists(ts: Seq<u32>, floor: int, budget: int, k: int)
    requires
        0 <= floor <= k <= ts.len(),
        suffix_sum(ts, k) <= budget,
    ensures
        is_fit_start(ts, floor, budget, fit_start(ts, floor, budget)),
    decreases k - floor,
{
    if k == floor || suffix_sum(ts, k - 1) > budget {
        assert(is_fit_start(ts, floor, budget, k));
    } else {
        lemma_fit_start_exists(ts, floor, budget, k - 1);
    }
}

/// Where the longest suffix of `ts` (starting at `floor` or later) that fits
/// in `budget` begins: walking back from the newest entry, entries are kept
/// until the next one would overflow the budget.
pub fn fit_suffix_start(ts: &Vec<u32>, floor: usize, budget: u32) -> (k: usize)
    requires
        floor <= ts@.len(),
    ensures
        is_fit_start(ts@, floor as int, budget as int, k as int),
        k == fit_start(ts@, floor as int, budget as int),
        forall|j: int| floor <= j < k ==> suffix_sum(ts@, j) > budget,
{
    let mut k: usize = ts.len();
    let mut total: u64 = 0;
    while k > floor
        invariant
            floor <= k <= ts@.len(),
            total as int == suffix_sum(ts@, k as int),
            total <= budget,
        ensures
            floor <= k <= ts@.len(),
            total as int == suffix_sum(ts@, k as int),
            total <= budget,
            k > floor ==> suffix_sum(ts@, k - 1) > budget,
        decreases k,
    {
        let t = ts[k - 1];
        if total + (t as u64) > (budget as u64) {
            break;
        }
        total = total + (t as u64);
        k = k - 1;
    }
    proof {
        assert(is_fit_start(ts@, floor as int, budget as int, k as int));
        let c = fit_start(ts@, floor as int, budget as int);
        lemma_fit_start_unique(ts@, floor as int, budget as int, k as int, c);
        assert forall|j: int| floor <= j < k implies suffix_sum(ts@, j) > budget by {
            lemma_suffix_sum_monotone(ts@, j, k - 1);
        }
    }
    k
}

} // verus!
