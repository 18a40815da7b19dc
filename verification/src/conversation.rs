//! Bookkeeping of a conversation: the step history with its turn and
//! compaction markers, token usage totals, and the chunks streamed to callers.

use vstd::prelude::*;
use crate::types::{Step, StepType, StepSource, StepTarget, StreamChunk, ToolCall, UsageMetadata};

verus! {

/// History size kept when the caller names none.
pub const DEFAULT_MAX_HISTORY_SIZE: usize = 10000;

// =============================================================================
// Usage accounting
// =============================================================================

/// One counter after adding `s` to `t`: a missing `t` counts as zero, a
/// missing `s` leaves `t` as it is.
pub open spec fn add_count(t: Option<u64>, s: Option<u64>) -> Option<u64> {
    match s {
        Some(v) => Some((t.unwrap_or(0) + v) as u64),
        None => t,
    }
}

/// The addition of one counter does not overflow.
pub open spec fn count_fits(t: Option<u64>, s: Option<u64>) -> bool {
    match s {
        Some(v) => t.unwrap_or(0) + v <= u64::MAX,
        None => true,
    }
}

/// `t` with every counter of `s` added.
pub open spec fn usage_sum(t: UsageMetadata, s: UsageMetadata) -> UsageMetadata {
    UsageMetadata {
        prompt_token_count: add_count(t.prompt_token_count, s.prompt_token_count),
        cached_content_token_count: add_count(t.cached_content_token_count, s.cached_content_token_count),
        candidates_token_count: add_count(t.candidates_token_count, s.candidates_token_count),
        thoughts_token_count: add_count(t.thoughts_token_count, s.thoughts_token_count),
        total_token_count: add_count(t.total_token_count, s.total_token_count),
    }
}

/// Adding `s` to `t` overflows no counter.
pub open spec fn usage_fits(t: UsageMetadata, s: UsageMetadata) -> bool {
    &&& count_fits(t.prompt_token_count, s.prompt_token_count)
    &&& count_fits(t.cached_content_token_count, s.cached_content_token_count)
    &&& count_fits(t.candidates_token_count, s.candidates_token_count)
    &&& count_fits(t.thoughts_token_count, s.thoughts_token_count)
    &&& count_fits(t.total_token_count, s.total_token_count)
}

/// The counter `k` of a usage: prompt, cached content, candidates,
/// thoughts, total, for `k` from 0 to 4.
pub open spec fn usage_counter(u: UsageMetadata, k: int) -> Option<u64> {
    if k == 0 {
        u.prompt_token_count
    } else if k == 1 {
        u.cached_content_token_count
    } else if k == 2 {
        u.candidates_token_count
    } else if k == 3 {
        u.thoughts_token_count
    } else {
        u.total_token_count
    }
}

/// Law: every counter is summed alike. Where `s` has a count, the sum's
/// counter is `t`'s (a missing one counting as zero) plus it; where `s` has
/// none, the sum keeps `t`'s counter as it is.
pub proof fn lemma_usage_sum_adds_every_counter(t: UsageMetadata, s: UsageMetadata)
    requires
        usage_fits(t, s),
    ensures
        forall|k: int| 0 <= k < 5 && (#[trigger] usage_counter(s, k)) is Some
            ==> usage_counter(usage_sum(t, s), k) is Some
                && usage_counter(usage_sum(t, s), k)->0 == usage_counter(t, k).unwrap_or(0)
                    + usage_counter(s, k)->0,
        forall|k: int| 0 <= k < 5 && #[trigger] usage_counter(s, k) is None
            ==> usage_counter(usage_sum(t, s), k) == usage_counter(t, k),
        usage_sum(t, s).thoughts_token_count == match s.thoughts_token_count {
            Some(v) => Some((t.thoughts_token_count.unwrap_or(0) + v) as u64),
            None => t.thoughts_token_count,
        },
{
}

/// Every counter present and zero.
pub open spec fn zero_usage_spec() -> UsageMetadata {
    UsageMetadata {
        prompt_token_count: Some(0),
        cached_content_token_count: Some(0),
        candidates_token_count: Some(0),
        thoughts_token_count: Some(0),
        total_token_count: Some(0),
    }
}

fn zero_usage() -> (u: UsageMetadata)
    ensures
        u == zero_usage_spec(),
{
    UsageMetadata {
        prompt_token_count: Some(0),
        cached_content_token_count: Some(0),
        candidates_token_count: Some(0),
        thoughts_token_count: Some(0),
        total_token_count: Some(0),
    }
}

fn add_count_exec(t: Option<u64>, s: Option<u64>) -> (r: Option<u64>)
    requires
        count_fits(t, s),
    ensures
        r == add_count(t, s),
{
    match s {
        Some(val) => {
            let base: u64 = match t {
                Some(x) => x,
                None => 0,
            };
            Some(base + val)
        },
        None => t,
    }
}

fn count_fits_exec(t: Option<u64>, s: Option<u64>) -> (b: bool)
    ensures
        b == count_fits(t, s),
{
    match s {
        Some(v) => {
            let base: u64 = match t {
                Some(x) => x,
                None => 0,
            };
            base <= u64::MAX - v
        },
        None => true,
    }
}

fn usage_fits_exec(t: &UsageMetadata, s: &UsageMetadata) -> (b: bool)
    ensures
        b == usage_fits(*t, *s),
{
    count_fits_exec(t.prompt_token_count, s.prompt_token_count)
        && count_fits_exec(t.cached_content_token_count, s.cached_content_token_count)
        && count_fits_exec(t.candidates_token_count, s.candidates_token_count)
        && count_fits_exec(t.thoughts_token_count, s.thoughts_token_count)
        && count_fits_exec(t.total_token_count, s.total_token_count)
}

fn add_usage(target: &mut UsageMetadata, source: &UsageMetadata)
    requires
        usage_fits(*old(target), *source),
    ensures
        *final(target) == usage_sum(*old(target), *source),
{
    target.prompt_token_count = add_count_exec(target.prompt_token_count, source.prompt_token_count);
    target.cached_content_token_count = add_count_exec(target.cached_content_token_count, source.cached_content_token_count);
    target.candidates_token_count = add_count_exec(target.candidates_token_count, source.candidates_token_count);
    target.thoughts_token_count = add_count_exec(target.thoughts_token_count, source.thoughts_token_count);
    target.total_token_count = add_count_exec(target.total_token_count, source.total_token_count);
}

// =============================================================================
// Index bookkeeping
// =============================================================================

/// The indices of `s` that survive dropping the first `o` steps, renumbered
/// from the new front (the filter-and-shift applied on trimming).
pub open spec fn shift_indices(s: Seq<usize>, o: nat) -> Seq<usize>
    decreases s.len(),
{
    if s.len() == 0 {
        Seq::empty()
    } else {
        let rest = shift_indices(s.drop_last(), o);
        if s.last() >= o {
            rest.push((s.last() - o) as usize)
        } else {
            rest
        }
    }
}

/// `s` never decreases.
pub open spec fn nondecreasing(s: Seq<usize>) -> bool {
    forall|i: int, j: int| 0 <= i <= j < s.len() ==> s[i] <= s[j]
}

/// `s` strictly increases.
pub open spec fn increasing(s: Seq<usize>) -> bool {
    forall|i: int, j: int| 0 <= i < j < s.len() ==> s[i] < s[j]
}

/// Membership after a push.
pub proof fn lemma_push_contains<A>(s: Seq<A>, a: A, x: A)
    ensures
        s.push(a).contains(x) <==> (s.contains(x) || x == a),
{
    if s.push(a).contains(x) {
        let k = choose|k: int| 0 <= k < s.push(a).len() && s.push(a)[k] == x;
        if k < s.len() {
            assert(s[k] == s.push(a)[k]);
        }
    }
    if s.contains(x) {
        let k = choose|k: int| 0 <= k < s.len() && s[k] == x;
        assert(s.push(a)[k] == s[k]);
    }
    if x == a {
        assert(s.push(a)[s.len() as int] == a);
    }
}

pub proof fn lemma_shift_indices_members(s: Seq<usize>, o: nat, x: usize)
    ensures
        shift_indices(s, o).contains(x) <==> (x + o <= usize::MAX && s.contains((x + o) as usize)),
    decreases s.len(),
{
    if s.len() > 0 {
        lemma_shift_indices_members(s.drop_last(), o, x);
        let rest = shift_indices(s.drop_last(), o);
        assert(s =~= s.drop_last().push(s.last()));
        lemma_push_contains(rest, (s.last() - o) as usize, x);
        lemma_push_contains(s.drop_last(), s.last(), (x + o) as usize);
    }
}

pub proof fn lemma_shift_indices_len(s: Seq<usize>, o: nat)
    ensures
        shift_indices(s, o).len() <= s.len(),
    decreases s.len(),
{
    if s.len() > 0 {
        lemma_shift_indices_len(s.drop_last(), o);
    }
}

pub proof fn lemma_shift_indices_bounds(s: Seq<usize>, o: nat, bound: nat)
    requires
        forall|i: int| 0 <= i < s.len() ==> s[i] <= bound,
    ensures
        forall|i: int| 0 <= i < shift_indices(s, o).len() ==> shift_indices(s, o)[i] + o <= bound,
    decreases s.len(),
{
    if s.len() > 0 {
        lemma_shift_indices_bounds(s.drop_last(), o, bound);
        let rest = shift_indices(s.drop_last(), o);
        assert(s.last() == s[s.len() - 1]);
        assert forall|i: int| 0 <= i < shift_indices(s, o).len() implies shift_indices(s, o)[i] + o <= bound by {
            if i < rest.len() {
                assert(shift_indices(s, o)[i] == rest[i]);
            }
        }
    }
}

pub proof fn lemma_shift_indices_sorted(s: Seq<usize>, o: nat, strict: bool)
    requires
        strict ==> increasing(s),
        !strict ==> nondecreasing(s),
    ensures
        strict ==> increasing(shift_indices(s, o)),
        !strict ==> nondecreasing(shift_indices(s, o)),
        forall|i: int| 0 <= i < shift_indices(s, o).len() ==>
            s.len() > 0 && #[trigger] shift_indices(s, o)[i] + o <= s.last(),
    decreases s.len(),
{
    if s.len() > 0 {
        let d = s.drop_last();
        lemma_shift_indices_sorted(d, o, strict);
        let rest = shift_indices(d, o);
        assert forall|i: int| 0 <= i < rest.len() implies rest[i] + o <= s.last() by {
            assert(d.len() > 0);
            assert(d.last() == s[s.len() - 2]);
        }
    }
}

// =============================================================================
// Conversation state
// =============================================================================

/// The history of a conversation and the accounting derived from it.
pub struct ConversationState {
    steps: Vec<Step>,
    turn_start_indices: Vec<usize>,
    compaction_indices: Vec<usize>,
    max_history_size: usize,
    cumulative_usage: UsageMetadata,
    turn_usage: Option<UsageMetadata>,
}

impl ConversationState {
    pub closed spec fn steps(&self) -> Seq<Step> {
        self.steps@
    }

    pub closed spec fn turn_starts(&self) -> Seq<usize> {
        self.turn_start_indices@
    }

    pub closed spec fn compactions(&self) -> Seq<usize> {
        self.compaction_indices@
    }

    pub closed spec fn max_history(&self) -> usize {
        self.max_history_size
    }

    pub closed spec fn total(&self) -> UsageMetadata {
        self.cumulative_usage
    }

    pub closed spec fn turn_total(&self) -> Option<UsageMetadata> {
        self.turn_usage
    }

    /// The invariant that every operation keeps.
    pub open spec fn wf(&self) -> bool {
        &&& self.max_history() > 0 ==> self.steps().len() <= self.max_history()
        &&& nondecreasing(self.turn_starts())
        &&& forall|i: int| 0 <= i < self.turn_starts().len() ==> #[trigger] self.turn_starts()[i] <= self.steps().len()
        &&& increasing(self.compactions())
        &&& forall|i: int| 0 <= i < self.compactions().len() ==> #[trigger] self.compactions()[i] < self.steps().len()
        &&& forall|k: int| 0 <= k < self.steps().len() ==>
                ((#[trigger] self.steps()[k]).step_type == StepType::Compaction
                    <==> self.compactions().contains(k as usize))
    }

    /// The state after recording `step`, as the spec of [`Self::record_step`].
    pub open spec fn recorded(&self, step: Step, next: &ConversationState) -> bool {
        let pushed = self.steps().push(step);
        let over: nat = if self.max_history() > 0 && pushed.len() > self.max_history() {
            (pushed.len() - self.max_history()) as nat
        } else {
            0
        };
        let comps = if step.step_type == StepType::Compaction {
            self.compactions().push((pushed.len() - 1) as usize)
        } else {
            self.compactions()
        };
        &&& next.max_history() == self.max_history()
        &&& next.steps() == pushed.skip(over as int)
        &&& next.compactions() == shift_indices(comps, over)
        &&& next.turn_starts() == shift_indices(self.turn_starts(), over)
        &&& next.total() == match step.usage_metadata {
                Some(u) => usage_sum(self.total(), u),
                None => self.total(),
            }
        &&& next.turn_total() == match step.usage_metadata {
                Some(u) => Some(usage_sum(self.turn_total().unwrap_or(zero_usage_spec()), u)),
                None => self.turn_total(),
            }
    }

    /// Recording `step` overflows no usage counter.
    pub open spec fn can_record(&self, step: Step) -> bool {
        match step.usage_metadata {
            Some(u) => usage_fits(self.total(), u)
                && usage_fits(self.turn_total().unwrap_or(zero_usage_spec()), u),
            None => true,
        }
    }

    /// Whether recording `step` keeps every usage counter in range.
    pub fn can_record_step(&self, step: &Step) -> (b: bool)
        ensures
            b == self.can_record(*step),
    {
        match &step.usage_metadata {
            Some(u) => {
                let turn = match self.turn_usage {
                    Some(t) => t,
                    None => zero_usage(),
                };
                usage_fits_exec(&self.cumulative_usage, u) && usage_fits_exec(&turn, u)
            },
            None => true,
        }
    }

    /// An empty history that keeps at most `max_history_size` steps
    /// (no limit when it is zero).
    pub fn with_max_history_size(max_history_size: usize) -> (s: ConversationState)
        ensures
            s.wf(),
            s.steps() == Seq::<Step>::empty(),
            s.turn_starts() == Seq::<usize>::empty(),
            s.compactions() == Seq::<usize>::empty(),
            s.max_history() == max_history_size,
            s.total() == zero_usage_spec(),
            s.turn_total() is None,
    {
        ConversationState {
            steps: Vec::new(),
            turn_start_indices: Vec::new(),
            compaction_indices: Vec::new(),
            max_history_size,
            cumulative_usage: zero_usage(),
            turn_usage: None,
        }
    }

    /// An empty history with the default size limit.
    pub fn new() -> (s: ConversationState)
        ensures
            s.wf(),
            s.steps() == Seq::<Step>::empty(),
            s.turn_starts() == Seq::<usize>::empty(),
            s.compactions() == Seq::<usize>::empty(),
            s.max_history() == DEFAULT_MAX_HISTORY_SIZE,
            s.total() == zero_usage_spec(),
            s.turn_total() is None,
    {
        Self::with_max_history_size(DEFAULT_MAX_HISTORY_SIZE)
    }

    /// Marks the start of a new turn at the end of the history and forgets
    /// the previous turn's usage.
    pub fn begin_turn(&mut self)
        requires
            old(self).wf(),
        ensures
            final(self).wf(),
            final(self).steps() == old(self).steps(),
            final(self).turn_starts() == old(self).turn_starts().push(old(self).steps().len() as usize),
            final(self).compactions() == old(self).compactions(),
            final(self).max_history() == old(self).max_history(),
            final(self).total() == old(self).total(),
            final(self).turn_total() is None,
    {
        let n = self.steps.len();
        self.turn_start_indices.push(n);
        self.turn_usage = None;
    }

    /// Appends `step` to the history, accounts its usage, and drops the
    /// oldest steps beyond the size limit, renumbering the turn and
    /// compaction markers that survive.
    pub fn record_step(&mut self, step: Step)
        requires
            old(self).wf(),
            old(self).can_record(step),
        ensures
            final(self).wf(),
            old(self).recorded(step, &*final(self)),
    {
        let ghost old_self = *self;
        let is_compaction = step.step_type == StepType::Compaction;
        let usage = step.usage_metadata;
        self.steps.push(step);
        let len = self.steps.len();
        if is_compaction {
            self.compaction_indices.push(len - 1);
        }
        let ghost comps = self.compaction_indices@;
        proof {
            assert forall|k: int| 0 <= k < self.steps@.len() implies
                ((#[trigger] self.steps@[k]).step_type == StepType::Compaction
                    <==> comps.contains(k as usize)) by {
                if k < old_self.steps@.len() {
                    assert(self.steps@[k] == old_self.steps@[k]);
                    if is_compaction {
                        lemma_push_contains(old_self.compaction_indices@, (len - 1) as usize, k as usize);
                    }
                } else {
                    if is_compaction {
                        assert(comps[comps.len() - 1] == (len - 1) as usize);
                    } else {
                        if comps.contains(k as usize) {
                            let j = choose|j: int| 0 <= j < comps.len() && comps[j] == k as usize;
                            assert(comps[j] < old_self.steps@.len());
                        }
                    }
                }
            }
        }
        match usage {
            Some(u) => {
                add_usage(&mut self.cumulative_usage, &u);
                let mut tu = match self.turn_usage {
                    Some(t) => t,
                    None => zero_usage(),
                };
                add_usage(&mut tu, &u);
                self.turn_usage = Some(tu);
            },
            None => {},
        }
        if self.max_history_size > 0 && len > self.max_history_size {
            let overflow = len - self.max_history_size;
            let kept = self.steps.split_off(overflow);
            self.steps = kept;
            let starts = shift_vec(&self.turn_start_indices, overflow);
            self.turn_start_indices = starts;
            let comps_new = shift_vec(&self.compaction_indices, overflow);
            self.compaction_indices = comps_new;
            proof {
                let o = overflow as nat;
                let pushed = old_self.steps@.push(step);
                assert(self.steps@ =~= pushed.skip(overflow as int));
                lemma_shift_indices_sorted(old_self.turn_start_indices@, o, false);
                lemma_shift_indices_sorted(comps, o, true);
                lemma_shift_indices_bounds(old_self.turn_start_indices@, o, old_self.steps@.len());
                lemma_shift_indices_bounds(comps, o, (len - 1) as nat);
                assert forall|k: int| 0 <= k < self.steps@.len() implies
                    ((#[trigger] self.steps@[k]).step_type == StepType::Compaction
                        <==> self.compaction_indices@.contains(k as usize)) by {
                    lemma_shift_indices_members(comps, o, k as usize);
                    assert(self.steps@[k] == pushed[k + overflow]);
                }
            }
        } else {
            proof {
                lemma_shift_indices_identity(old_self.turn_start_indices@);
                lemma_shift_indices_identity(comps);
                assert(self.steps@ =~= old_self.steps@.push(step).skip(0));
            }
        }
    }

    /// Empties the history and resets the usage accounting.
    pub fn clear_history(&mut self)
        requires
            old(self).wf(),
        ensures
            final(self).wf(),
            final(self).steps() == Seq::<Step>::empty(),
            final(self).turn_starts() == Seq::<usize>::empty(),
            final(self).compactions() == Seq::<usize>::empty(),
            final(self).max_history() == old(self).max_history(),
            final(self).total() == zero_usage_spec(),
            final(self).turn_total() is None,
    {
        self.steps.clear();
        self.turn_start_indices.clear();
        self.compaction_indices.clear();
        self.cumulative_usage = zero_usage();
        self.turn_usage = None;
    }

    /// The recorded steps, oldest first.
    pub fn history(&self) -> (h: &Vec<Step>)
        ensures
            h@ == self.steps(),
    {
        &self.steps
    }

    /// Number of turns started since the history was last emptied, minus
    /// those whose start was trimmed away.
    pub fn turn_count(&self) -> (n: usize)
        ensures
            n == self.turn_starts().len(),
    {
        self.turn_start_indices.len()
    }

    /// Positions of the compaction steps in the history.
    pub fn compaction_indices(&self) -> (v: &Vec<usize>)
        ensures
            v@ == self.compactions(),
    {
        &self.compaction_indices
    }

    /// Positions at which the turns started.
    pub fn turn_start_indices(&self) -> (v: &Vec<usize>)
        ensures
            v@ == self.turn_starts(),
    {
        &self.turn_start_indices
    }

    /// Usage summed over every step recorded since the history was emptied.
    pub fn total_usage(&self) -> (u: UsageMetadata)
        ensures
            u == self.total(),
    {
        self.cumulative_usage
    }

    /// Usage summed over the steps of the current turn, if any carried usage.
    pub fn last_turn_usage(&self) -> (u: Option<UsageMetadata>)
        ensures
            u == self.turn_total(),
    {
        self.turn_usage
    }

    /// The most recent step marked as a complete response, if any.
    pub fn last_response_step(&self) -> (r: Option<usize>)
        ensures
            match r {
                Some(i) => i < self.steps().len()
                    && self.steps()[i as int].is_complete_response == Some(true)
                    && forall|k: int| i < k < self.steps().len() ==>
                        (#[trigger] self.steps()[k]).is_complete_response != Some(true),
                None => forall|k: int| 0 <= k < self.steps().len() ==>
                        (#[trigger] self.steps()[k]).is_complete_response != Some(true),
            },
    {
        let mut i: usize = self.steps.len();
        while i > 0
            invariant
                i <= self.steps@.len(),
                forall|k: int| i <= k < self.steps@.len() ==>
                    (#[trigger] self.steps@[k]).is_complete_response != Some(true),
            decreases i,
        {
            let complete = match self.steps[i - 1].is_complete_response {
                Some(b) => b,
                None => false,
            };
            if complete {
                return Some(i - 1);
            }
            i = i - 1;
        }
        None
    }

    /// The content of the most recent complete response, or empty text.
    pub fn last_response(&self) -> (s: String)
        ensures
            s@ == last_response_text(self.steps()),
    {
        match self.last_response_step() {
            Some(i) => {
                proof { lemma_last_response_text(self.steps(), i as int); }
                self.steps[i].content.clone()
            },
            None => {
                proof { lemma_last_response_none(self.steps()); }
                String::new()
            },
        }
    }
}

/// Law: recording two steps in a turn that starts with no usage adds both
/// steps' counts to the conversation's total and makes the turn's usage
/// their sum, counter by counter; a counter that only one step reports is
/// that step's count in the turn.
pub proof fn lemma_two_steps_add_up(before: ConversationState, first: Step, mid: ConversationState, second: Step,
    after: ConversationState, u1: UsageMetadata, u2: UsageMetadata, k: int)
    requires
        before.recorded(first, &mid),
        mid.recorded(second, &after),
        before.can_record(first),
        mid.can_record(second),
        before.turn_total() is None,
        first.usage_metadata == Some(u1),
        second.usage_metadata == Some(u2),
        0 <= k < 5,
    ensures
        after.turn_total() is Some,
        usage_counter(u1, k) is Some && usage_counter(u2, k) is Some ==> {
            &&& usage_counter(after.total(), k) is Some
            &&& usage_counter(after.total(), k)->0 == usage_counter(before.total(), k).unwrap_or(0)
                    + usage_counter(u1, k)->0 + usage_counter(u2, k)->0
            &&& usage_counter(after.turn_total()->0, k) is Some
            &&& usage_counter(after.turn_total()->0, k)->0 == usage_counter(u1, k)->0 + usage_counter(u2, k)->0
        },
        usage_counter(u1, k) is Some && usage_counter(u2, k) is None ==>
            usage_counter(after.turn_total()->0, k) == usage_counter(u1, k),
        usage_counter(u1, k) is None && usage_counter(u2, k) is Some ==>
            usage_counter(after.turn_total()->0, k) == usage_counter(u2, k),
{
    lemma_usage_sum_adds_every_counter(before.total(), u1);
    lemma_usage_sum_adds_every_counter(mid.total(), u2);
    lemma_usage_sum_adds_every_counter(zero_usage_spec(), u1);
    let t1 = usage_sum(zero_usage_spec(), u1);
    assert(mid.turn_total() == Some(t1));
    lemma_usage_sum_adds_every_counter(t1, u2);
    assert(usage_counter(zero_usage_spec(), k) == Some(0u64));
    if usage_counter(u1, k) is Some {
        assert(usage_counter(t1, k) == usage_counter(u1, k));
    } else {
        assert(usage_counter(t1, k) == Some(0u64));
    }
    if usage_counter(u2, k) is None {
        assert(usage_counter(usage_sum(t1, u2), k) == usage_counter(t1, k));
    }
}

/// Law: trimming renumbers the turn markers with the steps they mark: after
/// recording, a turn starts at position `x` exactly when one started, before,
/// at the position of the step that is now at `x` (the positions move down by
/// the number of steps dropped), and markers of dropped steps are gone.
pub proof fn lemma_turn_markers_follow_steps(before: ConversationState, step: Step, after: ConversationState)
    requires
        before.wf(),
        before.recorded(step, &after),
    ensures
        forall|x: usize| #[trigger] after.turn_starts().contains(x) <==> ({
            let dropped = before.steps().len() + 1 - after.steps().len();
            &&& x + dropped <= usize::MAX
            &&& before.turn_starts().contains((x + dropped) as usize)
        }),
        forall|x: int| 0 <= x < after.steps().len() ==> #[trigger] after.steps()[x]
            == before.steps().push(step)[x + before.steps().len() + 1 - after.steps().len()],
{
    let pushed = before.steps().push(step);
    let over: nat = if before.max_history() > 0 && pushed.len() > before.max_history() {
        (pushed.len() - before.max_history()) as nat
    } else {
        0
    };
    assert(after.steps() == pushed.skip(over as int));
    assert(after.steps().len() == pushed.len() - over);
    assert forall|x: usize| #[trigger] after.turn_starts().contains(x) <==> ({
        let dropped = before.steps().len() + 1 - after.steps().len();
        &&& x + dropped <= usize::MAX
        &&& before.turn_starts().contains((x + dropped) as usize)
    }) by {
        lemma_shift_indices_members(before.turn_starts(), over, x);
    }
}

/// Law: a recorded step is the newest entry of the history, and the history
/// keeps every step recorded before it, up to the size limit.
pub proof fn lemma_recorded_step_is_newest(before: ConversationState, step: Step, after: ConversationState)
    requires
        before.wf(),
        before.recorded(step, &after),
    ensures
        after.steps().len() > 0,
        after.steps().last() == step,
        after.max_history() > 0 ==> after.steps().len() == if before.steps().len() + 1 > before.max_history() {
            before.max_history() as int
        } else {
            before.steps().len() + 1int
        },
        after.max_history() == 0 ==> after.steps() == before.steps().push(step),
        forall|k: int| 0 <= k < after.steps().len() - 1 ==>
            #[trigger] after.steps()[k] == before.steps()[before.steps().len() + 1 - after.steps().len() + k],
{
    let pushed = before.steps().push(step);
    let over: int = if before.max_history() > 0 && pushed.len() > before.max_history() {
        pushed.len() - before.max_history()
    } else {
        0
    };
    assert(after.steps() == pushed.skip(over));
    assert(after.steps().last() == pushed.last());
}

/// The content of the last step marked complete, or empty text.
pub open spec fn last_response_text(steps: Seq<Step>) -> Seq<char>
    decreases steps.len(),
{
    if steps.len() == 0 {
        Seq::empty()
    } else if steps.last().is_complete_response == Some(true) {
        steps.last().content@
    } else {
        last_response_text(steps.drop_last())
    }
}

proof fn lemma_last_response_text(steps: Seq<Step>, i: int)
    requires
        0 <= i < steps.len(),
        steps[i].is_complete_response == Some(true),
        forall|k: int| i < k < steps.len() ==> (#[trigger] steps[k]).is_complete_response != Some(true),
    ensures
        last_response_text(steps) == steps[i].content@,
    decreases steps.len(),
{
    if i < steps.len() - 1 {
        assert(steps.last() == steps[steps.len() - 1]);
        lemma_last_response_text(steps.drop_last(), i);
    }
}

proof fn lemma_last_response_none(steps: Seq<Step>)
    requires
        forall|k: int| 0 <= k < steps.len() ==> (#[trigger] steps[k]).is_complete_response != Some(true),
    ensures
        last_response_text(steps) == Seq::<char>::empty(),
    decreases steps.len(),
{
    if steps.len() > 0 {
        assert(steps.last() == steps[steps.len() - 1]);
        lemma_last_response_none(steps.drop_last());
    }
}

proof fn lemma_shift_indices_identity(s: Seq<usize>)
    ensures
        shift_indices(s, 0) == s,
    decreases s.len(),
{
    if s.len() > 0 {
        lemma_shift_indices_identity(s.drop_last());
        assert(s =~= s.drop_last().push(s.last()));
    }
}

/// Keeps the indices `>= o` of `v`, each reduced by `o`.
fn shift_vec(v: &Vec<usize>, o: usize) -> (r: Vec<usize>)
    ensures
        r@ == shift_indices(v@, o as nat),
{
    let mut out: Vec<usize> = Vec::new();
    let mut i: usize = 0;
    while i < v.len()
        invariant
            i <= v@.len(),
            out@ == shift_indices(v@.take(i as int), o as nat),
        decreases v@.len() - i,
    {
        assert(v@.take(i + 1).drop_last() =~= v@.take(i as int));
        if v[i] >= o {
            out.push(v[i] - o);
        }
        i = i + 1;
    }
    assert(v@.take(v@.len() as int) =~= v@);
    out
}

// =============================================================================
// Streaming chunks
// =============================================================================

/// The chunks that a model step addressed to the user contributes before its
/// tool calls: its thinking delta, then its text delta, each when non-empty.
pub open spec fn text_chunks(step: Step) -> Seq<StreamChunk> {
    if step.source == StepSource::Model && step.target == StepTarget::User {
        let thought: Seq<StreamChunk> = if step.thinking_delta@.len() > 0 {
            seq![StreamChunk::Thought { step_index: step.step_index, text: step.thinking_delta }]
        } else {
            Seq::empty()
        };
        let text: Seq<StreamChunk> = if step.content_delta@.len() > 0 {
            seq![StreamChunk::Text { step_index: step.step_index, text: step.content_delta }]
        } else {
            Seq::empty()
        };
        thought + text
    } else {
        Seq::empty()
    }
}

/// The tool calls of `calls` to report, given the ids `seen` already
/// reported: calls without an id always, calls with an id the first time
/// only. Returns the chunks and the ids seen afterwards.
pub open spec fn fresh_calls(calls: Seq<ToolCall>, seen: Seq<Seq<char>>) -> (Seq<StreamChunk>, Seq<Seq<char>>)
    decreases calls.len(),
{
    if calls.len() == 0 {
        (Seq::empty(), seen)
    } else {
        let (prev, seen1) = fresh_calls(calls.drop_last(), seen);
        let c = calls.last();
        match c.id {
            Some(id) => if seen1.contains(id@) {
                (prev, seen1)
            } else {
                (prev.push(StreamChunk::ToolCall(c)), seen1.push(id@))
            },
            None => (prev.push(StreamChunk::ToolCall(c)), seen1),
        }
    }
}

/// The views of a sequence of strings.
pub open spec fn strings_view(v: Seq<String>) -> Seq<Seq<char>> {
    Seq::new(v.len(), |i: int| v[i]@)
}

/// No element occurs twice.
pub open spec fn no_duplicates<A>(s: Seq<A>) -> bool {
    forall|i: int, j: int| 0 <= i < j < s.len() ==> s[i] != s[j]
}

fn contains_string(v: &Vec<String>, x: &String) -> (r: bool)
    ensures
        r == strings_view(v@).contains(x@),
{
    let mut i: usize = 0;
    while i < v.len()
        invariant
            i <= v@.len(),
            forall|k: int| 0 <= k < i ==> v@[k]@ != x@,
        decreases v@.len() - i,
    {
        if v[i] == *x {
            assert(strings_view(v@)[i as int] == x@);
            return true;
        }
        i = i + 1;
    }
    proof {
        if strings_view(v@).contains(x@) {
            let k = choose|k: int| 0 <= k < strings_view(v@).len() && strings_view(v@)[k] == x@;
            assert(v@[k]@ == x@);
        }
    }
    false
}

/// Turns one step into the chunks a caller of the stream receives, and
/// records the tool-call ids reported in `seen`.
pub fn chunks_from_step(step: Step, seen: &mut Vec<String>) -> (chunks: Vec<StreamChunk>)
    ensures
        chunks@ == text_chunks(step) + fresh_calls(step.tool_calls@, strings_view(old(seen)@)).0,
        strings_view(final(seen)@) == fresh_calls(step.tool_calls@, strings_view(old(seen)@)).1,
{
    let ghost orig = step;
    let mut chunks: Vec<StreamChunk> = Vec::new();
    let Step { step_index, source, target, content_delta, thinking_delta, tool_calls, .. } = step;
    if source == StepSource::Model && target == StepTarget::User {
        if !thinking_delta.as_str().is_empty() {
            chunks.push(StreamChunk::Thought { step_index, text: thinking_delta });
        }
        if !content_delta.as_str().is_empty() {
            chunks.push(StreamChunk::Text { step_index, text: content_delta });
        }
    }
    assert(chunks@ =~= text_chunks(orig));
    let ghost head = chunks@;
    let ghost seen0 = strings_view(seen@);
    let mut calls = tool_calls;
    let ghost all_calls = calls@;
    let mut k: usize = 0;
    let total: usize = calls.len();
    assert(all_calls.take(0) =~= Seq::<ToolCall>::empty());
    while calls.len() > 0
        invariant
            total == all_calls.len(),
            k <= all_calls.len(),
            calls@ == all_calls.skip(k as int),
            chunks@ == head + fresh_calls(all_calls.take(k as int), seen0).0,
            strings_view(seen@) == fresh_calls(all_calls.take(k as int), seen0).1,
        decreases calls@.len(),
    {
        let c = calls.remove(0);
        assert(c == all_calls[k as int]);
        assert(all_calls.take(k + 1).drop_last() =~= all_calls.take(k as int));
        assert(all_calls.take(k + 1).last() == c);
        let ghost prev_chunks = chunks@;
        let ghost prev_seen = seen@;
        match &c.id {
            Some(id) => {
                if !contains_string(seen, id) {
                    let idc = id.clone();
                    seen.push(idc);
                    chunks.push(StreamChunk::ToolCall(c));
                    assert(strings_view(seen@) =~= strings_view(prev_seen).push(id@));
                } else {
                }
            },
            None => {
                chunks.push(StreamChunk::ToolCall(c));
            },
        }
        assert(calls@ =~= all_calls.skip(k + 1));
        k = k + 1;
    }
    assert(all_calls.take(k as int) =~= all_calls);
    chunks
}

/// The id that a tool-call chunk carries, if any.
pub open spec fn chunk_call_id(c: StreamChunk) -> Option<Seq<char>> {
    match c {
        StreamChunk::ToolCall(call) => match call.id {
            Some(id) => Some(id@),
            None => None,
        },
        _ => None,
    }
}

/// Law: across a stream, a tool call with an id is reported at most once.
/// Every id reported for `calls` is new with respect to the ids `seen`
/// before, is remembered afterwards, and no two chunks carry the same id;
/// the ids remembered stay free of duplicates.
pub proof fn lemma_tool_call_ids_reported_once(calls: Seq<ToolCall>, seen: Seq<Seq<char>>)
    requires
        no_duplicates(seen),
    ensures
        no_duplicates(fresh_calls(calls, seen).1),
        forall|x: Seq<char>| seen.contains(x) ==> fresh_calls(calls, seen).1.contains(x),
        forall|i: int| 0 <= i < fresh_calls(calls, seen).0.len() ==>
            (#[trigger] fresh_calls(calls, seen).0[i]) is ToolCall,
        forall|i: int| 0 <= i < fresh_calls(calls, seen).0.len() ==>
            ((#[trigger] chunk_call_id(fresh_calls(calls, seen).0[i])) matches Some(id)
                ==> !seen.contains(id) && fresh_calls(calls, seen).1.contains(id)),
        forall|i: int, j: int| 0 <= i < j < fresh_calls(calls, seen).0.len()
            && chunk_call_id(fresh_calls(calls, seen).0[i]) is Some
            ==> chunk_call_id(fresh_calls(calls, seen).0[i]) != chunk_call_id(fresh_calls(calls, seen).0[j]),
    decreases calls.len(),
{
    if calls.len() > 0 {
        let d = calls.drop_last();
        lemma_tool_call_ids_reported_once(d, seen);
        let (prev, seen1) = fresh_calls(d, seen);
        let c = calls.last();
        let (out, seen2) = fresh_calls(calls, seen);
        match c.id {
            Some(id) => {
                if !seen1.contains(id@) {
                    assert forall|i: int, j: int| 0 <= i < j < seen2.len() implies seen2[i] != seen2[j] by {
                        if j == seen2.len() - 1 {
                            assert(seen2[j] == id@);
                            assert(seen1[i] == seen2[i]);
                        } else {
                            assert(seen1[i] == seen2[i] && seen1[j] == seen2[j]);
                        }
                    }
                    assert forall|x: Seq<char>| seen1.contains(x) implies seen2.contains(x) by {
                        lemma_push_contains(seen1, id@, x);
                    }
                    assert forall|i: int| 0 <= i < out.len() implies
                        ((#[trigger] chunk_call_id(out[i])) matches Some(x)
                            ==> !seen.contains(x) && seen2.contains(x)) by {
                        lemma_push_contains(seen1, id@, chunk_call_id(out[i])->0);
                        if i < prev.len() {
                            assert(out[i] == prev[i]);
                        } else {
                            assert(out[i] == StreamChunk::ToolCall(c));
                            if seen.contains(id@) {
                                assert(seen1.contains(id@));
                            }
                        }
                    }
                    assert forall|i: int, j: int| 0 <= i < j < out.len()
                        && chunk_call_id(out[i]) is Some
                        implies chunk_call_id(out[i]) != chunk_call_id(out[j]) by {
                        assert(out[i] == prev[i]);
                        if j == out.len() - 1 {
                            assert(out[j] == StreamChunk::ToolCall(c));
                            assert(chunk_call_id(prev[i]) matches Some(x) ==> seen1.contains(x));
                        } else {
                            assert(out[j] == prev[j]);
                        }
                    }
                }
            },
            None => {
                assert forall|i: int| 0 <= i < out.len() implies
                    ((#[trigger] chunk_call_id(out[i])) matches Some(x)
                        ==> !seen.contains(x) && seen2.contains(x)) by {
                    if i < prev.len() {
                        assert(out[i] == prev[i]);
                    }
                }
                assert forall|i: int, j: int| 0 <= i < j < out.len()
                    && chunk_call_id(out[i]) is Some
                    implies chunk_call_id(out[i]) != chunk_call_id(out[j]) by {
                    assert(out[i] == prev[i]);
                    if j < prev.len() {
                        assert(out[j] == prev[j]);
                    }
                }
            },
        }
    }
}

/// The text of the `Text` chunks, in order.
pub open spec fn chunks_text(chunks: Seq<StreamChunk>) -> Seq<char>
    decreases chunks.len(),
{
    if chunks.len() == 0 {
        Seq::empty()
    } else {
        chunks_text(chunks.drop_last()) + match chunks.last() {
            StreamChunk::Text { text, .. } => text@,
            _ => Seq::empty(),
        }
    }
}

/// The text of the `Thought` chunks, in order.
pub open spec fn chunks_thinking(chunks: Seq<StreamChunk>) -> Seq<char>
    decreases chunks.len(),
{
    if chunks.len() == 0 {
        Seq::empty()
    } else {
        chunks_thinking(chunks.drop_last()) + match chunks.last() {
            StreamChunk::Thought { text, .. } => text@,
            _ => Seq::empty(),
        }
    }
}

/// Concatenates the text of the `Text` chunks, as a chat response's text.
pub fn collect_text(chunks: &Vec<StreamChunk>) -> (s: String)
    ensures
        s@ == chunks_text(chunks@),
{
    let mut out = String::new();
    let mut i: usize = 0;
    while i < chunks.len()
        invariant
            i <= chunks@.len(),
            out@ == chunks_text(chunks@.take(i as int)),
        decreases chunks@.len() - i,
    {
        assert(chunks@.take(i + 1).drop_last() =~= chunks@.take(i as int));
        match &chunks[i] {
            StreamChunk::Text { text, .. } => { out.append(text.as_str()); },
            _ => {
                assert(out@ + Seq::<char>::empty() =~= out@);
            },
        }
        i = i + 1;
    }
    assert(chunks@.take(chunks@.len() as int) =~= chunks@);
    out
}

/// Concatenates the text of the `Thought` chunks, as a chat response's thinking.
pub fn collect_thinking(chunks: &Vec<StreamChunk>) -> (s: String)
    ensures
        s@ == chunks_thinking(chunks@),
{
    let mut out = String::new();
    let mut i: usize = 0;
    while i < chunks.len()
        invariant
            i <= chunks@.len(),
            out@ == chunks_thinking(chunks@.take(i as int)),
        decreases chunks@.len() - i,
    {
        assert(chunks@.take(i + 1).drop_last() =~= chunks@.take(i as int));
        match &chunks[i] {
            StreamChunk::Thought { text, .. } => { out.append(text.as_str()); },
            _ => {
                assert(out@ + Seq::<char>::empty() =~= out@);
            },
        }
        i = i + 1;
    }
    assert(chunks@.take(chunks@.len() as int) =~= chunks@);
    out
}

} // verus!
