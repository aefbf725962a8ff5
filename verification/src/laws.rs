//! What holds of every run, stated over the state machine of `state`.

use crate::document::{is_tracking_name, kept_pairs, normalized_text, text_without_tracking};
use crate::policy::admits;
use crate::state::{ActionView, CrawlState, Phase, StopReason};
use crate::text::{has_substring, lowercase_of, trimmed};
use crate::validity::{lemma_closed_valid, lemma_skipped_valid, lemma_started_valid};
use crate::web_url::{parsed_text, text_without_fragment};
use vstd::prelude::*;

verus! {

/// Dedup: no two targets handed out for fetching in one run share a
/// normalised URL, and the visited set holds exactly the normalised URLs of
/// the targets handed out.
pub proof fn lemma_one_claim_per_identity(s: CrawlState)
    requires
        s.valid(),
    ensures
        forall|a: int, b: int|
            0 <= a < s.claimed.len() && 0 <= b < s.claimed.len() && a != b ==> s.identity(
                (#[trigger] s.claimed[a]) as int,
            ) != s.identity((#[trigger] s.claimed[b]) as int),
        forall|n: Seq<char>|
            s.visited.contains(n) <==> exists|a: int|
                0 <= a < s.claimed.len() && s.identity((#[trigger] s.claimed[a]) as int) == n,
        forall|k: int|
            0 <= k < s.active.len() ==> s.claimed.contains((#[trigger] s.active[k]).ticket),
{
    assert forall|a: int, b: int|
        0 <= a < s.claimed.len() && 0 <= b < s.claimed.len() && a != b implies s.identity(
        (#[trigger] s.claimed[a]) as int,
    ) != s.identity((#[trigger] s.claimed[b]) as int) by {
        if a < b {
            assert(s.identity(s.claimed[a] as int) != s.identity(s.claimed[b] as int));
        } else {
            assert(s.identity(s.claimed[b] as int) != s.identity(s.claimed[a] as int));
        }
    }
    assert forall|n: Seq<char>|
        (exists|a: int|
            0 <= a < s.claimed.len() && s.identity((#[trigger] s.claimed[a]) as int)
                == n) implies s.visited.contains(n) by {
        let a = choose|a: int|
            0 <= a < s.claimed.len() && s.identity((#[trigger] s.claimed[a]) as int) == n;
        assert(s.visited.contains(s.identity(s.claimed[a] as int)));
    }
}

/// Dedup, step by step: a decision claims a target only if its normalised URL
/// was not visited, and records it as visited; a decision that hands out no
/// target claims nothing.
pub proof fn lemma_claim_is_test_and_insert(s: CrawlState)
    requires
        s.valid(),
    ensures
        match s.next().1 {
            ActionView::Fetch { ticket, url, delay_ms } => {
                &&& !s.visited.contains(normalized_text(url))
                &&& s.next().0.visited == s.visited.insert(normalized_text(url))
                &&& s.next().0.claimed == s.claimed.push(ticket)
            },
            _ => s.next().0.visited == s.visited && s.next().0.claimed == s.claimed,
        },
    decreases s.distance().0, s.distance().1, s.distance().2,
{
    match s.phase {
        Phase::Created => {
            lemma_started_valid(s);
            lemma_claim_is_test_and_insert(s.started());
        },
        Phase::Finished(reason) => {},
        Phase::Running => {
            if s.cursor < s.level_end {
                if s.active.len() >= s.limits.max_workers {
                } else if s.persisted >= s.limits.max_documents || s.visited.contains(
                    s.identity(s.cursor as int),
                ) {
                    lemma_skipped_valid(s);
                    lemma_claim_is_test_and_insert(s.skipped());
                } else {
                }
            } else if s.active.len() > 0 {
            } else {
                lemma_closed_valid(s);
                lemma_claim_is_test_and_insert(s.closed());
            }
        },
    }
}

/// What a run has gathered is never taken back by a decision: the frontier
/// and the list of claims are only appended to, the visited set only grows,
/// the level only rises, and the count of documents stays.
pub proof fn lemma_decisions_only_add(s: CrawlState)
    requires
        s.valid(),
    ensures
        s.frontier.is_prefix_of(s.next().0.frontier),
        s.claimed.is_prefix_of(s.next().0.claimed),
        s.visited.subset_of(s.next().0.visited),
        s.depth <= s.next().0.depth,
        s.persisted == s.next().0.persisted,
    decreases s.distance().0, s.distance().1, s.distance().2,
{
    let t = s.next().0;
    match s.phase {
        Phase::Created => {
            lemma_started_valid(s);
            lemma_decisions_only_add(s.started());
            assert(s.frontier.len() == 0);
        },
        Phase::Finished(reason) => {},
        Phase::Running => {
            if s.cursor < s.level_end {
                if s.active.len() >= s.limits.max_workers {
                } else if s.persisted >= s.limits.max_documents || s.visited.contains(
                    s.identity(s.cursor as int),
                ) {
                    lemma_skipped_valid(s);
                    lemma_decisions_only_add(s.skipped());
                } else {
                }
            } else if s.active.len() > 0 {
            } else {
                lemma_closed_valid(s);
                let c = s.closed();
                lemma_decisions_only_add(c);
                assert(s.frontier.is_prefix_of(c.frontier));
                assert(s.frontier =~= t.frontier.subrange(0, s.frontier.len() as int)) by {
                    assert(c.frontier =~= t.frontier.subrange(0, c.frontier.len() as int));
                }
            }
        },
    }
}

/// Nor by an event: a reported outcome leaves the frontier, the claims, the
/// visited set and the level as they are, and the count of documents never
/// falls.
pub proof fn lemma_events_only_add(
    s: CrawlState,
    ticket: nat,
    status: Option<u16>,
    body: Option<Seq<char>>,
    now: i64,
    ok: bool,
)
    ensures
        ({
            let t = s.responded(ticket, status).0;
            t.frontier == s.frontier && t.claimed == s.claimed && t.visited == s.visited && t.depth
                == s.depth && t.persisted == s.persisted
        }),
        ({
            let t = s.body_read(ticket, body, now).0;
            t.frontier == s.frontier && t.claimed == s.claimed && t.visited == s.visited && t.depth
                == s.depth && t.persisted == s.persisted
        }),
        ({
            let t = s.stored(ticket, ok).0;
            t.frontier == s.frontier && t.claimed == s.claimed && t.visited == s.visited && t.depth
                == s.depth && s.persisted <= t.persisted <= s.persisted + 1
        }),
{
}

/// Level ordering: every page in flight belongs to the current level, no
/// target deeper than the current level was ever handed out, and every target
/// of a shallower level was passed before the current level began.
pub proof fn lemma_level_barrier(s: CrawlState)
    requires
        s.valid(),
    ensures
        forall|k: int|
            0 <= k < s.active.len() ==> s.frontier[(#[trigger] s.active[k]).ticket as int].depth
                == s.depth,
        forall|a: int|
            0 <= a < s.claimed.len() ==> s.frontier[(#[trigger] s.claimed[a]) as int].depth
                <= s.depth,
        forall|i: int|
            0 <= i < s.frontier.len() && (#[trigger] s.frontier[i]).depth < s.depth ==> i
                < s.cursor,
{
    assert forall|k: int| 0 <= k < s.active.len() implies s.frontier[(
    #[trigger] s.active[k]).ticket as int].depth == s.depth by {
        assert(s.entry_valid(s.active[k]));
    }
    assert forall|a: int| 0 <= a < s.claimed.len() implies s.frontier[(
    #[trigger] s.claimed[a]) as int].depth <= s.depth by {
        let i = s.claimed[a] as int;
        assert(i < s.cursor);
        if i < s.level_start {
            assert(s.frontier[i].depth < s.depth);
        } else {
            assert(s.frontier[i].depth == s.depth);
        }
    }
    assert forall|i: int|
        0 <= i < s.frontier.len() && (#[trigger] s.frontier[i]).depth < s.depth implies i
        < s.cursor by {
        if i >= s.level_start {
            if i < s.level_end {
                assert(s.frontier[i].depth == s.depth);
            } else {
                assert(s.frontier[i].depth == s.depth + 1);
            }
        }
    }
}

/// Budget, from above: the documents stored and the pages in flight together
/// never exceed the budget by more than the number of workers; so neither
/// does the final count.
pub proof fn lemma_budget_slack(s: CrawlState)
    requires
        s.valid(),
    ensures
        s.persisted + s.active.len() <= s.limits.max_documents + s.limits.max_workers,
        s.persisted <= s.limits.max_documents + s.limits.max_workers,
{
}

/// Budget, from below: a run with a worker that ends short of its budget ran
/// out of targets or of depth. It ended because the level it came to holds no
/// target, or because every target of the deepest level was looked at.
pub proof fn lemma_short_run_ran_out(s: CrawlState)
    requires
        s.valid(),
        s.limits.max_workers >= 1,
        s.phase is Finished,
        s.persisted < s.limits.max_documents,
    ensures
        s.active.len() == 0,
        s.phase == Phase::Finished(StopReason::FrontierExhausted) || s.phase == Phase::Finished(
            StopReason::DepthReached,
        ),
        s.phase == Phase::Finished(StopReason::FrontierExhausted) ==> forall|i: int|
            0 <= i < s.frontier.len() ==> (#[trigger] s.frontier[i]).depth < s.depth,
        s.phase == Phase::Finished(StopReason::DepthReached) ==> s.depth == s.limits.max_depth
            && forall|i: int|
            0 <= i < s.frontier.len() && (#[trigger] s.frontier[i]).depth <= s.depth ==> i
                < s.cursor,
{
    match s.phase {
        Phase::Finished(StopReason::DepthReached) => {
            assert forall|i: int|
                0 <= i < s.frontier.len() && (#[trigger] s.frontier[i]).depth <= s.depth implies i
                < s.cursor by {
                if i >= s.level_end {
                    assert(s.frontier[i].depth == s.depth + 1);
                }
            }
        },
        _ => {},
    }
}

/// Without a worker nothing is fetched: such a run ends when it begins. It
/// stores nothing, claims nothing and leaves the seeds as they are.
pub proof fn lemma_no_worker_no_fetch(s: CrawlState)
    requires
        s.valid(),
        s.limits.max_workers == 0,
    ensures
        !(s.next().1 is Fetch),
        !(s.next().1 is Wait),
        s.next().0.phase is Finished,
        s.active.len() == 0,
        s.next().0.persisted == s.persisted,
        s.next().0.claimed == s.claimed,
{
    if s.phase is Created {
        lemma_started_valid(s);
        let t = s.started();
        assert(t.phase is Finished);
        assert(t.next().0 == t);
        assert(s.next() == t.next());
    } else {
        assert(s.phase is Finished);
        assert(s.next().0 == s);
    }
}

/// Admission: every target beyond the seeds was admitted by the policy, so it
/// holds none of the markers of administrative pages, and it carries the
/// policy's label.
pub proof fn lemma_frontier_admitted(s: CrawlState, i: int)
    requires
        s.valid(),
        0 <= i < s.frontier.len(),
        s.frontier[i].depth > 0,
    ensures
        admits(s.policy, s.frontier[i].url),
        s.frontier[i].source == s.policy.label,
        forall|m: int|
            0 <= m < s.policy.denied.len() ==> !has_substring(
                s.frontier[i].url,
                #[trigger] s.policy.denied[m],
            ),
{
}

/// Removing the tracking parameters a second time removes nothing, and none
/// is left after the first time.
pub proof fn lemma_kept_pairs_stable(pairs: Seq<(Seq<char>, Seq<char>)>)
    ensures
        kept_pairs(kept_pairs(pairs)) == kept_pairs(pairs),
        forall|i: int|
            0 <= i < kept_pairs(pairs).len() ==> !is_tracking_name(
                (#[trigger] kept_pairs(pairs)[i]).0,
            ),
    decreases pairs.len(),
{
    let pred = |p: (Seq<char>, Seq<char>)| !is_tracking_name(p.0);
    reveal(Seq::filter);
    if pairs.len() > 0 {
        lemma_kept_pairs_stable(pairs.drop_last());
        let before = kept_pairs(pairs.drop_last());
        if pred(pairs.last()) {
            before.lemma_filter_push(pairs.last(), pred);
        }
    }
}

/// A canonical form is settled if normalising leaves each of its parts alone:
/// either the parser returns it as it is, it has no fragment, its query is
/// what its own pairs rebuild, and it is in lowercase; or it is no URL, and
/// trimming and lowercasing do not change it.
pub open spec fn is_settled(text: Seq<char>) -> bool {
    match parsed_text(text) {
        Some(parsed) => {
            &&& parsed == text
            &&& text_without_fragment(text) == text
            &&& text_without_tracking(text) == text
            &&& lowercase_of(text) == text
        },
        None => trimmed(text) == text && lowercase_of(text) == text,
    }
}

/// Normalising twice gives what normalising once gives, for every input whose
/// canonical form is settled.
pub proof fn lemma_normalization_idempotent(raw: Seq<char>)
    requires
        is_settled(normalized_text(raw)),
    ensures
        normalized_text(normalized_text(raw)) == normalized_text(raw),
{
}

} // verus!
