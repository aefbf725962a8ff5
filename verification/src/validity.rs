//! Proofs that every step of the crawl keeps the state valid.

use crate::config::{Limits, SourceView};
use crate::policy::{admits, PolicyView};
use crate::document::assembled;
use crate::state::{
    admission, expansion, find_ticket, is_success, page_targets, seeds_of, source_seeds,
    ActionView, ActiveView, CrawlState, Phase, Stage,
};
use vstd::prelude::*;

verus! {

/// Every seed lies at depth zero.
pub proof fn lemma_seeds_at_depth_zero(sources: Seq<SourceView>)
    ensures
        forall|i: int| 0 <= i < seeds_of(sources).len() ==> (#[trigger] seeds_of(sources)[i]).depth == 0,
    decreases sources.len(),
{
    if sources.len() > 0 {
        lemma_seeds_at_depth_zero(sources.drop_last());
        let before = seeds_of(sources.drop_last());
        let last = source_seeds(sources.last());
        assert forall|i: int| 0 <= i < seeds_of(sources).len() implies (#[trigger] seeds_of(
            sources,
        )[i]).depth == 0 by {
            if i < before.len() {
                assert(seeds_of(sources)[i] == before[i]);
            } else {
                assert(seeds_of(sources)[i] == last[i - before.len()]);
            }
        }
    }
}

/// Every target of one page lies at the given depth, is admitted by the
/// policy and carries its label.
pub proof fn lemma_page_targets_admitted(policy: PolicyView, links: Seq<Seq<char>>, depth: nat)
    ensures
        forall|i: int|
            0 <= i < page_targets(policy, links, depth).len() ==> {
                let t = #[trigger] page_targets(policy, links, depth)[i];
                t.depth == depth && admits(policy, t.url) && t.source == policy.label
            },
{
    let considered = if links.len() <= policy.fanout {
        links
    } else {
        links.take(policy.fanout as int)
    };
    let pred = admission(policy);
    assert forall|i: int| 0 <= i < page_targets(policy, links, depth).len() implies {
        let t = #[trigger] page_targets(policy, links, depth)[i];
        t.depth == depth && admits(policy, t.url) && t.source == policy.label
    } by {
        considered.lemma_filter_pred(pred, i);
    }
}

/// Every target of an expansion lies at the given depth, is admitted by the
/// policy and carries its label.
pub proof fn lemma_expansion_admitted(policy: PolicyView, harvest: Seq<Seq<Seq<char>>>, depth: nat)
    ensures
        forall|i: int|
            0 <= i < expansion(policy, harvest, depth).len() ==> {
                let t = #[trigger] expansion(policy, harvest, depth)[i];
                t.depth == depth && admits(policy, t.url) && t.source == policy.label
            },
    decreases harvest.len(),
{
    if harvest.len() > 0 {
        lemma_expansion_admitted(policy, harvest.drop_last(), depth);
        lemma_page_targets_admitted(policy, harvest.last(), depth);
        let before = expansion(policy, harvest.drop_last(), depth);
        let last = page_targets(policy, harvest.last(), depth);
        assert forall|i: int| 0 <= i < expansion(policy, harvest, depth).len() implies {
            let t = #[trigger] expansion(policy, harvest, depth)[i];
            t.depth == depth && admits(policy, t.url) && t.source == policy.label
        } by {
            if i < before.len() {
                assert(expansion(policy, harvest, depth)[i] == before[i]);
            } else {
                assert(expansion(policy, harvest, depth)[i] == last[i - before.len()]);
            }
        }
    }
}

/// `find_ticket` finds the page with the ticket, and finds none only where
/// there is none.
pub proof fn lemma_find_ticket(active: Seq<ActiveView>, ticket: nat)
    ensures
        match find_ticket(active, ticket) {
            Some(k) => 0 <= k < active.len() && active[k].ticket == ticket,
            None => forall|k: int| 0 <= k < active.len() ==> (#[trigger] active[k]).ticket != ticket,
        },
    decreases active.len(),
{
    if active.len() > 0 {
        lemma_find_ticket(active.drop_last(), ticket);
        if find_ticket(active.drop_last(), ticket) is None {
            assert forall|k: int| 0 <= k < active.len() - 1 implies (#[trigger] active[k]).ticket
                != ticket by {
                assert(active.drop_last()[k] == active[k]);
            }
        }
    }
}

/// The first page with the ticket is the one that `find_ticket` finds.
pub proof fn lemma_find_ticket_first(active: Seq<ActiveView>, ticket: nat, k: int)
    requires
        0 <= k < active.len(),
        active[k].ticket == ticket,
        forall|j: int| 0 <= j < k ==> (#[trigger] active[j]).ticket != ticket,
    ensures
        find_ticket(active, ticket) == Some(k),
    decreases active.len(),
{
    lemma_find_ticket(active.drop_last(), ticket);
    if k < active.len() - 1 {
        assert(active.drop_last()[k] == active[k]);
        assert forall|j: int| 0 <= j < k implies (#[trigger] active.drop_last()[j]).ticket
            != ticket by {
            assert(active.drop_last()[j] == active[j]);
        }
        lemma_find_ticket_first(active.drop_last(), ticket, k);
    } else {
        if find_ticket(active.drop_last(), ticket) is Some {
            let j = find_ticket(active.drop_last(), ticket)->0;
            assert(active.drop_last()[j] == active[j]);
        }
    }
}

/// A fresh state is valid.
pub proof fn lemma_created_valid(limits: Limits, policy: PolicyView, sources: Seq<SourceView>)
    ensures
        CrawlState::created(limits, policy, sources).valid(),
{
}

/// Starting keeps the state valid.
pub proof fn lemma_started_valid(s: CrawlState)
    requires
        s.valid(),
    ensures
        s.started().valid(),
        !(s.started().phase is Created),
{
    if s.phase is Created {
        lemma_seeds_at_depth_zero(s.sources);
    }
}

/// Passing over a target keeps the state valid.
pub proof fn lemma_skipped_valid(s: CrawlState)
    requires
        s.valid(),
        s.phase is Running,
        s.cursor < s.level_end,
    ensures
        s.skipped().valid(),
{
    let t = s.skipped();
    assert forall|k: int| 0 <= k < t.active.len() implies t.entry_valid(#[trigger] t.active[k]) by {
        assert(s.entry_valid(s.active[k]));
    }
    assert forall|n: Seq<char>| #[trigger] t.visited.contains(n) implies exists|a: int|
        0 <= a < t.claimed.len() && t.identity((#[trigger] t.claimed[a]) as int) == n by {
        let a = choose|a: int|
            0 <= a < s.claimed.len() && s.identity((#[trigger] s.claimed[a]) as int) == n;
        assert(t.identity(t.claimed[a] as int) == n);
    }
}

/// Claiming the target at the cursor keeps the state valid.
pub proof fn lemma_dispatched_valid(s: CrawlState)
    requires
        s.valid(),
        s.phase is Running,
        s.cursor < s.level_end,
        s.active.len() < s.limits.max_workers,
        s.persisted < s.limits.max_documents,
        !s.visited.contains(s.identity(s.cursor as int)),
    ensures
        s.dispatched().valid(),
{
    let t = s.dispatched();
    let fresh = s.identity(s.cursor as int);
    assert forall|k: int| 0 <= k < t.active.len() implies t.entry_valid(#[trigger] t.active[k])
        && t.claimed.contains(t.active[k].ticket) by {
        if k < s.active.len() {
            assert(s.entry_valid(s.active[k]));
            let a = choose|a: int| 0 <= a < s.claimed.len() && s.claimed[a] == s.active[k].ticket;
            assert(t.claimed[a] == t.active[k].ticket);
        } else {
            assert(t.claimed[s.claimed.len() as int] == s.cursor);
        }
    }
    assert forall|k: int, l: int| 0 <= k < l < t.active.len() implies (#[trigger] t.active[k]).ticket
        != (#[trigger] t.active[l]).ticket by {
        assert(s.entry_valid(s.active[k]));
        if l < s.active.len() {
            assert(s.active[k].ticket != s.active[l].ticket);
        }
    }
    assert forall|a: int, b: int| 0 <= a < b < t.claimed.len() implies t.identity(
        (#[trigger] t.claimed[a]) as int,
    ) != t.identity((#[trigger] t.claimed[b]) as int) by {
        if b < s.claimed.len() {
            assert(s.identity(s.claimed[a] as int) != s.identity(s.claimed[b] as int));
        } else {
            assert(s.visited.contains(s.identity(s.claimed[a] as int)));
        }
    }
    assert forall|a: int| 0 <= a < t.claimed.len() implies t.visited.contains(
        t.identity((#[trigger] t.claimed[a]) as int),
    ) by {
        if a < s.claimed.len() {
            assert(s.visited.contains(s.identity(s.claimed[a] as int)));
        }
    }
    assert forall|n: Seq<char>| #[trigger] t.visited.contains(n) implies exists|a: int|
        0 <= a < t.claimed.len() && t.identity((#[trigger] t.claimed[a]) as int) == n by {
        if n == fresh {
            assert(t.identity(t.claimed[s.claimed.len() as int] as int) == n);
        } else {
            assert(s.visited.contains(n));
            let a = choose|a: int|
                0 <= a < s.claimed.len() && s.identity((#[trigger] s.claimed[a]) as int) == n;
            assert(t.identity(t.claimed[a] as int) == n);
        }
    }
    assert forall|a: int| 0 <= a < t.claimed.len() implies #[trigger] t.claimed[a] < t.cursor by {
        if a < s.claimed.len() {
            assert(s.claimed[a] < s.cursor);
        }
    }
}

/// Closing a drained level keeps the state valid.
pub proof fn lemma_closed_valid(s: CrawlState)
    requires
        s.valid(),
        s.phase is Running,
        s.cursor == s.level_end,
        s.active.len() == 0,
    ensures
        s.closed().valid(),
        !(s.closed().phase is Created),
        s.closed().phase is Running ==> s.closed().depth == s.depth + 1 && s.closed().cursor
            < s.closed().level_end,
{
    let t = s.closed();
    if s.persisted < s.limits.max_documents {
        let added = expansion(s.policy, s.harvest, s.depth + 1);
        lemma_expansion_admitted(s.policy, s.harvest, s.depth + 1);
        assert forall|i: int| 0 <= i < t.frontier.len() implies (if i < s.frontier.len() {
            (#[trigger] t.frontier[i]) == s.frontier[i]
        } else {
            t.frontier[i] == added[i - s.frontier.len()]
        }) by {}
        assert forall|i: int|
            0 <= i < t.frontier.len() && (#[trigger] t.frontier[i]).depth > 0 implies admits(
            t.policy,
            t.frontier[i].url,
        ) && t.frontier[i].source == t.policy.label by {
            if i < s.frontier.len() {
                assert(s.frontier[i].depth > 0);
            } else {
                assert(t.frontier[i] == added[i - s.frontier.len()]);
            }
        }
        assert forall|a: int, b: int| 0 <= a < b < t.claimed.len() implies t.identity(
            (#[trigger] t.claimed[a]) as int,
        ) != t.identity((#[trigger] t.claimed[b]) as int) by {
            assert(s.identity(s.claimed[a] as int) != s.identity(s.claimed[b] as int));
        }
        assert forall|a: int| 0 <= a < t.claimed.len() implies t.visited.contains(
            t.identity((#[trigger] t.claimed[a]) as int),
        ) by {
            assert(s.visited.contains(s.identity(s.claimed[a] as int)));
        }
        assert forall|n: Seq<char>| #[trigger] t.visited.contains(n) implies exists|a: int|
            0 <= a < t.claimed.len() && t.identity((#[trigger] t.claimed[a]) as int) == n by {
            let a = choose|a: int|
                0 <= a < s.claimed.len() && s.identity((#[trigger] s.claimed[a]) as int) == n;
            assert(t.identity(t.claimed[a] as int) == n);
        }
        assert forall|i: int| 0 <= i < t.level_start implies (#[trigger] t.frontier[i]).depth
            < t.depth by {
            assert(t.frontier[i] == s.frontier[i]);
        }
        assert forall|i: int| t.level_start <= i < t.level_end implies (#[trigger] t.frontier[i]).depth
            == t.depth by {
            if i < s.frontier.len() {
                assert(t.frontier[i] == s.frontier[i]);
            } else {
                assert(t.frontier[i] == added[i - s.frontier.len()]);
            }
        }
        assert forall|i: int| t.level_end <= i < t.frontier.len() implies (#[trigger] t.frontier[i]).depth
            == t.depth + 1 by {
            assert(t.frontier[i] == added[i - s.frontier.len()]);
        }
    }
}

/// What the next decision leaves behind, and what its action says of it.
pub proof fn lemma_next_valid(s: CrawlState)
    requires
        s.valid(),
    ensures
        s.next().0.valid(),
        !(s.next().0.phase is Created),
        match s.next().1 {
            ActionView::Fetch { ticket, url, delay_ms } => {
                &&& s.next().0.phase is Running
                &&& ticket < s.next().0.frontier.len()
                &&& ticket + 1 == s.next().0.cursor
                &&& url == s.next().0.frontier[ticket as int].url
                &&& s.next().0.frontier[ticket as int].depth == s.next().0.depth
                &&& find_ticket(s.next().0.active, ticket) is Some
            },
            ActionView::Wait => s.next().0.phase is Running && s.next().0.active.len() > 0,
            ActionView::Finished(reason) => s.next().0.phase == Phase::Finished(reason),
        },
    decreases s.distance().0, s.distance().1, s.distance().2,
{
    match s.phase {
        Phase::Created => {
            lemma_started_valid(s);
            lemma_next_valid(s.started());
        },
        Phase::Finished(reason) => {},
        Phase::Running => {
            if s.cursor < s.level_end {
                if s.active.len() >= s.limits.max_workers {
                } else if s.persisted >= s.limits.max_documents || s.visited.contains(
                    s.identity(s.cursor as int),
                ) {
                    lemma_skipped_valid(s);
                    lemma_next_valid(s.skipped());
                } else {
                    lemma_dispatched_valid(s);
                    let t = s.dispatched();
                    lemma_find_ticket(t.active, s.cursor);
                    assert(t.active[s.active.len() as int].ticket == s.cursor);
                }
            } else if s.active.len() > 0 {
            } else {
                lemma_closed_valid(s);
                lemma_next_valid(s.closed());
            }
        },
    }
}

/// The level changes only when no page is in flight.
pub proof fn lemma_level_changes_when_drained(s: CrawlState)
    requires
        s.valid(),
    ensures
        s.next().0.depth != s.depth ==> s.active.len() == 0,
    decreases s.distance().0, s.distance().1, s.distance().2,
{
    match s.phase {
        Phase::Created => {
            lemma_started_valid(s);
            lemma_level_changes_when_drained(s.started());
        },
        Phase::Finished(reason) => {},
        Phase::Running => {
            if s.cursor < s.level_end {
                if s.active.len() >= s.limits.max_workers {
                } else if s.persisted >= s.limits.max_documents || s.visited.contains(
                    s.identity(s.cursor as int),
                ) {
                    lemma_skipped_valid(s);
                    lemma_level_changes_when_drained(s.skipped());
                } else {
                }
            } else if s.active.len() > 0 {
            } else {
            }
        },
    }
}

/// Taking a page out of flight keeps the state valid.
pub proof fn lemma_released_valid(s: CrawlState, k: int)
    requires
        s.valid(),
        0 <= k < s.active.len(),
    ensures
        s.released(k).valid(),
{
    let t = s.released(k);
    assert forall|j: int| 0 <= j < t.active.len() implies #[trigger] t.active[j] == s.active[if j
        < k {
        j
    } else {
        j + 1
    }] by {}
    assert forall|j: int| 0 <= j < t.active.len() implies t.entry_valid(#[trigger] t.active[j])
        && t.claimed.contains(t.active[j].ticket) by {
        let i = if j < k {
            j
        } else {
            j + 1
        };
        assert(s.entry_valid(s.active[i]));
        assert(s.claimed.contains(s.active[i].ticket));
    }
    assert forall|j: int, l: int| 0 <= j < l < t.active.len() implies (#[trigger] t.active[j]).ticket
        != (#[trigger] t.active[l]).ticket by {
        let i = if j < k {
            j
        } else {
            j + 1
        };
        let m = if l < k {
            l
        } else {
            l + 1
        };
        assert(s.active[i].ticket != s.active[m].ticket);
    }
    lemma_same_claims(s, t);
}

/// The facts about claimed tickets carry over to a state with the same
/// frontier, cursor, claims and visited set.
proof fn lemma_same_claims(s: CrawlState, t: CrawlState)
    requires
        s.valid(),
        t.frontier == s.frontier,
        t.claimed == s.claimed,
        t.visited == s.visited,
        t.cursor == s.cursor,
    ensures
        forall|a: int| 0 <= a < t.claimed.len() ==> #[trigger] t.claimed[a] < t.cursor,
        forall|a: int, b: int|
            0 <= a < b < t.claimed.len() ==> t.identity((#[trigger] t.claimed[a]) as int)
                != t.identity((#[trigger] t.claimed[b]) as int),
        forall|a: int|
            0 <= a < t.claimed.len() ==> t.visited.contains(
                t.identity((#[trigger] t.claimed[a]) as int),
            ),
        forall|n: Seq<char>| #[trigger]
            t.visited.contains(n) ==> exists|a: int|
                0 <= a < t.claimed.len() && t.identity((#[trigger] t.claimed[a]) as int) == n,
{
    assert forall|a: int, b: int| 0 <= a < b < t.claimed.len() implies t.identity(
        (#[trigger] t.claimed[a]) as int,
    ) != t.identity((#[trigger] t.claimed[b]) as int) by {
        assert(s.identity(s.claimed[a] as int) != s.identity(s.claimed[b] as int));
    }
    assert forall|a: int| 0 <= a < t.claimed.len() implies t.visited.contains(
        t.identity((#[trigger] t.claimed[a]) as int),
    ) by {
        assert(s.visited.contains(s.identity(s.claimed[a] as int)));
    }
    assert forall|n: Seq<char>| #[trigger] t.visited.contains(n) implies exists|a: int|
        0 <= a < t.claimed.len() && t.identity((#[trigger] t.claimed[a]) as int) == n by {
        let a = choose|a: int|
            0 <= a < s.claimed.len() && s.identity((#[trigger] s.claimed[a]) as int) == n;
        assert(t.identity(t.claimed[a] as int) == n);
    }
}

/// Moving a page in flight on to its next stage keeps the state valid.
pub proof fn lemma_advanced_valid(s: CrawlState, k: int, entry: ActiveView)
    requires
        s.valid(),
        0 <= k < s.active.len(),
        entry.ticket == s.active[k].ticket,
        s.entry_valid(entry),
    ensures
        s.advanced(k, entry).valid(),
{
    let t = s.advanced(k, entry);
    assert forall|j: int| 0 <= j < t.active.len() implies t.entry_valid(#[trigger] t.active[j])
        && t.claimed.contains(t.active[j].ticket) by {
        assert(s.entry_valid(s.active[j]));
        assert(s.claimed.contains(s.active[j].ticket));
    }
    assert forall|j: int, l: int| 0 <= j < l < t.active.len() implies (#[trigger] t.active[j]).ticket
        != (#[trigger] t.active[l]).ticket by {
        assert(s.active[j].ticket != s.active[l].ticket);
    }
    lemma_same_claims(s, t);
}

/// A reported response keeps the state valid.
pub proof fn lemma_responded_valid(s: CrawlState, ticket: nat, status: Option<u16>)
    requires
        s.valid(),
    ensures
        s.responded(ticket, status).0.valid(),
{
    lemma_find_ticket(s.active, ticket);
    match find_ticket(s.active, ticket) {
        Some(k) => {
            assert(s.entry_valid(s.active[k]));
            if s.active[k].stage is Fetching {
                if status is Some && is_success(status->0) {
                    lemma_advanced_valid(
                        s,
                        k,
                        ActiveView { ticket, stage: Stage::Reading, document: None },
                    );
                } else {
                    lemma_released_valid(s, k);
                }
            }
        },
        None => {},
    }
}

/// A reported body keeps the state valid.
pub proof fn lemma_body_read_valid(s: CrawlState, ticket: nat, body: Option<Seq<char>>, now: i64)
    requires
        s.valid(),
    ensures
        s.body_read(ticket, body, now).0.valid(),
{
    lemma_find_ticket(s.active, ticket);
    match find_ticket(s.active, ticket) {
        Some(k) => {
            assert(s.entry_valid(s.active[k]));
            if s.active[k].stage is Reading {
                if body is Some {
                    let doc = assembled(
                        s.frontier[ticket as int].url,
                        body->0,
                        s.frontier[ticket as int].source,
                        now,
                    );
                    lemma_advanced_valid(
                        s,
                        k,
                        ActiveView { ticket, stage: Stage::Storing, document: Some(doc) },
                    );
                } else {
                    lemma_released_valid(s, k);
                }
            }
        },
        None => {},
    }
}

/// A reported store result keeps the state valid.
pub proof fn lemma_stored_valid(s: CrawlState, ticket: nat, ok: bool)
    requires
        s.valid(),
    ensures
        s.stored(ticket, ok).0.valid(),
{
    lemma_find_ticket(s.active, ticket);
    match find_ticket(s.active, ticket) {
        Some(k) => {
            if s.active[k].stage is Storing && s.active[k].document is Some {
                lemma_released_valid(s, k);
                if ok {
                    let r = s.released(k);
                    let t = s.stored(ticket, ok).0;
                    assert forall|j: int| 0 <= j < t.active.len() implies t.entry_valid(
                        #[trigger] t.active[j],
                    ) by {
                        assert(r.entry_valid(r.active[j]));
                    }
                    lemma_same_claims(r, t);
                }
            }
        },
        None => {},
    }
}

} // verus!
