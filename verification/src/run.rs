//! Whole runs: what holds after any sequence of decisions and reported
//! events, and what a run has done when it ends short of its budget although
//! every page answered.

use crate::policy::PolicyView;
use crate::state::{
    expansion, find_ticket, is_success, page_links, page_targets, seeds_of, CrawlState, Phase,
    StopReason,
};
use crate::validity::{
    lemma_body_read_valid, lemma_closed_valid, lemma_find_ticket, lemma_next_valid,
    lemma_responded_valid, lemma_skipped_valid, lemma_started_valid, lemma_stored_valid,
};
use vstd::prelude::*;

verus! {

/// One call of the driver.
pub enum Event {
    /// It asks what to do next.
    Decide,
    /// It reports the response to a request.
    Responded { ticket: nat, status: Option<u16> },
    /// It reports the body of a response.
    BodyRead { ticket: nat, body: Option<Seq<char>>, now: i64 },
    /// It reports the answer of the store.
    Stored { ticket: nat, ok: bool },
}

/// The state after one call.
pub open spec fn after(s: CrawlState, event: Event) -> CrawlState {
    match event {
        Event::Decide => s.next().0,
        Event::Responded { ticket, status } => s.responded(ticket, status).0,
        Event::BodyRead { ticket, body, now } => s.body_read(ticket, body, now).0,
        Event::Stored { ticket, ok } => s.stored(ticket, ok).0,
    }
}

/// The state after a sequence of calls.
pub open spec fn run(s: CrawlState, events: Seq<Event>) -> CrawlState
    decreases events.len(),
{
    if events.len() == 0 {
        s
    } else {
        after(run(s, events.drop_last()), events.last())
    }
}

/// The call reports no failure: a response has a status of the success
/// class, a body was decoded, the store has stored.
pub open spec fn reports_success(event: Event) -> bool {
    match event {
        Event::Decide => true,
        Event::Responded { ticket, status } => status is Some && is_success(status->0),
        Event::BodyRead { ticket, body, now } => body is Some,
        Event::Stored { ticket, ok } => ok,
    }
}

/// Nothing was lost so far: while the budget is not reached, every target
/// that was looked at has its normalised URL among those visited, and every
/// target claimed is stored or still in flight.
pub open spec fn thorough(s: CrawlState) -> bool {
    &&& s.persisted < s.limits.max_documents ==> forall|i: int|
        0 <= i < s.cursor ==> s.visited.contains(#[trigger] s.identity(i))
    &&& s.persisted + s.active.len() == s.claimed.len()
}

/// Every link that stored page number `p` contributes is queued, one level
/// below the page.
pub open spec fn page_queued(s: CrawlState, p: int) -> bool {
    forall|j: int|
        0 <= j < page_links(s.policy, s.pages[p].links).len() ==> link_queued(
            s,
            #[trigger] page_links(s.policy, s.pages[p].links)[j],
            s.frontier[s.pages[p].ticket as int].depth + 1,
        )
}

/// `url` is queued at level `depth`.
pub open spec fn link_queued(s: CrawlState, url: Seq<char>, depth: nat) -> bool {
    exists|i: int|
        0 <= i < s.frontier.len() && (#[trigger] s.frontier[i]).url == url && s.frontier[i].depth
            == depth
}

/// How many stored pages belong to levels that are closed.
pub open spec fn pages_closed(s: CrawlState) -> int {
    s.pages.len() - s.harvest.len()
}

/// The frontier follows the pages: it begins with the seeds; the links of
/// every page of a closed level are queued; the pages of the open level are
/// those whose links are harvested.
pub open spec fn linked(s: CrawlState) -> bool {
    &&& s.pages.len() == s.persisted
    &&& s.harvest.len() <= s.pages.len()
    &&& !(s.phase is Created) ==> seeds_of(s.sources).is_prefix_of(s.frontier)
    &&& forall|q: int|
        0 <= q < s.harvest.len() ==> {
            let page = #[trigger] s.pages[pages_closed(s) + q];
            &&& page.links == s.harvest[q]
            &&& page.ticket < s.frontier.len()
            &&& s.frontier[page.ticket as int].depth == s.depth
        }
    &&& forall|p: int| 0 <= p < pages_closed(s) ==> #[trigger] page_queued(s, p)
    &&& forall|p: int| 0 <= p < s.pages.len() ==> (#[trigger] s.pages[p]).ticket < s.frontier.len()
    &&& s.phase is Finished && s.phase != Phase::Finished(StopReason::BudgetReached)
        ==> s.harvest.len() == 0
}

/// Every target of a harvested page is among those of the level's expansion.
proof fn lemma_expansion_holds_page(
    policy: PolicyView,
    harvest: Seq<Seq<Seq<char>>>,
    depth: nat,
    q: int,
    j: int,
)
    requires
        0 <= q < harvest.len(),
        0 <= j < page_targets(policy, harvest[q], depth).len(),
    ensures
        exists|i: int|
            0 <= i < expansion(policy, harvest, depth).len() && #[trigger] expansion(
                policy,
                harvest,
                depth,
            )[i] == page_targets(policy, harvest[q], depth)[j],
    decreases harvest.len(),
{
    let all = expansion(policy, harvest, depth);
    let before = expansion(policy, harvest.drop_last(), depth);
    if q == harvest.len() - 1 {
        assert(all[before.len() + j] == page_targets(policy, harvest[q], depth)[j]);
    } else {
        assert(harvest.drop_last()[q] == harvest[q]);
        lemma_expansion_holds_page(policy, harvest.drop_last(), depth, q, j);
        let i = choose|i: int|
            0 <= i < before.len() && #[trigger] before[i] == page_targets(
                policy,
                harvest[q],
                depth,
            )[j];
        assert(all[i] == before[i]);
    }
}

/// A queued link stays queued when the frontier is appended to.
proof fn lemma_queued_stays(s: CrawlState, t: CrawlState, p: int)
    requires
        s.frontier.is_prefix_of(t.frontier),
        s.pages.is_prefix_of(t.pages),
        s.policy == t.policy,
        0 <= p < s.pages.len(),
        s.pages[p].ticket < s.frontier.len(),
        page_queued(s, p),
    ensures
        page_queued(t, p),
{
    assert(t.pages[p] == s.pages[p]);
    assert(t.frontier[s.pages[p].ticket as int] == s.frontier[s.pages[p].ticket as int]);
    assert forall|j: int| 0 <= j < page_links(t.policy, t.pages[p].links).len() implies link_queued(
        t,
        #[trigger] page_links(t.policy, t.pages[p].links)[j],
        t.frontier[t.pages[p].ticket as int].depth + 1,
    ) by {
        let url = page_links(s.policy, s.pages[p].links)[j];
        let depth = s.frontier[s.pages[p].ticket as int].depth + 1;
        assert(link_queued(s, url, depth));
        let i = choose|i: int|
            0 <= i < s.frontier.len() && (#[trigger] s.frontier[i]).url == url
                && s.frontier[i].depth == depth;
        assert(t.frontier[i] == s.frontier[i]);
    }
}

/// Closing a level keeps the frontier linked to the pages.
proof fn lemma_closed_linked(s: CrawlState)
    requires
        s.valid(),
        linked(s),
        s.phase is Running,
        s.cursor == s.level_end,
        s.active.len() == 0,
    ensures
        linked(s.closed()),
{
    let t = s.closed();
    if s.persisted < s.limits.max_documents {
        let depth = (s.depth + 1) as nat;
        let added = expansion(s.policy, s.harvest, depth);
        assert(s.frontier.is_prefix_of(t.frontier));
        assert(seeds_of(s.sources) =~= t.frontier.subrange(0, seeds_of(s.sources).len() as int));
        assert forall|p: int| 0 <= p < pages_closed(t) implies #[trigger] page_queued(t, p) by {
            if p < pages_closed(s) {
                lemma_queued_stays(s, t, p);
            } else {
                let q = p - pages_closed(s);
                let page = s.pages[pages_closed(s) + q];
                assert(page.links == s.harvest[q]);
                assert(t.frontier[page.ticket as int] == s.frontier[page.ticket as int]);
                assert forall|j: int|
                    0 <= j < page_links(t.policy, t.pages[p].links).len() implies link_queued(
                    t,
                    #[trigger] page_links(t.policy, t.pages[p].links)[j],
                    t.frontier[t.pages[p].ticket as int].depth + 1,
                ) by {
                    lemma_expansion_holds_page(s.policy, s.harvest, depth, q, j);
                    let i = choose|i: int|
                        0 <= i < added.len() && #[trigger] added[i] == page_targets(
                            s.policy,
                            s.harvest[q],
                            depth,
                        )[j];
                    assert(t.frontier[s.frontier.len() + i] == added[i]);
                }
            }
        }
    } else {
        assert forall|p: int| 0 <= p < pages_closed(t) implies #[trigger] page_queued(t, p) by {
            lemma_queued_stays(s, t, p);
        }
    }
}

/// A decision keeps the frontier linked to the pages.
proof fn lemma_next_linked(s: CrawlState)
    requires
        s.valid(),
        linked(s),
    ensures
        linked(s.next().0),
    decreases s.distance().0, s.distance().1, s.distance().2,
{
    match s.phase {
        Phase::Created => {
            lemma_started_valid(s);
            let t = s.started();
            assert(seeds_of(t.sources) =~= t.frontier.subrange(0, seeds_of(t.sources).len() as int));
            lemma_next_linked(t);
        },
        Phase::Finished(reason) => {},
        Phase::Running => {
            if s.cursor < s.level_end {
                if s.active.len() >= s.limits.max_workers {
                } else if s.persisted >= s.limits.max_documents || s.visited.contains(
                    s.identity(s.cursor as int),
                ) {
                    lemma_skipped_valid(s);
                    let t = s.skipped();
                    assert forall|p: int| 0 <= p < pages_closed(t) implies #[trigger] page_queued(
                        t,
                        p,
                    ) by {
                        lemma_queued_stays(s, t, p);
                    }
                    lemma_next_linked(t);
                } else {
                    let t = s.dispatched();
                    assert forall|p: int| 0 <= p < pages_closed(t) implies #[trigger] page_queued(
                        t,
                        p,
                    ) by {
                        lemma_queued_stays(s, t, p);
                    }
                }
            } else if s.active.len() > 0 {
            } else {
                lemma_closed_valid(s);
                lemma_closed_linked(s);
                lemma_next_linked(s.closed());
            }
        },
    }
}

/// Every call keeps the frontier linked to the pages.
pub proof fn lemma_step_linked(s: CrawlState, event: Event)
    requires
        s.valid(),
        linked(s),
    ensures
        linked(after(s, event)),
{
    let t = after(s, event);
    match event {
        Event::Decide => {
            lemma_next_linked(s);
        },
        Event::Responded { ticket, status } => {
            assert forall|p: int| 0 <= p < pages_closed(t) implies #[trigger] page_queued(t, p) by {
                lemma_queued_stays(s, t, p);
            }
        },
        Event::BodyRead { ticket, body, now } => {
            assert forall|p: int| 0 <= p < pages_closed(t) implies #[trigger] page_queued(t, p) by {
                lemma_queued_stays(s, t, p);
            }
        },
        Event::Stored { ticket, ok } => {
            lemma_find_ticket(s.active, ticket);
            assert forall|p: int| 0 <= p < pages_closed(t) implies #[trigger] page_queued(t, p) by {
                lemma_queued_stays(s, t, p);
            }
            match find_ticket(s.active, ticket) {
                Some(k) => {
                    assert(s.entry_valid(s.active[k]));
                    if s.active[k].stage is Storing && s.active[k].document is Some && ok {
                        assert(pages_closed(t) == pages_closed(s));
                        assert forall|q: int| 0 <= q < t.harvest.len() implies {
                            let page = #[trigger] t.pages[pages_closed(t) + q];
                            &&& page.links == t.harvest[q]
                            &&& page.ticket < t.frontier.len()
                            &&& t.frontier[page.ticket as int].depth == t.depth
                        } by {
                            if q < s.harvest.len() {
                                assert(t.pages[pages_closed(t) + q] == s.pages[pages_closed(s)
                                    + q]);
                            }
                        }
                    }
                },
                None => {},
            }
        },
    }
}

/// Every call keeps the state valid.
pub proof fn lemma_step_valid(s: CrawlState, event: Event)
    requires
        s.valid(),
    ensures
        after(s, event).valid(),
{
    match event {
        Event::Decide => lemma_next_valid(s),
        Event::Responded { ticket, status } => lemma_responded_valid(s, ticket, status),
        Event::BodyRead { ticket, body, now } => lemma_body_read_valid(s, ticket, body, now),
        Event::Stored { ticket, ok } => lemma_stored_valid(s, ticket, ok),
    }
}

/// Whatever the driver reports and in whatever order, the state stays valid:
/// the dedup, level and budget laws hold at every moment of every run.
pub proof fn lemma_run_valid(s: CrawlState, events: Seq<Event>)
    requires
        s.valid(),
    ensures
        run(s, events).valid(),
        run(s, events).persisted <= s.limits.max_documents + s.limits.max_workers,
        run(s, events).limits == s.limits,
        run(s, events).policy == s.policy,
    decreases events.len(),
{
    if events.len() > 0 {
        lemma_run_valid(s, events.drop_last());
        let mid = run(s, events.drop_last());
        lemma_step_valid(mid, events.last());
        lemma_step_keeps_settings(mid, events.last());
    }
}

/// No call changes the limits or the policy.
pub proof fn lemma_step_keeps_settings(s: CrawlState, event: Event)
    requires
        s.valid(),
    ensures
        after(s, event).limits == s.limits,
        after(s, event).policy == s.policy,
        after(s, event).sources == s.sources,
{
    match event {
        Event::Decide => lemma_next_keeps_settings(s),
        _ => {},
    }
}

proof fn lemma_next_keeps_settings(s: CrawlState)
    requires
        s.valid(),
    ensures
        s.next().0.limits == s.limits,
        s.next().0.policy == s.policy,
        s.next().0.sources == s.sources,
    decreases s.distance().0, s.distance().1, s.distance().2,
{
    match s.phase {
        Phase::Created => {
            lemma_started_valid(s);
            lemma_next_keeps_settings(s.started());
        },
        Phase::Finished(reason) => {},
        Phase::Running => {
            if s.cursor < s.level_end {
                if s.active.len() >= s.limits.max_workers {
                } else if s.persisted >= s.limits.max_documents || s.visited.contains(
                    s.identity(s.cursor as int),
                ) {
                    lemma_skipped_valid(s);
                    lemma_next_keeps_settings(s.skipped());
                } else {
                }
            } else if s.active.len() > 0 {
            } else {
                lemma_closed_valid(s);
                lemma_next_keeps_settings(s.closed());
            }
        },
    }
}

/// A decision loses nothing.
proof fn lemma_next_thorough(s: CrawlState)
    requires
        s.valid(),
        thorough(s),
    ensures
        thorough(s.next().0),
    decreases s.distance().0, s.distance().1, s.distance().2,
{
    match s.phase {
        Phase::Created => {
            lemma_started_valid(s);
            lemma_next_thorough(s.started());
        },
        Phase::Finished(reason) => {},
        Phase::Running => {
            if s.cursor < s.level_end {
                if s.active.len() >= s.limits.max_workers {
                } else if s.persisted >= s.limits.max_documents || s.visited.contains(
                    s.identity(s.cursor as int),
                ) {
                    lemma_skipped_valid(s);
                    let t = s.skipped();
                    assert forall|i: int| 0 <= i < t.cursor && t.persisted
                        < t.limits.max_documents implies t.visited.contains(
                        #[trigger] t.identity(i),
                    ) by {
                        if i < s.cursor {
                            assert(s.visited.contains(s.identity(i)));
                        }
                    }
                    lemma_next_thorough(t);
                } else {
                    let t = s.dispatched();
                    assert forall|i: int| 0 <= i < t.cursor implies t.visited.contains(
                        #[trigger] t.identity(i),
                    ) by {
                        if i < s.cursor {
                            assert(s.visited.contains(s.identity(i)));
                        }
                    }
                }
            } else if s.active.len() > 0 {
            } else {
                lemma_closed_valid(s);
                let t = s.closed();
                assert forall|i: int| 0 <= i < t.cursor && t.persisted
                    < t.limits.max_documents implies t.visited.contains(
                    #[trigger] t.identity(i),
                ) by {
                    assert(s.visited.contains(s.identity(i)));
                    assert(t.frontier[i] == s.frontier[i]);
                }
                lemma_next_thorough(t);
            }
        },
    }
}

/// A call that reports no failure loses nothing.
pub proof fn lemma_step_thorough(s: CrawlState, event: Event)
    requires
        s.valid(),
        thorough(s),
        reports_success(event),
    ensures
        thorough(after(s, event)),
{
    let t = after(s, event);
    match event {
        Event::Decide => {
            lemma_next_thorough(s);
        },
        Event::Responded { ticket, status } => {
            lemma_find_ticket(s.active, ticket);
            assert forall|i: int| 0 <= i < t.cursor && t.persisted
                < t.limits.max_documents implies t.visited.contains(#[trigger] t.identity(i)) by {
                assert(s.visited.contains(s.identity(i)));
            }
        },
        Event::BodyRead { ticket, body, now } => {
            lemma_find_ticket(s.active, ticket);
            assert forall|i: int| 0 <= i < t.cursor && t.persisted
                < t.limits.max_documents implies t.visited.contains(#[trigger] t.identity(i)) by {
                assert(s.visited.contains(s.identity(i)));
            }
        },
        Event::Stored { ticket, ok } => {
            lemma_find_ticket(s.active, ticket);
            assert forall|i: int| 0 <= i < t.cursor && t.persisted
                < t.limits.max_documents implies t.visited.contains(#[trigger] t.identity(i)) by {
                assert(s.visited.contains(s.identity(i)));
            }
        },
    }
}

/// The frontier stays linked to the pages throughout every run.
pub proof fn lemma_run_linked(s: CrawlState, events: Seq<Event>)
    requires
        s.valid(),
        linked(s),
    ensures
        run(s, events).valid(),
        linked(run(s, events)),
    decreases events.len(),
{
    if events.len() > 0 {
        lemma_run_linked(s, events.drop_last());
        lemma_step_valid(run(s, events.drop_last()), events.last());
        lemma_step_linked(run(s, events.drop_last()), events.last());
    }
}

/// A run in which no failure is reported loses nothing.
pub proof fn lemma_run_thorough(s: CrawlState, events: Seq<Event>)
    requires
        s.valid(),
        thorough(s),
        forall|k: int| 0 <= k < events.len() ==> reports_success(#[trigger] events[k]),
    ensures
        run(s, events).valid(),
        thorough(run(s, events)),
    decreases events.len(),
{
    if events.len() > 0 {
        let before = events.drop_last();
        assert forall|k: int| 0 <= k < before.len() implies reports_success(
            #[trigger] before[k],
        ) by {
            assert(before[k] == events[k]);
        }
        lemma_run_thorough(s, before);
        lemma_step_valid(run(s, before), events.last());
        lemma_step_thorough(run(s, before), events.last());
    }
}

/// The budget, from below, over a whole run. Take a run with a worker, from
/// a fresh state, in which every page answers: no failure is reported. If it is over with
/// fewer documents than the budget, then it ran out of targets:
///
/// - the frontier begins with the seeds, and for every page stored, each of
///   the links that the page contributes is queued one level below it: the
///   frontier holds whatever is reachable from the seeds;
/// - every target queued within the permitted depth has its normalised URL
///   among those claimed;
/// - every claim was stored, and no two claims share a normalised URL.
///
/// So the targets reachable within the permitted depth hold exactly as many
/// distinct normalised URLs as documents were stored, fewer than the budget.
/// A run that can reach more does not stop short.
pub proof fn lemma_answered_run_fills_budget(s: CrawlState, events: Seq<Event>)
    requires
        s.valid(),
        s.phase is Created,
        s.limits.max_workers >= 1,
        forall|k: int| 0 <= k < events.len() ==> reports_success(#[trigger] events[k]),
        run(s, events).phase is Finished,
        run(s, events).persisted < s.limits.max_documents,
    ensures
        ({
            let t = run(s, events);
            &&& seeds_of(s.sources).is_prefix_of(t.frontier)
            &&& t.pages.len() == t.persisted == t.claimed.len()
            &&& forall|p: int| 0 <= p < t.pages.len() ==> #[trigger] page_queued(t, p)
            &&& forall|i: int|
                0 <= i < t.frontier.len() && (#[trigger] t.frontier[i]).depth
                    <= t.limits.max_depth ==> exists|a: int|
                    0 <= a < t.claimed.len() && t.identity((#[trigger] t.claimed[a]) as int)
                        == t.identity(i)
            &&& forall|a: int, b: int|
                0 <= a < b < t.claimed.len() ==> t.identity((#[trigger] t.claimed[a]) as int)
                    != t.identity((#[trigger] t.claimed[b]) as int)
        }),
{
    lemma_run_valid(s, events);
    lemma_run_thorough(s, events);
    lemma_run_linked(s, events);
    lemma_run_keeps_sources(s, events);
    let t = run(s, events);
    assert forall|i: int|
        0 <= i < t.frontier.len() && (#[trigger] t.frontier[i]).depth
            <= t.limits.max_depth implies exists|a: int|
        0 <= a < t.claimed.len() && t.identity((#[trigger] t.claimed[a]) as int) == t.identity(
            i,
        ) by {
        if i >= t.level_end {
            assert(t.frontier[i].depth == t.depth + 1);
        }
        assert(i < t.cursor);
        assert(t.visited.contains(t.identity(i)));
    }
}

/// No run changes the sources.
proof fn lemma_run_keeps_sources(s: CrawlState, events: Seq<Event>)
    requires
        s.valid(),
    ensures
        run(s, events).sources == s.sources,
    decreases events.len(),
{
    if events.len() > 0 {
        lemma_run_keeps_sources(s, events.drop_last());
        lemma_run_valid(s, events.drop_last());
        lemma_step_keeps_settings(run(s, events.drop_last()), events.last());
    }
}

} // verus!
