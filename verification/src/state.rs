//! The crawl as a state machine over mathematical values: what the
//! orchestrator holds, how each decision and each reported event changes it,
//! and what stays true throughout a run.

use crate::config::{Limits, SourceView};
use crate::document::{assembled, normalized_text, DocumentView};
use crate::html_parser::extracted_links;
use crate::policy::{admits, PolicyView};
use vstd::prelude::*;

verus! {

/// Why a run ended.
#[derive(Debug, Clone, Copy, PartialEq, Eq, Structural)]
pub enum StopReason {
    /// As many documents are stored as the run aimed for.
    BudgetReached,
    /// The next level holds no target.
    FrontierExhausted,
    /// The deepest permitted level has drained.
    DepthReached,
    /// There are targets, but the configuration allows no page in flight.
    NoWorkers,
}

/// Where a run stands.
#[derive(Debug, Clone, Copy, PartialEq, Eq, Structural)]
pub enum Phase {
    /// Built, with no target queued yet.
    Created,
    /// Working through the levels.
    Running,
    /// Over.
    Finished(StopReason),
}

/// How far a page in flight has come.
#[derive(Debug, Clone, Copy, PartialEq, Eq, Structural)]
pub enum Stage {
    /// The request is out; the response is awaited.
    Fetching,
    /// The response was a success; its body is being read.
    Reading,
    /// The document was handed to the store.
    Storing,
}

/// A frontier element as the contracts see it.
pub struct TargetView {
    pub url: Seq<char>,
    pub depth: nat,
    pub source: Seq<char>,
}

/// A page in flight as the contracts see it.
pub struct ActiveView {
    /// The position of its target in the frontier.
    pub ticket: nat,
    pub stage: Stage,
    /// The document built from its body, once that is read.
    pub document: Option<DocumentView>,
}

/// A page that was stored, as the contracts see it.
pub struct StoredPage {
    /// The position of its target in the frontier.
    pub ticket: nat,
    /// The links that were read from it.
    pub links: Seq<Seq<char>>,
}

/// What the orchestrator asks its driver to do next.
pub enum ActionView {
    Fetch { ticket: nat, url: Seq<char>, delay_ms: u64 },
    Wait,
    Finished(StopReason),
}

/// What the orchestrator answers to a reported event.
pub enum ReplyView {
    ReadBody,
    Persist(DocumentView),
    Recorded { count: nat },
    Dropped,
    Unknown,
}

/// The whole state of a run.
pub struct CrawlState {
    pub limits: Limits,
    pub policy: PolicyView,
    pub sources: Seq<SourceView>,
    /// Every target queued so far, level after level.
    pub frontier: Seq<TargetView>,
    /// The current level is `frontier[level_start..level_end]`.
    pub level_start: nat,
    pub level_end: nat,
    /// The next target of the level that has not been looked at.
    pub cursor: nat,
    pub depth: nat,
    /// The pages in flight.
    pub active: Seq<ActiveView>,
    /// The links of each page stored in this level, in order of completion.
    pub harvest: Seq<Seq<Seq<char>>>,
    /// The normalised URLs claimed for fetching.
    pub visited: Set<Seq<char>>,
    /// The tickets handed out for fetching, in order.
    pub claimed: Seq<nat>,
    /// The pages stored in the run, in order of completion.
    pub pages: Seq<StoredPage>,
    /// How many documents were stored.
    pub persisted: nat,
    pub phase: Phase,
}

/// The seeds of one source: each of its start URLs, at depth zero.
pub open spec fn source_seeds(source: SourceView) -> Seq<TargetView> {
    Seq::new(
        source.start_urls.len(),
        |i: int| TargetView { url: source.start_urls[i], depth: 0, source: source.name },
    )
}

/// The seeds of all sources, source after source.
pub open spec fn seeds_of(sources: Seq<SourceView>) -> Seq<TargetView>
    decreases sources.len(),
{
    if sources.len() == 0 {
        Seq::empty()
    } else {
        seeds_of(sources.drop_last()) + source_seeds(sources.last())
    }
}

/// The test that the policy applies to a link.
pub open spec fn admission(policy: PolicyView) -> spec_fn(Seq<char>) -> bool {
    |url: Seq<char>| admits(policy, url)
}

/// The target made of an admitted link for level `depth`.
pub open spec fn target_maker(policy: PolicyView, depth: nat) -> spec_fn(Seq<char>) -> TargetView {
    |url: Seq<char>| TargetView { url, depth, source: policy.label }
}

/// The links of one page that enter the frontier: of its first `fanout`
/// links, those that the policy admits.
pub open spec fn page_links(policy: PolicyView, links: Seq<Seq<char>>) -> Seq<Seq<char>> {
    let considered = if links.len() <= policy.fanout {
        links
    } else {
        links.take(policy.fanout as int)
    };
    considered.filter(admission(policy))
}

/// The targets that one page contributes to level `depth`.
pub open spec fn page_targets(policy: PolicyView, links: Seq<Seq<char>>, depth: nat) -> Seq<
    TargetView,
> {
    page_links(policy, links).map_values(target_maker(policy, depth))
}

/// The targets that the pages of a level contribute to level `depth`, page
/// after page.
pub open spec fn expansion(policy: PolicyView, harvest: Seq<Seq<Seq<char>>>, depth: nat) -> Seq<
    TargetView,
>
    decreases harvest.len(),
{
    if harvest.len() == 0 {
        Seq::empty()
    } else {
        expansion(policy, harvest.drop_last(), depth) + page_targets(policy, harvest.last(), depth)
    }
}

/// The position in `active` of the page with this ticket.
pub open spec fn find_ticket(active: Seq<ActiveView>, ticket: nat) -> Option<int>
    decreases active.len(),
{
    if active.len() == 0 {
        None
    } else {
        match find_ticket(active.drop_last(), ticket) {
            Some(k) => Some(k),
            None => if active.last().ticket == ticket {
                Some(active.len() - 1)
            } else {
                None
            },
        }
    }
}

/// A status code of the success class.
pub open spec fn is_success(status: u16) -> bool {
    200 <= status < 300
}

impl CrawlState {
    /// The state of a run that has not begun.
    pub open spec fn created(limits: Limits, policy: PolicyView, sources: Seq<SourceView>) -> Self {
        CrawlState {
            limits,
            policy,
            sources,
            frontier: Seq::empty(),
            level_start: 0,
            level_end: 0,
            cursor: 0,
            depth: 0,
            active: Seq::empty(),
            harvest: Seq::empty(),
            visited: Set::empty(),
            claimed: Seq::empty(),
            pages: Seq::empty(),
            persisted: 0,
            phase: Phase::Created,
        }
    }

    /// The canonical form of the URL of target `i`.
    pub open spec fn identity(self, i: int) -> Seq<char> {
        normalized_text(self.frontier[i].url)
    }

    /// What holds of the state at every moment of a run.
    pub open spec fn valid(self) -> bool {
        &&& self.phase is Running ==> self.limits.max_workers >= 1
        &&& self.phase == Phase::Finished(StopReason::NoWorkers) ==> self.limits.max_workers == 0
            && self.cursor == 0
        &&& self.level_start <= self.cursor <= self.level_end <= self.frontier.len()
        &&& self.depth <= self.limits.max_depth
        &&& forall|i: int|
            0 <= i < self.level_start ==> (#[trigger] self.frontier[i]).depth < self.depth
        &&& forall|i: int|
            self.level_start <= i < self.level_end ==> (#[trigger] self.frontier[i]).depth
                == self.depth
        &&& forall|i: int|
            self.level_end <= i < self.frontier.len() ==> (#[trigger] self.frontier[i]).depth
                == self.depth + 1
        &&& forall|i: int|
            0 <= i < self.frontier.len() && (#[trigger] self.frontier[i]).depth > 0 ==> admits(
                self.policy,
                self.frontier[i].url,
            ) && self.frontier[i].source == self.policy.label
        &&& self.phase is Running ==> self.frontier.len() == self.level_end
        &&& self.phase is Created ==> self == Self::created(self.limits, self.policy, self.sources)
        &&& self.phase is Finished ==> self.active.len() == 0
        &&& self.phase == Phase::Finished(StopReason::BudgetReached) ==> self.persisted
            >= self.limits.max_documents
        &&& self.phase == Phase::Finished(StopReason::FrontierExhausted) ==> self.level_start
            == self.level_end == self.frontier.len()
        &&& self.phase == Phase::Finished(StopReason::DepthReached) ==> self.depth
            == self.limits.max_depth && self.cursor == self.level_end
        &&& self.active.len() <= self.limits.max_workers
        &&& self.persisted + self.active.len() <= self.claimed.len() <= self.cursor
        &&& self.persisted + self.active.len() <= self.limits.max_documents
            + self.limits.max_workers
        &&& forall|k: int|
            0 <= k < self.active.len() ==> self.claimed.contains((#[trigger] self.active[k]).ticket)
        &&& forall|k: int, l: int|
            0 <= k < l < self.active.len() ==> (#[trigger] self.active[k]).ticket
                != (#[trigger] self.active[l]).ticket
        &&& forall|k: int|
            0 <= k < self.active.len() ==> self.entry_valid(#[trigger] self.active[k])
        &&& forall|a: int| 0 <= a < self.claimed.len() ==> #[trigger] self.claimed[a] < self.cursor
        &&& forall|a: int, b: int|
            0 <= a < b < self.claimed.len() ==> self.identity(
                (#[trigger] self.claimed[a]) as int,
            ) != self.identity((#[trigger] self.claimed[b]) as int)
        &&& forall|a: int|
            0 <= a < self.claimed.len() ==> self.visited.contains(
                self.identity((#[trigger] self.claimed[a]) as int),
            )
        &&& forall|n: Seq<char>| #[trigger]
            self.visited.contains(n) ==> exists|a: int|
                0 <= a < self.claimed.len() && self.identity((#[trigger] self.claimed[a]) as int)
                    == n
    }

    /// A page in flight belongs to the current level and carries a document
    /// exactly when it is being stored, built from its own target.
    pub open spec fn entry_valid(self, entry: ActiveView) -> bool {
        &&& self.level_start <= entry.ticket < self.cursor
        &&& entry.stage is Storing <==> entry.document is Some
        &&& entry.document matches Some(doc) ==> doc == assembled(
            self.frontier[entry.ticket as int].url,
            doc.html_content,
            self.frontier[entry.ticket as int].source,
            doc.crawled_at,
        )
    }

    /// A run begins: the seeds form level zero. With a budget of zero the run
    /// is over at once, and so it is without seeds, and so it is where there
    /// are seeds but no page may be in flight.
    pub open spec fn started(self) -> Self {
        if self.phase is Created {
            let seeds = seeds_of(self.sources);
            CrawlState {
                frontier: seeds,
                level_end: seeds.len(),
                phase: if self.limits.max_documents == 0 {
                    Phase::Finished(StopReason::BudgetReached)
                } else if seeds.len() == 0 {
                    Phase::Finished(StopReason::FrontierExhausted)
                } else if self.limits.max_workers == 0 {
                    Phase::Finished(StopReason::NoWorkers)
                } else {
                    Phase::Running
                },
                ..self
            }
        } else {
            self
        }
    }

    /// A drained level is closed. At or over budget the run ends and the
    /// frontier stays as it is. Otherwise the links harvested in the level
    /// become the next level; the run ends if that was the deepest level, or
    /// if the next level is empty.
    pub open spec fn closed(self) -> Self {
        if self.persisted >= self.limits.max_documents {
            CrawlState { phase: Phase::Finished(StopReason::BudgetReached), ..self }
        } else {
            let grown = self.frontier + expansion(self.policy, self.harvest, self.depth + 1);
            if self.depth >= self.limits.max_depth {
                CrawlState {
                    frontier: grown,
                    harvest: Seq::empty(),
                    phase: Phase::Finished(StopReason::DepthReached),
                    ..self
                }
            } else {
                CrawlState {
                    frontier: grown,
                    harvest: Seq::empty(),
                    depth: self.depth + 1,
                    level_start: self.level_end,
                    level_end: grown.len(),
                    phase: if grown.len() == self.level_end {
                        Phase::Finished(StopReason::FrontierExhausted)
                    } else {
                        Phase::Running
                    },
                    ..self
                }
            }
        }
    }

    /// The target at the cursor is passed over.
    pub open spec fn skipped(self) -> Self {
        CrawlState { cursor: self.cursor + 1, ..self }
    }

    /// The target at the cursor is claimed and goes in flight.
    pub open spec fn dispatched(self) -> Self {
        CrawlState {
            cursor: self.cursor + 1,
            visited: self.visited.insert(self.identity(self.cursor as int)),
            claimed: self.claimed.push(self.cursor),
            active: self.active.push(
                ActiveView { ticket: self.cursor, stage: Stage::Fetching, document: None },
            ),
            ..self
        }
    }

    /// How far the next decision is from being made.
    pub open spec fn distance(self) -> (int, int, int) {
        (
            match self.phase {
                Phase::Created => 2,
                Phase::Running => 1,
                Phase::Finished(_) => 0,
            },
            self.limits.max_depth - self.depth,
            self.level_end - self.cursor,
        )
    }

    /// The next decision. While the level has targets left and a worker is
    /// free, targets are taken in order: one is passed over if the budget is
    /// reached or its normalised URL was claimed before, else it is claimed
    /// and fetched. With no worker free, or with the level's last pages still
    /// in flight, the driver waits. A drained level is closed and the next one
    /// begun.
    pub open spec fn next(self) -> (Self, ActionView)
        decreases self.distance().0, self.distance().1, self.distance().2,
    {
        match self.phase {
            Phase::Created => self.started().next(),
            Phase::Finished(reason) => (self, ActionView::Finished(reason)),
            Phase::Running => if self.cursor < self.level_end {
                if self.active.len() >= self.limits.max_workers {
                    (self, ActionView::Wait)
                } else if self.persisted >= self.limits.max_documents || self.visited.contains(
                    self.identity(self.cursor as int),
                ) {
                    self.skipped().next()
                } else {
                    (
                        self.dispatched(),
                        ActionView::Fetch {
                            ticket: self.cursor,
                            url: self.frontier[self.cursor as int].url,
                            delay_ms: self.limits.delay_ms,
                        },
                    )
                }
            } else if self.active.len() > 0 {
                (self, ActionView::Wait)
            } else {
                self.closed().next()
            },
        }
    }

    /// The state without the page at position `k` of those in flight.
    pub open spec fn released(self, k: int) -> Self {
        CrawlState { active: self.active.remove(k), ..self }
    }

    /// The state with the page at position `k` moved to `entry`.
    pub open spec fn advanced(self, k: int, entry: ActiveView) -> Self {
        CrawlState { active: self.active.update(k, entry), ..self }
    }

    /// A request has come back, with a status or with a transport error. A
    /// success has its body read; anything else ends the page.
    pub open spec fn responded(self, ticket: nat, status: Option<u16>) -> (Self, ReplyView) {
        match find_ticket(self.active, ticket) {
            Some(k) => if !(self.active[k].stage is Fetching) {
                (self, ReplyView::Unknown)
            } else if status is Some && is_success(status->0) {
                (
                    self.advanced(
                        k,
                        ActiveView { ticket, stage: Stage::Reading, document: None },
                    ),
                    ReplyView::ReadBody,
                )
            } else {
                (self.released(k), ReplyView::Dropped)
            },
            None => (self, ReplyView::Unknown),
        }
    }

    /// A body was read at time `now`, or could not be decoded. A body becomes
    /// a document, which is to be stored; a failure ends the page.
    pub open spec fn body_read(self, ticket: nat, body: Option<Seq<char>>, now: i64) -> (
        Self,
        ReplyView,
    ) {
        match find_ticket(self.active, ticket) {
            Some(k) => if !(self.active[k].stage is Reading) {
                (self, ReplyView::Unknown)
            } else if body is Some {
                let doc = assembled(
                    self.frontier[ticket as int].url,
                    body->0,
                    self.frontier[ticket as int].source,
                    now,
                );
                (
                    self.advanced(
                        k,
                        ActiveView { ticket, stage: Stage::Storing, document: Some(doc) },
                    ),
                    ReplyView::Persist(doc),
                )
            } else {
                (self.released(k), ReplyView::Dropped)
            },
            None => (self, ReplyView::Unknown),
        }
    }

    /// The store has answered. A stored document is counted and its links are
    /// harvested; a store error ends the page.
    pub open spec fn stored(self, ticket: nat, ok: bool) -> (Self, ReplyView) {
        match find_ticket(self.active, ticket) {
            Some(k) => if !(self.active[k].stage is Storing) || self.active[k].document is None {
                (self, ReplyView::Unknown)
            } else if ok {
                let doc = self.active[k].document->0;
                (
                    CrawlState {
                        persisted: self.persisted + 1,
                        harvest: self.harvest.push(extracted_links(doc.html_content, doc.url)),
                        pages: self.pages.push(
                            StoredPage {
                                ticket,
                                links: extracted_links(doc.html_content, doc.url),
                            },
                        ),
                        ..self.released(k)
                    },
                    ReplyView::Recorded { count: self.persisted + 1 },
                )
            } else {
                (self.released(k), ReplyView::Dropped)
            },
            None => (self, ReplyView::Unknown),
        }
    }
}

} // verus!
