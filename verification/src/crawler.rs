//! The crawl orchestrator: the frontier, the visited set, the document budget
//! and the pages in flight, driven one decision at a time.
//!
//! The orchestrator performs no I/O. Its driver asks `next_action` what to do,
//! fetches and stores as told, and reports what happened with `responded`,
//! `body_read` and `stored`. Each call is one atomic step, so the driver may
//! run many fetches at once as long as it makes its calls one after another.

use crate::config::{sources_view, Config, SourceConfig};
use crate::document::{current_timestamp, Document};
use crate::html_parser::HtmlParser;
use crate::policy::{admits, standard_policy, AdmissionPolicy};
use crate::state::{
    admission, expansion, find_ticket, page_targets, seeds_of, source_seeds, target_maker,
    ActionView, ActiveView, CrawlState, Phase, ReplyView, Stage, StopReason, StoredPage,
    TargetView,
};
use crate::validity::{
    lemma_body_read_valid, lemma_closed_valid, lemma_created_valid, lemma_dispatched_valid,
    lemma_find_ticket, lemma_find_ticket_first, lemma_level_changes_when_drained,
    lemma_next_valid, lemma_responded_valid, lemma_skipped_valid, lemma_started_valid,
    lemma_stored_valid,
};
use vstd::hash_set::StringHashSet;
use vstd::prelude::*;

verus! {

/// A URL waiting to be fetched.
#[derive(Debug, Clone)]
pub struct CrawlTarget {
    /// The URL as it was discovered.
    pub url: String,
    /// Its distance from a seed.
    pub depth: u64,
    /// The name of the source it is counted under.
    pub source: String,
}

impl View for CrawlTarget {
    type V = TargetView;

    open spec fn view(&self) -> TargetView {
        TargetView { url: self.url@, depth: self.depth as nat, source: self.source@ }
    }
}

/// The targets of a list of targets.
pub open spec fn targets_view(targets: Seq<CrawlTarget>) -> Seq<TargetView> {
    targets.map_values(|t: CrawlTarget| t@)
}

/// What the driver is to do next.
#[derive(Debug)]
pub enum Action {
    /// Wait `delay_ms` milliseconds, request `url`, and report the outcome
    /// under `ticket`.
    Fetch { ticket: usize, url: String, delay_ms: u64 },
    /// Nothing can start now: report the outcome of a page in flight first.
    Wait,
    /// The run is over.
    Finished(StopReason),
}

impl View for Action {
    type V = ActionView;

    open spec fn view(&self) -> ActionView {
        match self {
            Action::Fetch { ticket, url, delay_ms } => ActionView::Fetch {
                ticket: *ticket as nat,
                url: url@,
                delay_ms: *delay_ms,
            },
            Action::Wait => ActionView::Wait,
            Action::Finished(reason) => ActionView::Finished(*reason),
        }
    }
}

/// What the driver is to do with a page after it reported an event.
#[derive(Debug)]
pub enum Reply {
    /// Read the body of the response and report it.
    ReadBody,
    /// Hand the document to the store and report whether it was stored.
    Persist(Document),
    /// The page is done and counted; `count` documents are stored now.
    Recorded { count: usize },
    /// The page has failed and is done; it contributes nothing.
    Dropped,
    /// No page in flight has this ticket at this stage; nothing changed.
    Unknown,
}

impl View for Reply {
    type V = ReplyView;

    open spec fn view(&self) -> ReplyView {
        match self {
            Reply::ReadBody => ReplyView::ReadBody,
            Reply::Persist(doc) => ReplyView::Persist(doc@),
            Reply::Recorded { count } => ReplyView::Recorded { count: *count as nat },
            Reply::Dropped => ReplyView::Dropped,
            Reply::Unknown => ReplyView::Unknown,
        }
    }
}

/// A page in flight.
struct ActiveFetch {
    ticket: usize,
    stage: Stage,
    document: Option<Document>,
}

impl View for ActiveFetch {
    type V = ActiveView;

    closed spec fn view(&self) -> ActiveView {
        ActiveView {
            ticket: self.ticket as nat,
            stage: self.stage,
            document: match self.document {
                Some(doc) => Some(doc@),
                None => None,
            },
        }
    }
}

/// The state of one crawl run.
pub struct Crawler {
    config: Config,
    policy: AdmissionPolicy,
    frontier: Vec<CrawlTarget>,
    level_start: usize,
    level_end: usize,
    cursor: usize,
    depth: u32,
    active: Vec<ActiveFetch>,
    harvest: Vec<Vec<String>>,
    visited: StringHashSet,
    claimed: Ghost<Seq<nat>>,
    pages: Ghost<Seq<StoredPage>>,
    document_count: usize,
    phase: Phase,
}

impl View for Crawler {
    type V = CrawlState;

    closed spec fn view(&self) -> CrawlState {
        CrawlState {
            limits: self.config.crawler@,
            policy: self.policy@,
            sources: sources_view(self.config.sources@),
            frontier: targets_view(self.frontier@),
            level_start: self.level_start as nat,
            level_end: self.level_end as nat,
            cursor: self.cursor as nat,
            depth: self.depth as nat,
            active: self.active@.map_values(|a: ActiveFetch| a@),
            harvest: self.harvest.deep_view(),
            visited: self.visited@,
            claimed: self.claimed@,
            pages: self.pages@,
            persisted: self.document_count as nat,
            phase: self.phase,
        }
    }
}

/// The seeds of one source, appended to `targets`.
fn append_seeds(targets: &mut Vec<CrawlTarget>, source: &SourceConfig)
    ensures
        targets_view(final(targets)@) == targets_view(old(targets)@) + source_seeds(source@),
{
    let ghost before = targets_view(targets@);
    let mut j: usize = 0;
    assert(source_seeds(source@).take(0) =~= Seq::empty());
    while j < source.start_urls.len()
        invariant
            j <= source.start_urls.len(),
            targets_view(targets@) == before + source_seeds(source@).take(j as int),
        decreases source.start_urls.len() - j,
    {
        let target = CrawlTarget {
            url: source.start_urls[j].clone(),
            depth: 0,
            source: source.name.clone(),
        };
        proof {
            assert(source_seeds(source@).take(j + 1) =~= source_seeds(source@).take(j as int).push(
                target@,
            ));
            assert(targets_view(targets@.push(target)) =~= targets_view(targets@).push(target@));
        }
        targets.push(target);
        j += 1;
    }
    assert(source_seeds(source@).take(j as int) =~= source_seeds(source@));
}

/// The seeds of all `sources`: every start URL of every source, at depth zero
/// and under the source's name.
fn seed_targets(sources: &Vec<SourceConfig>) -> (targets: Vec<CrawlTarget>)
    ensures
        targets_view(targets@) == seeds_of(sources_view(sources@)),
{
    let mut targets: Vec<CrawlTarget> = Vec::new();
    let mut i: usize = 0;
    assert(sources_view(sources@).take(0) =~= Seq::empty());
    assert(targets_view(targets@) =~= Seq::empty());
    while i < sources.len()
        invariant
            i <= sources.len(),
            targets_view(targets@) == seeds_of(sources_view(sources@).take(i as int)),
        decreases sources.len() - i,
    {
        proof {
            let next = sources_view(sources@).take(i + 1);
            assert(next.drop_last() =~= sources_view(sources@).take(i as int));
            assert(next.last() == sources[i as int]@);
        }
        append_seeds(&mut targets, &sources[i]);
        i += 1;
    }
    assert(sources_view(sources@).take(i as int) =~= sources_view(sources@));
    targets
}

/// The targets that a page with these `links` contributes to level `depth`,
/// appended to `targets`.
fn append_page(
    targets: &mut Vec<CrawlTarget>,
    policy: &AdmissionPolicy,
    links: &Vec<String>,
    depth: u64,
)
    ensures
        targets_view(final(targets)@) == targets_view(old(targets)@) + page_targets(
            policy@,
            links.deep_view(),
            depth as nat,
        ),
{
    let ghost before = targets_view(targets@);
    let ghost pred = admission(policy@);
    let ghost make = target_maker(policy@, depth as nat);
    let considered: usize = if links.len() <= policy.fanout {
        links.len()
    } else {
        policy.fanout
    };
    let mut j: usize = 0;
    proof {
        reveal(Seq::filter);
        assert(links.deep_view().take(0) =~= Seq::empty());
        assert(before + Seq::<Seq<char>>::empty().filter(pred).map_values(make) =~= before);
    }
    while j < considered
        invariant
            j <= considered <= links.len(),
            pred == admission(policy@),
            make == target_maker(policy@, depth as nat),
            targets_view(targets@) == before + links.deep_view().take(j as int).filter(
                pred,
            ).map_values(make),
        decreases considered - j,
    {
        let ghost seen = links.deep_view().take(j as int);
        let ghost link = links.deep_view()[j as int];
        proof {
            assert(links.deep_view().take(j + 1) =~= seen.push(link));
            seen.lemma_filter_push(link, pred);
        }
        if policy.admits(links[j].as_str()) {
            let target = CrawlTarget {
                url: links[j].clone(),
                depth,
                source: policy.label.clone(),
            };
            proof {
                assert(targets_view(targets@.push(target)) =~= targets_view(targets@).push(
                    target@,
                ));
                assert(seen.filter(pred).push(link).map_values(make) =~= seen.filter(
                    pred,
                ).map_values(make).push(make(link)));
            }
            targets.push(target);
        }
        j += 1;
    }
    proof {
        if links.len() <= policy.fanout {
            assert(links.deep_view().take(j as int) =~= links.deep_view());
        }
    }
}

/// The targets that the pages of a level contribute to level `depth`,
/// appended to `targets`.
fn append_level(
    targets: &mut Vec<CrawlTarget>,
    policy: &AdmissionPolicy,
    harvest: &Vec<Vec<String>>,
    depth: u64,
)
    ensures
        targets_view(final(targets)@) == targets_view(old(targets)@) + expansion(
            policy@,
            harvest.deep_view(),
            depth as nat,
        ),
{
    let ghost before = targets_view(targets@);
    let mut p: usize = 0;
    proof {
        assert(harvest.deep_view().take(0) =~= Seq::empty());
        assert(before + Seq::<TargetView>::empty() =~= before);
    }
    while p < harvest.len()
        invariant
            p <= harvest.len(),
            targets_view(targets@) == before + expansion(
                policy@,
                harvest.deep_view().take(p as int),
                depth as nat,
            ),
        decreases harvest.len() - p,
    {
        proof {
            let next = harvest.deep_view().take(p + 1);
            assert(next.drop_last() =~= harvest.deep_view().take(p as int));
            assert(next.last() == harvest[p as int].deep_view());
        }
        let ghost so_far = targets_view(targets@);
        append_page(targets, policy, &harvest[p], depth);
        proof {
            let done = expansion(policy@, harvest.deep_view().take(p as int), depth as nat);
            let page = page_targets(policy@, harvest[p as int].deep_view(), depth as nat);
            assert((before + done) + page =~= before + (done + page));
        }
        p += 1;
    }
    assert(harvest.deep_view().take(p as int) =~= harvest.deep_view());
}

impl Crawler {
    /// The state is one that a run can be in.
    pub open spec fn wf(&self) -> bool {
        self@.valid()
    }

    /// The configuration that the crawler was made for.
    pub closed spec fn settings(&self) -> Config {
        self.config
    }

    /// A crawler for `config` with the policy of this deployment: nothing
    /// queued, nothing visited, nothing stored, nothing in flight.
    pub fn new(config: Config) -> (crawler: Crawler)
        ensures
            crawler.wf(),
            crawler.settings() == config,
            crawler@ == CrawlState::created(
                config.crawler@,
                standard_policy(),
                sources_view(config.sources@),
            ),
    {
        Self::with_policy(config, AdmissionPolicy::standard())
    }

    /// A crawler for `config` that admits links by `policy`: nothing queued,
    /// nothing visited, nothing stored, nothing in flight.
    pub fn with_policy(config: Config, policy: AdmissionPolicy) -> (crawler: Crawler)
        ensures
            crawler.wf(),
            crawler.settings() == config,
            crawler@ == CrawlState::created(config.crawler@, policy@, sources_view(config.sources@)),
    {
        let crawler = Crawler {
            config,
            policy,
            frontier: Vec::new(),
            level_start: 0,
            level_end: 0,
            cursor: 0,
            depth: 0,
            active: Vec::new(),
            harvest: Vec::new(),
            visited: StringHashSet::new(),
            claimed: Ghost(Seq::empty()),
            pages: Ghost(Seq::empty()),
            document_count: 0,
            phase: Phase::Created,
        };
        proof {
            let made = CrawlState::created(config.crawler@, policy@, sources_view(config.sources@));
            lemma_created_valid(config.crawler@, policy@, sources_view(config.sources@));
            assert(crawler@.frontier =~= made.frontier);
            assert(crawler@.active =~= made.active);
            assert(crawler@.harvest =~= made.harvest);
            assert(crawler@ == made);
        }
        crawler
    }

    /// The configuration that the crawler was made for.
    pub fn config(&self) -> (config: &Config)
        ensures
            *config == self.settings(),
    {
        &self.config
    }

    /// Begins the run: queues every start URL of every source at depth zero.
    /// A run that has begun is left as it is.
    pub fn start(&mut self)
        requires
            old(self).wf(),
        ensures
            final(self).wf(),
            final(self).settings() == old(self).settings(),
            final(self)@ == old(self)@.started(),
    {
        proof {
            lemma_started_valid(self@);
        }
        match self.phase {
            Phase::Created => {
                self.frontier = seed_targets(&self.config.sources);
                self.level_end = self.frontier.len();
                self.phase = if self.config.crawler.max_documents == 0 {
                    Phase::Finished(StopReason::BudgetReached)
                } else if self.level_end == 0 {
                    Phase::Finished(StopReason::FrontierExhausted)
                } else if self.config.crawler.max_workers == 0 {
                    Phase::Finished(StopReason::NoWorkers)
                } else {
                    Phase::Running
                };
                assert(self@ == old(self)@.started());
            },
            _ => {},
        }
    }

    /// Closes the drained level and begins the next one, or ends the run.
    fn close_level(&mut self)
        requires
            old(self).wf(),
            old(self)@.phase is Running,
            old(self)@.cursor == old(self)@.level_end,
            old(self)@.active.len() == 0,
        ensures
            final(self).wf(),
            final(self).settings() == old(self).settings(),
            final(self)@ == old(self)@.closed(),
    {
        proof {
            lemma_closed_valid(self@);
        }
        if self.document_count >= self.config.crawler.max_documents {
            self.phase = Phase::Finished(StopReason::BudgetReached);
            assert(self@ == old(self)@.closed());
            return ;
        }
        let next_depth: u64 = self.depth as u64 + 1;
        append_level(&mut self.frontier, &self.policy, &self.harvest, next_depth);
        self.harvest = Vec::new();
        assert(self.harvest.deep_view() =~= Seq::empty());
        if self.depth >= self.config.crawler.max_depth {
            self.phase = Phase::Finished(StopReason::DepthReached);
        } else {
            self.depth = self.depth + 1;
            self.level_start = self.level_end;
            self.level_end = self.frontier.len();
            self.phase = if self.level_end == self.level_start {
                Phase::Finished(StopReason::FrontierExhausted)
            } else {
                Phase::Running
            };
        }
        assert(self@ == old(self)@.closed());
    }

    /// Decides what the driver does next. See `CrawlState::next` for the rule;
    /// in short: hand out the next target of the current level that is still
    /// within budget and was not claimed before, unless all workers are busy;
    /// close the level once all its pages have come back.
    ///
    /// A target is handed out only from the current level, and the level
    /// changes only when no page is in flight. `Wait` is returned only while
    /// a page is in flight, so reporting its outcome always leads on.
    pub fn next_action(&mut self) -> (action: Action)
        requires
            old(self).wf(),
        ensures
            final(self).wf(),
            final(self).settings() == old(self).settings(),
            (final(self)@, action@) == old(self)@.next(),
            action is Wait ==> final(self)@.active.len() > 0,
            action matches Action::Fetch { ticket, .. } ==> final(self)@.frontier[ticket as int].depth
                == final(self)@.depth && find_ticket(final(self)@.active, ticket as nat) is Some,
            final(self)@.depth != old(self)@.depth ==> old(self)@.active.len() == 0,
    {
        proof {
            lemma_next_valid(self@);
            lemma_level_changes_when_drained(self@);
        }
        loop
            invariant
                self.wf(),
                self.settings() == old(self).settings(),
                self@.next() == old(self)@.next(),
                old(self)@.next().0.depth != old(self)@.depth ==> old(self)@.active.len() == 0,
            decreases self@.distance().0, self@.distance().1, self@.distance().2,
        {
            match self.phase {
                Phase::Finished(reason) => {
                    return Action::Finished(reason);
                },
                Phase::Created => {
                    proof {
                        lemma_started_valid(self@);
                    }
                    self.start();
                },
                Phase::Running => {
                    if self.cursor < self.level_end {
                        if self.active.len() >= self.config.crawler.max_workers {
                            return Action::Wait;
                        }
                        let ticket = self.cursor;
                        assert(self@.frontier[ticket as int] == self.frontier@[ticket as int]@);
                        if self.document_count >= self.config.crawler.max_documents {
                            proof {
                                lemma_skipped_valid(self@);
                            }
                            self.cursor = ticket + 1;
                        } else {
                            let normalized = Document::normalize_url(
                                self.frontier[ticket].url.as_str(),
                            );
                            let ghost before = self@;
                            if self.visited.insert(normalized) {
                                proof {
                                    lemma_dispatched_valid(before);
                                }
                                self.claimed = Ghost(self.claimed@.push(ticket as nat));
                                let entry = ActiveFetch {
                                    ticket,
                                    stage: Stage::Fetching,
                                    document: None,
                                };
                                proof {
                                    assert(self.active@.push(entry).map_values(
                                        |a: ActiveFetch| a@,
                                    ) =~= before.active.push(entry@));
                                }
                                self.active.push(entry);
                                self.cursor = ticket + 1;
                                assert(self@ == before.dispatched());
                                return Action::Fetch {
                                    ticket,
                                    url: self.frontier[ticket].url.clone(),
                                    delay_ms: self.config.crawler.delay_ms,
                                };
                            } else {
                                proof {
                                    assert(self.visited@ =~= before.visited);
                                    lemma_skipped_valid(before);
                                }
                                self.cursor = ticket + 1;
                                assert(self@ == before.skipped());
                            }
                        }
                    } else if self.active.len() > 0 {
                        return Action::Wait;
                    } else {
                        proof {
                            lemma_closed_valid(self@);
                        }
                        self.close_level();
                    }
                },
            }
        }
    }

    /// The position of the page in flight with this ticket.
    fn find_active(&self, ticket: usize) -> (found: Option<usize>)
        ensures
            match found {
                Some(k) => find_ticket(self@.active, ticket as nat) == Some(k as int) && k
                    < self.active.len(),
                None => find_ticket(self@.active, ticket as nat) is None,
            },
    {
        let mut k: usize = 0;
        while k < self.active.len()
            invariant
                k <= self.active.len(),
                forall|j: int| 0 <= j < k ==> (#[trigger] self@.active[j]).ticket != ticket,
            decreases self.active.len() - k,
        {
            if self.active[k].ticket == ticket {
                proof {
                    assert(self@.active[k as int] == self.active@[k as int]@);
                    lemma_find_ticket_first(self@.active, ticket as nat, k as int);
                }
                return Some(k);
            }
            assert(self@.active[k as int] == self.active@[k as int]@);
            k += 1;
        }
        proof {
            lemma_find_ticket(self@.active, ticket as nat);
            if find_ticket(self@.active, ticket as nat) is Some {
                let j = find_ticket(self@.active, ticket as nat)->0;
                assert(self@.active[j].ticket != ticket);
            }
        }
        None
    }

    /// Reports that the request of `ticket` came back: with `status`, or with
    /// a transport error (`None`). A status of the success class has the body
    /// read; anything else ends the page, which then contributes nothing.
    pub fn responded(&mut self, ticket: usize, status: Option<u16>) -> (reply: Reply)
        requires
            old(self).wf(),
        ensures
            final(self).wf(),
            final(self).settings() == old(self).settings(),
            (final(self)@, reply@) == old(self)@.responded(ticket as nat, status),
    {
        proof {
            lemma_responded_valid(self@, ticket as nat, status);
        }
        match self.find_active(ticket) {
            None => Reply::Unknown,
            Some(k) => {
                assert(self@.active[k as int] == self.active@[k as int]@);
                match self.active[k].stage {
                    Stage::Fetching => {},
                    _ => {
                        return Reply::Unknown;
                    },
                }
                let success = match status {
                    Some(code) => 200 <= code && code < 300,
                    None => false,
                };
                if success {
                    let entry = ActiveFetch { ticket, stage: Stage::Reading, document: None };
                    proof {
                        assert(self.active@.update(k as int, entry).map_values(
                            |a: ActiveFetch| a@,
                        ) =~= self@.active.update(k as int, entry@));
                    }
                    self.active.set(k, entry);
                    Reply::ReadBody
                } else {
                    proof {
                        assert(self.active@.remove(k as int).map_values(|a: ActiveFetch| a@)
                            =~= self@.active.remove(k as int));
                    }
                    self.active.remove(k);
                    Reply::Dropped
                }
            },
        }
    }

    /// Reports that the body of `ticket` was read at time `now`, or could not
    /// be decoded (`None`). A body becomes the document of the page, which the
    /// driver is to store; a failure ends the page.
    pub fn body_read_at(&mut self, ticket: usize, body: Option<String>, now: i64) -> (reply: Reply)
        requires
            old(self).wf(),
        ensures
            final(self).wf(),
            final(self).settings() == old(self).settings(),
            (final(self)@, reply@) == old(self)@.body_read(ticket as nat, body.deep_view(), now),
    {
        proof {
            lemma_body_read_valid(self@, ticket as nat, body.deep_view(), now);
            lemma_find_ticket(self@.active, ticket as nat);
        }
        match self.find_active(ticket) {
            None => Reply::Unknown,
            Some(k) => {
                assert(self@.active[k as int] == self.active@[k as int]@);
                assert(self@.entry_valid(self@.active[k as int]));
                match self.active[k].stage {
                    Stage::Reading => {},
                    _ => {
                        return Reply::Unknown;
                    },
                }
                match body {
                    Some(html) => {
                        assert(self@.frontier[ticket as int] == self.frontier@[ticket as int]@);
                        let doc = Document::assemble(
                            self.frontier[ticket].url.clone(),
                            html,
                            self.frontier[ticket].source.clone(),
                            now,
                        );
                        let copy = doc.duplicate();
                        let entry = ActiveFetch {
                            ticket,
                            stage: Stage::Storing,
                            document: Some(doc),
                        };
                        proof {
                            assert(self.active@.update(k as int, entry).map_values(
                                |a: ActiveFetch| a@,
                            ) =~= self@.active.update(k as int, entry@));
                        }
                        self.active.set(k, entry);
                        Reply::Persist(copy)
                    },
                    None => {
                        proof {
                            assert(self.active@.remove(k as int).map_values(|a: ActiveFetch| a@)
                                =~= self@.active.remove(k as int));
                        }
                        self.active.remove(k);
                        Reply::Dropped
                    },
                }
            },
        }
    }

    /// Reports that the body of `ticket` was read just now, or could not be
    /// decoded (`None`). As `body_read_at`, with the time of retrieval read
    /// from the system clock.
    pub fn body_read(&mut self, ticket: usize, body: Option<String>) -> (reply: Reply)
        requires
            old(self).wf(),
        ensures
            final(self).wf(),
            final(self).settings() == old(self).settings(),
            exists|now: i64|
                (final(self)@, reply@) == #[trigger] old(self)@.body_read(
                    ticket as nat,
                    body.deep_view(),
                    now,
                ),
    {
        let now = current_timestamp();
        self.body_read_at(ticket, body, now)
    }

    /// Reports what the store answered for the document of `ticket`. A stored
    /// document is counted and its links are kept for the next level; a store
    /// error ends the page, which then contributes nothing.
    pub fn stored(&mut self, ticket: usize, ok: bool) -> (reply: Reply)
        requires
            old(self).wf(),
        ensures
            final(self).wf(),
            final(self).settings() == old(self).settings(),
            (final(self)@, reply@) == old(self)@.stored(ticket as nat, ok),
    {
        proof {
            lemma_stored_valid(self@, ticket as nat, ok);
        }
        match self.find_active(ticket) {
            None => Reply::Unknown,
            Some(k) => {
                assert(self@.active[k as int] == self.active@[k as int]@);
                match self.active[k].stage {
                    Stage::Storing => {},
                    _ => {
                        return Reply::Unknown;
                    },
                }
                if self.active[k].document.is_none() {
                    return Reply::Unknown;
                }
                proof {
                    assert(self.active@.remove(k as int).map_values(|a: ActiveFetch| a@)
                        =~= self@.active.remove(k as int));
                }
                let entry = self.active.remove(k);
                if !ok {
                    return Reply::Dropped;
                }
                match entry.document {
                    Some(doc) => {
                        let links = HtmlParser::extract_links(
                            doc.html_content.as_str(),
                            doc.url.as_str(),
                        );
                        let ghost gathered = self.harvest.deep_view();
                        self.pages = Ghost(
                            self.pages@.push(
                                StoredPage { ticket: ticket as nat, links: links.deep_view() },
                            ),
                        );
                        self.harvest.push(links);
                        assert(self.harvest.deep_view() =~= gathered.push(links.deep_view()));
                        self.document_count = self.document_count + 1;
                        Reply::Recorded { count: self.document_count }
                    },
                    None => Reply::Unknown,
                }
            },
        }
    }

    /// How many documents were stored so far.
    pub fn document_count(&self) -> (count: usize)
        ensures
            count == self@.persisted,
    {
        self.document_count
    }

    /// The level that is being fetched.
    pub fn depth(&self) -> (depth: u32)
        ensures
            depth == self@.depth,
    {
        self.depth
    }

    /// Where the run stands.
    pub fn phase(&self) -> (phase: Phase)
        ensures
            phase == self@.phase,
    {
        self.phase
    }

    /// How many pages are in flight.
    pub fn in_flight(&self) -> (count: usize)
        ensures
            count == self@.active.len(),
    {
        self.active.len()
    }

    /// Every target queued so far, level after level.
    pub fn frontier(&self) -> (targets: &Vec<CrawlTarget>)
        ensures
            targets_view(targets@) == self@.frontier,
    {
        &self.frontier
    }

    /// Whether a discovered link may enter the frontier.
    pub fn should_crawl(&self, url: &str) -> (admitted: bool)
        ensures
            admitted == admits(self@.policy, url@),
    {
        self.policy.admits(url)
    }
}

/// Whether progress is to be reported now that `count` documents are stored:
/// at every five-hundredth document.
pub fn progress_due(count: usize) -> (due: bool)
    ensures
        due == (count % 500 == 0),
{
    count % 500 == 0
}

} // verus!
