//! How the server is doing, for people and for machines.
use crate::catalog::MediaItem;
use crate::encoding::string_of;
use crate::number::{decimal_chars, decimal_text};
use crate::markup::{escaped, html_esc};
use crate::player::{is_player_report, player_report, PlayerFacts, PlayerReport};
use crate::query::same_text;
use crate::tally::{
    at_most_u64, bytes_per_object, catalog_counts, is_tally, product, projected_memory, CatalogCounts,
    ProjectedMemory,
};
use crate::text::{
    append_chars, chars_of, is_text, lemma_split_without, split, split_text, texts,
};
use crate::track::opt;
use vstd::prelude::*;

verus! {

// ------------------------------------------------------------------- health

/// How the server is doing.
#[derive(Clone, Copy, Debug, PartialEq, Eq, Structural)]
pub enum Health {
    Healthy,
    Degraded,
    Unhealthy,
}

impl Health {
    /// The name of the state.
    pub open spec fn name(self) -> Seq<char> {
        match self {
            Health::Healthy => "healthy"@,
            Health::Degraded => "degraded"@,
            Health::Unhealthy => "unhealthy"@,
        }
    }

    /// The name of the state.
    pub fn as_str(self) -> (name: &'static str)
        ensures
            name@ == self.name(),
    {
        match self {
            Health::Healthy => "healthy",
            Health::Degraded => "degraded",
            Health::Unhealthy => "unhealthy",
        }
    }

    /// The status of an answer: a server that is not doing well still serves.
    pub open spec fn status(self) -> u16 {
        match self {
            Health::Unhealthy => 503,
            _ => 200,
        }
    }

    /// The status of an answer: a server that is not doing well still serves.
    pub fn http_status(self) -> (status: u16)
        ensures
            status == self.status(),
    {
        match self {
            Health::Unhealthy => 503,
            Health::Healthy => 200,
            Health::Degraded => 200,
        }
    }

    /// The worse of two states.
    pub open spec fn worse(self, other: Health) -> Health {
        if self == Health::Unhealthy || other == Health::Unhealthy {
            Health::Unhealthy
        } else if self == Health::Degraded || other == Health::Degraded {
            Health::Degraded
        } else {
            Health::Healthy
        }
    }
}

/// Makes a state degraded, unless it is worse already.
pub fn degrade(health: &mut Health)
    ensures
        *final(health) == old(health).worse(Health::Degraded),
{
    if *health != Health::Unhealthy {
        *health = Health::Degraded;
    }
}

/// The state of a part of the server.
#[derive(Clone, Copy, Debug, PartialEq, Eq, Structural)]
pub enum ComponentState {
    NotStarted,
    Running,
    Stopping,
    Stopped,
    Failed,
}

/// What the last check of the database found.
#[derive(Clone, Copy, Debug, PartialEq, Eq, Structural)]
pub enum DbIntegrityResult {
    Passed,
    NotConfigured,
    Failed,
    Error,
}

/// A reason why the server is not healthy.
#[derive(Clone, Copy, Debug, PartialEq, Eq, Structural)]
pub enum Reason {
    HttpNotStarted,
    HttpDown,
    SsdpNotStarted,
    SsdpDown,
    DatabaseFailed,
    DatabaseStale,
    PoolSaturated,
    CacheLow,
    WorkersIncomplete,
    WorkersFailed,
    ScanStale,
    ScanFailed,
    EventsIncomplete,
    HelpersSaturated,
    SupervisorDown,
    ToolsMissing,
}

impl Reason {
    /// How bad it is.
    pub open spec fn severity(self) -> Health {
        match self {
            Reason::HttpDown | Reason::DatabaseFailed | Reason::WorkersFailed => Health::Unhealthy,
            _ => Health::Degraded,
        }
    }

    /// The reason in words.
    pub open spec fn words(self) -> Seq<char> {
        match self {
            Reason::HttpNotStarted => "HTTP accept loop has not started"@,
            Reason::HttpDown => "HTTP accept loop is not running"@,
            Reason::SsdpNotStarted => "SSDP task has not started"@,
            Reason::SsdpDown => "SSDP discovery task is not running"@,
            Reason::DatabaseFailed => "cached database quick_check failed"@,
            Reason::DatabaseStale => "database quick_check result is stale"@,
            Reason::PoolSaturated => "database read pool is saturated"@,
            Reason::CacheLow => "cache free space is below the configured minimum"@,
            Reason::WorkersIncomplete => "scanner/watch workers are not fully running"@,
            Reason::WorkersFailed => "scanner/watch workers are not fully running"@,
            Reason::ScanStale => "scanner success is stale"@,
            Reason::ScanFailed => "scanner reported an error"@,
            Reason::EventsIncomplete => "GENA notification workers are not fully running"@,
            Reason::HelpersSaturated => "media helper queue is saturated"@,
            Reason::SupervisorDown => "remux supervisor is not running"@,
            Reason::ToolsMissing => "required transcode tools are unavailable"@,
        }
    }

    /// The reason in words.
    pub fn text(self) -> (text: &'static str)
        ensures
            text@ == self.words(),
    {
        match self {
            Reason::HttpNotStarted => "HTTP accept loop has not started",
            Reason::HttpDown => "HTTP accept loop is not running",
            Reason::SsdpNotStarted => "SSDP task has not started",
            Reason::SsdpDown => "SSDP discovery task is not running",
            Reason::DatabaseFailed => "cached database quick_check failed",
            Reason::DatabaseStale => "database quick_check result is stale",
            Reason::PoolSaturated => "database read pool is saturated",
            Reason::CacheLow => "cache free space is below the configured minimum",
            Reason::WorkersIncomplete => "scanner/watch workers are not fully running",
            Reason::WorkersFailed => "scanner/watch workers are not fully running",
            Reason::ScanStale => "scanner success is stale",
            Reason::ScanFailed => "scanner reported an error",
            Reason::EventsIncomplete => "GENA notification workers are not fully running",
            Reason::HelpersSaturated => "media helper queue is saturated",
            Reason::SupervisorDown => "remux supervisor is not running",
            Reason::ToolsMissing => "required transcode tools are unavailable",
        }
    }
}

/// How the server is doing for those reasons: as bad as the worst of them.
pub open spec fn health_for(reasons: Seq<Reason>) -> Health
    decreases reasons.len(),
{
    if reasons.len() == 0 {
        Health::Healthy
    } else {
        health_for(reasons.drop_last()).worse(reasons.last().severity())
    }
}

// ------------------------------------------------------------------ workers

/// A thread that keeps the library up to date.
pub struct ScanWorker {
    pub role: String,
    pub alive: bool,
}

/// The state of such threads.
#[derive(Clone, Copy, Debug, PartialEq, Eq, Structural)]
pub enum WorkerState {
    Disabled,
    Stopping,
    Running,
    NotStarted,
    Degraded,
    Failed,
}

impl WorkerState {
    /// The name of the state.
    pub open spec fn name(self) -> Seq<char> {
        match self {
            WorkerState::Disabled => "disabled"@,
            WorkerState::Stopping => "stopping"@,
            WorkerState::Running => "running"@,
            WorkerState::NotStarted => "not_started"@,
            WorkerState::Degraded => "degraded"@,
            WorkerState::Failed => "failed"@,
        }
    }

    /// The name of the state.
    pub fn as_str(self) -> (name: &'static str)
        ensures
            name@ == self.name(),
    {
        match self {
            WorkerState::Disabled => "disabled",
            WorkerState::Stopping => "stopping",
            WorkerState::Running => "running",
            WorkerState::NotStarted => "not_started",
            WorkerState::Degraded => "degraded",
            WorkerState::Failed => "failed",
        }
    }
}

/// Whether a worker of that role lives.
pub open spec fn role_lives(workers: Seq<ScanWorker>, role: Seq<char>) -> bool {
    exists|i: int| 0 <= i < workers.len() && (#[trigger] workers[i]).alive && workers[i].role@ == role
}

/// How many of the first `n` workers live.
pub open spec fn living(workers: Seq<ScanWorker>, n: int) -> nat
    decreases n,
{
    if n <= 0 {
        0
    } else {
        living(workers, n - 1) + if workers[n - 1].alive {
            1nat
        } else {
            0nat
        }
    }
}

/// The state of the worker that watches for changes.
pub open spec fn inotify_state(workers: Seq<ScanWorker>, stopping: bool) -> WorkerState {
    if stopping {
        WorkerState::Stopping
    } else if role_lives(workers, "inotify"@) {
        WorkerState::Running
    } else if workers.len() == 0 {
        WorkerState::NotStarted
    } else {
        WorkerState::Failed
    }
}

/// The state of the worker that looks at everything from time to time, where one
/// is wanted.
pub open spec fn periodic_state(workers: Seq<ScanWorker>, stopping: bool, rescan_secs: u64) -> WorkerState {
    if rescan_secs == 0 {
        WorkerState::Disabled
    } else if stopping {
        WorkerState::Stopping
    } else if role_lives(workers, "periodic_reconcile"@) {
        WorkerState::Running
    } else if workers.len() == 0 {
        WorkerState::NotStarted
    } else {
        WorkerState::Failed
    }
}

/// The state of both together.
pub open spec fn watcher_state(workers: Seq<ScanWorker>, stopping: bool, rescan_secs: u64) -> WorkerState {
    let watching = role_lives(workers, "inotify"@);
    let reconciling = role_lives(workers, "periodic_reconcile"@);
    if stopping {
        WorkerState::Stopping
    } else if watching && (rescan_secs == 0 || reconciling) {
        WorkerState::Running
    } else if workers.len() == 0 {
        WorkerState::NotStarted
    } else if watching || reconciling {
        WorkerState::Degraded
    } else {
        WorkerState::Failed
    }
}

fn is_role_alive(workers: &[ScanWorker], role: &str) -> (found: bool)
    ensures
        found == role_lives(workers@, role@),
{
    let mut i: usize = 0;
    while i < workers.len()
        invariant
            i <= workers.len(),
            forall|j: int|
                0 <= j < i ==> !((#[trigger] workers@[j]).alive && workers@[j].role@ == role@),
        decreases workers.len() - i,
    {
        if workers[i].alive && same_text(workers[i].role.as_str(), role) {
            assert(workers@[i as int].alive && workers@[i as int].role@ == role@);
            return true;
        }
        i += 1;
    }
    false
}

fn count_alive(workers: &[ScanWorker]) -> (count: usize)
    ensures
        count == living(workers@, workers@.len() as int),
{
    let mut count: usize = 0;
    let mut i: usize = 0;
    while i < workers.len()
        invariant
            i <= workers.len(),
            count <= i,
            count == living(workers@, i as int),
        decreases workers.len() - i,
    {
        if workers[i].alive {
            count += 1;
        }
        i += 1;
    }
    count
}

/// The states of the workers, one by one and together.
pub struct WorkerReport {
    pub worker_state: WorkerState,
    pub inotify: WorkerState,
    pub periodic_reconcile: WorkerState,
    pub workers_total: usize,
    pub workers_alive: usize,
}

/// The states of the workers, one by one and together.
pub fn worker_report(workers: &[ScanWorker], stopping: bool, rescan_secs: u64) -> (report:
    WorkerReport)
    ensures
        report.worker_state == watcher_state(workers@, stopping, rescan_secs),
        report.inotify == inotify_state(workers@, stopping),
        report.periodic_reconcile == periodic_state(workers@, stopping, rescan_secs),
        report.workers_total == workers@.len(),
        report.workers_alive == living(workers@, workers@.len() as int),
{
    let watching = is_role_alive(workers, "inotify");
    let reconciling = is_role_alive(workers, "periodic_reconcile");
    let inotify = if stopping {
        WorkerState::Stopping
    } else if watching {
        WorkerState::Running
    } else if workers.len() == 0 {
        WorkerState::NotStarted
    } else {
        WorkerState::Failed
    };
    let periodic_reconcile = if rescan_secs == 0 {
        WorkerState::Disabled
    } else if stopping {
        WorkerState::Stopping
    } else if reconciling {
        WorkerState::Running
    } else if workers.len() == 0 {
        WorkerState::NotStarted
    } else {
        WorkerState::Failed
    };
    let worker_state = if stopping {
        WorkerState::Stopping
    } else if watching && (rescan_secs == 0 || reconciling) {
        WorkerState::Running
    } else if workers.len() == 0 {
        WorkerState::NotStarted
    } else if watching || reconciling {
        WorkerState::Degraded
    } else {
        WorkerState::Failed
    };
    WorkerReport {
        worker_state,
        inotify,
        periodic_reconcile,
        workers_total: workers.len(),
        workers_alive: count_alive(workers),
    }
}

// ------------------------------------------------------------------ reasons

/// What is known of the server.
pub struct StatusFacts {
    pub http_listener: ComponentState,
    pub ssdp: ComponentState,
    pub database: DbIntegrityResult,
    /// Whether that check is too long ago.
    pub database_stale: bool,
    pub pool_configured: bool,
    pub readers_available: usize,
    pub read_waiters: usize,
    pub cache_free_bytes: u64,
    pub cache_min_free_mb: u64,
    pub workers: Vec<ScanWorker>,
    pub stopping: bool,
    pub rescan_secs: u64,
    pub rescan_max_secs: u64,
    pub now_unix: u64,
    pub last_success_unix: Option<u64>,
    pub scan_error: bool,
    /// The path that the scanner looks at.
    pub scan_path: Option<String>,
    pub event_workers_total: usize,
    pub event_workers_alive: usize,
    pub events_stopping: bool,
    pub helpers_active: usize,
    pub helpers_queued: usize,
    pub helpers_max_active: usize,
    pub helpers_queue_capacity: usize,
    pub transcode_enabled: bool,
    pub supervisor_ready: bool,
    pub remux_supervisor: ComponentState,
    pub required_tools_ready: bool,
    /// What is counted of playback in browsers.
    pub web_player: PlayerFacts,
}

/// The longest time between two looks at everything.
pub open spec fn longest_rescan(facts: StatusFacts) -> u64 {
    if facts.rescan_max_secs == 0 {
        facts.rescan_secs
    } else {
        facts.rescan_max_secs
    }
}

/// After how many seconds without success a scan is stale: three times the
/// longest time between two, which counts as five minutes at least.
pub open spec fn stale_after(facts: StatusFacts) -> u64 {
    let interval = if longest_rescan(facts) < 300 {
        300
    } else {
        longest_rescan(facts)
    };
    at_most_u64((interval * 3) as nat)
}

/// Whether the last success of a scan is too long ago.
pub open spec fn is_scan_stale(facts: StatusFacts) -> bool {
    facts.last_success_unix matches Some(last) && facts.now_unix - last > stale_after(facts)
}

/// The space that the cache must leave, in bytes.
pub open spec fn wanted_free_bytes(facts: StatusFacts) -> u64 {
    at_most_u64((facts.cache_min_free_mb * 1_048_576) as nat)
}

/// One reason, or none.
pub open spec fn one_if(holds: bool, reason: Reason) -> Seq<Reason> {
    if holds {
        seq![reason]
    } else {
        Seq::empty()
    }
}

pub open spec fn http_reasons(state: ComponentState) -> Seq<Reason> {
    match state {
        ComponentState::Running => Seq::empty(),
        ComponentState::NotStarted => seq![Reason::HttpNotStarted],
        _ => seq![Reason::HttpDown],
    }
}

pub open spec fn ssdp_reasons(state: ComponentState) -> Seq<Reason> {
    match state {
        ComponentState::Running => Seq::empty(),
        ComponentState::NotStarted => seq![Reason::SsdpNotStarted],
        _ => seq![Reason::SsdpDown],
    }
}

pub open spec fn worker_reasons(state: WorkerState) -> Seq<Reason> {
    match state {
        WorkerState::Running => Seq::empty(),
        WorkerState::Failed => seq![Reason::WorkersFailed],
        _ => seq![Reason::WorkersIncomplete],
    }
}

pub open spec fn scan_reasons(facts: StatusFacts) -> Seq<Reason> {
    if is_scan_stale(facts) {
        seq![Reason::ScanStale]
    } else {
        one_if(facts.scan_error, Reason::ScanFailed)
    }
}

/// Whether the helpers and the queue before them are full.
pub open spec fn helpers_full(facts: StatusFacts) -> bool {
    &&& facts.helpers_queue_capacity > 0
    &&& facts.helpers_queued >= facts.helpers_queue_capacity
    &&& facts.helpers_active >= facts.helpers_max_active
}

/// Whether titles are to be converted and nothing oversees that.
pub open spec fn supervisor_down(facts: StatusFacts) -> bool {
    facts.transcode_enabled && !(facts.supervisor_ready && facts.remux_supervisor
        == ComponentState::Running)
}

/// What is wrong with what the network sees.
pub open spec fn listener_reasons(facts: StatusFacts) -> Seq<Reason> {
    http_reasons(facts.http_listener) + ssdp_reasons(facts.ssdp)
}

/// What is wrong with what is stored.
pub open spec fn storage_reasons(facts: StatusFacts) -> Seq<Reason> {
    one_if(
        facts.database == DbIntegrityResult::Failed || facts.database == DbIntegrityResult::Error,
        Reason::DatabaseFailed,
    ) + one_if(facts.database_stale, Reason::DatabaseStale) + one_if(
        facts.pool_configured && facts.readers_available == 0 && facts.read_waiters > 0,
        Reason::PoolSaturated,
    ) + one_if(facts.cache_free_bytes < wanted_free_bytes(facts), Reason::CacheLow)
}

/// What is wrong with keeping the library up to date.
pub open spec fn library_reasons(facts: StatusFacts) -> Seq<Reason> {
    worker_reasons(watcher_state(facts.workers@, facts.stopping, facts.rescan_secs))
        + scan_reasons(facts)
}

/// What is wrong with the services around it.
pub open spec fn service_reasons(facts: StatusFacts) -> Seq<Reason> {
    one_if(
        facts.event_workers_alive != facts.event_workers_total || facts.events_stopping,
        Reason::EventsIncomplete,
    ) + one_if(helpers_full(facts), Reason::HelpersSaturated) + one_if(
        supervisor_down(facts),
        Reason::SupervisorDown,
    ) + one_if(!facts.required_tools_ready, Reason::ToolsMissing)
}

/// The reasons why the server is not healthy, in a fixed order.
pub open spec fn reasons_of(facts: StatusFacts) -> Seq<Reason> {
    listener_reasons(facts) + storage_reasons(facts) + library_reasons(facts) + service_reasons(
        facts,
    )
}

struct Findings {
    health: Health,
    reasons: Vec<Reason>,
}

impl Findings {
    spec fn wf(self) -> bool {
        self.health == health_for(self.reasons@)
    }

    fn note(&mut self, holds: bool, reason: Reason)
        requires
            old(self).wf(),
            reason.severity() == Health::Degraded,
        ensures
            final(self).wf(),
            final(self).reasons@ == old(self).reasons@ + one_if(holds, reason),
    {
        let ghost before = self.reasons@;
        if holds {
            degrade(&mut self.health);
            self.reasons.push(reason);
            assert(self.reasons@.drop_last() =~= before);
            assert(self.reasons@ =~= before + seq![reason]);
        } else {
            assert(self.reasons@ =~= before + Seq::<Reason>::empty());
        }
    }

    fn fail(&mut self, holds: bool, reason: Reason)
        requires
            old(self).wf(),
            reason.severity() == Health::Unhealthy,
        ensures
            final(self).wf(),
            final(self).reasons@ == old(self).reasons@ + one_if(holds, reason),
    {
        let ghost before = self.reasons@;
        if holds {
            self.health = Health::Unhealthy;
            self.reasons.push(reason);
            assert(self.reasons@.drop_last() =~= before);
            assert(self.reasons@ =~= before + seq![reason]);
        } else {
            assert(self.reasons@ =~= before + Seq::<Reason>::empty());
        }
    }
}

fn longest_interval(facts: &StatusFacts) -> (seconds: u64)
    ensures
        seconds == longest_rescan(*facts),
{
    if facts.rescan_max_secs == 0 {
        facts.rescan_secs
    } else {
        facts.rescan_max_secs
    }
}

fn scan_stale(facts: &StatusFacts) -> (stale: bool)
    ensures
        stale == is_scan_stale(*facts),
{
    let longest: u64 = longest_interval(facts);
    let limit: u64 = product(
        if longest < 300 {
            300
        } else {
            longest
        },
        3,
    );
    match facts.last_success_unix {
        Some(last) => facts.now_unix > last && facts.now_unix - last > limit,
        None => false,
    }
}

fn check_listeners(found: &mut Findings, facts: &StatusFacts)
    requires
        old(found).wf(),
    ensures
        final(found).wf(),
        final(found).reasons@ == old(found).reasons@ + listener_reasons(*facts),
{
    let ghost before = found.reasons@;
    let http = facts.http_listener;
    let ssdp = facts.ssdp;
    found.note(http == ComponentState::NotStarted, Reason::HttpNotStarted);
    found.fail(
        http != ComponentState::NotStarted && http != ComponentState::Running,
        Reason::HttpDown,
    );
    assert(found.reasons@ =~= before + http_reasons(http));
    found.note(ssdp == ComponentState::NotStarted, Reason::SsdpNotStarted);
    found.note(
        ssdp != ComponentState::NotStarted && ssdp != ComponentState::Running,
        Reason::SsdpDown,
    );
    assert(found.reasons@ =~= before + http_reasons(http) + ssdp_reasons(ssdp));
    assert(found.reasons@ =~= before + listener_reasons(*facts));
}

fn check_storage(found: &mut Findings, facts: &StatusFacts)
    requires
        old(found).wf(),
    ensures
        final(found).wf(),
        final(found).reasons@ == old(found).reasons@ + storage_reasons(*facts),
{
    let ghost before = found.reasons@;
    found.fail(
        facts.database == DbIntegrityResult::Failed || facts.database == DbIntegrityResult::Error,
        Reason::DatabaseFailed,
    );
    found.note(facts.database_stale, Reason::DatabaseStale);
    found.note(
        facts.pool_configured && facts.readers_available == 0 && facts.read_waiters > 0,
        Reason::PoolSaturated,
    );
    found.note(
        facts.cache_free_bytes < product(facts.cache_min_free_mb, 1_048_576),
        Reason::CacheLow,
    );
    assert(found.reasons@ =~= before + storage_reasons(*facts));
}

fn check_library(found: &mut Findings, facts: &StatusFacts)
    requires
        old(found).wf(),
    ensures
        final(found).wf(),
        final(found).reasons@ == old(found).reasons@ + library_reasons(*facts),
{
    let ghost before = found.reasons@;
    let watchers = worker_report(&facts.workers, facts.stopping, facts.rescan_secs).worker_state;
    found.fail(watchers == WorkerState::Failed, Reason::WorkersFailed);
    found.note(
        watchers != WorkerState::Failed && watchers != WorkerState::Running,
        Reason::WorkersIncomplete,
    );
    assert(found.reasons@ =~= before + worker_reasons(watchers));
    let stale = scan_stale(facts);
    found.note(stale, Reason::ScanStale);
    found.note(!stale && facts.scan_error, Reason::ScanFailed);
    assert(found.reasons@ =~= before + worker_reasons(watchers) + scan_reasons(*facts));
    assert(found.reasons@ =~= before + library_reasons(*facts));
}

fn check_services(found: &mut Findings, facts: &StatusFacts)
    requires
        old(found).wf(),
    ensures
        final(found).wf(),
        final(found).reasons@ == old(found).reasons@ + service_reasons(*facts),
{
    let ghost before = found.reasons@;
    found.note(
        facts.event_workers_alive != facts.event_workers_total || facts.events_stopping,
        Reason::EventsIncomplete,
    );
    found.note(
        facts.helpers_queue_capacity > 0 && facts.helpers_queued >= facts.helpers_queue_capacity
            && facts.helpers_active >= facts.helpers_max_active,
        Reason::HelpersSaturated,
    );
    found.note(
        facts.transcode_enabled && (!facts.supervisor_ready || facts.remux_supervisor
            != ComponentState::Running),
        Reason::SupervisorDown,
    );
    found.note(!facts.required_tools_ready, Reason::ToolsMissing);
    assert(found.reasons@ =~= before + service_reasons(*facts));
}

/// How the server is doing, and why.
pub fn health_of(facts: &StatusFacts) -> (result: (Health, Vec<Reason>))
    ensures
        result.1@ == reasons_of(*facts),
        result.0 == health_for(reasons_of(*facts)),
{
    let mut found = Findings { health: Health::Healthy, reasons: Vec::new() };
    check_listeners(&mut found, facts);
    assert(found.reasons@ =~= listener_reasons(*facts));
    check_storage(&mut found, facts);
    check_library(&mut found, facts);
    check_services(&mut found, facts);
    (found.health, found.reasons)
}


// ------------------------------------------------------------------ reports

/// The upper ends of the times that are counted together, in milliseconds.
pub open spec fn wait_bounds() -> Seq<&'static str> {
    seq!["10", "50", "100", "500", "1000", "+Inf"]
}

/// The sum of the first `n` counts, or the largest number that can be shown.
pub open spec fn total_of(counts: Seq<u64>, n: int) -> u64
    decreases n,
{
    if n <= 0 {
        0
    } else {
        at_most_u64((total_of(counts, n - 1) + counts[n - 1]) as nat)
    }
}

/// How many helpers waited up to a time.
pub struct WaitBucket {
    pub le_ms: &'static str,
    pub count: u64,
}

/// How many helpers waited up to each of the times.
pub fn wait_buckets(counts: &[u64]) -> (buckets: Vec<WaitBucket>)
    requires
        counts@.len() <= 6,
    ensures
        buckets@.len() == counts@.len(),
        forall|i: int|
            0 <= i < counts@.len() ==> (#[trigger] buckets@[i]).count == total_of(counts@, i + 1)
                && buckets@[i].le_ms@ == wait_bounds()[i]@,
{
    let bounds: [&'static str; 6] = ["10", "50", "100", "500", "1000", "+Inf"];
    assert(bounds@ =~= wait_bounds());
    let mut buckets: Vec<WaitBucket> = Vec::new();
    let mut total: u64 = 0;
    let mut i: usize = 0;
    while i < counts.len()
        invariant
            i <= counts.len() <= 6,
            bounds@ == wait_bounds(),
            total == total_of(counts@, i as int),
            buckets@.len() == i,
            forall|j: int|
                0 <= j < i ==> (#[trigger] buckets@[j]).count == total_of(counts@, j + 1)
                    && buckets@[j].le_ms@ == wait_bounds()[j]@,
        decreases counts.len() - i,
    {
        total = total.saturating_add(counts[i]);
        assert(total == total_of(counts@, i + 1));
        buckets.push(WaitBucket { le_ms: bounds[i], count: total });
        i += 1;
    }
    buckets
}

/// What overseeing conversions is doing; `running` names the state that it
/// reports itself.
pub fn supervisor_state(enabled: bool, ready: bool, running: &'static str) -> (state: &'static str)
    ensures
        state@ == if !enabled {
            "disabled"@
        } else if !ready {
            "failed"@
        } else {
            running@
        },
{
    if !enabled {
        "disabled"
    } else if !ready {
        "failed"
    } else {
        running
    }
}

/// What the workers that deliver events are doing.
pub fn event_worker_state(stopping: bool, alive: usize, total: usize) -> (state: &'static str)
    ensures
        state@ == if stopping {
            "stopping"@
        } else if alive == total {
            "running"@
        } else {
            "degraded"@
        },
{
    if stopping {
        "stopping"
    } else if alive == total {
        "running"
    } else {
        "degraded"
    }
}

// ------------------------------------------------------------------ scanner

/// The last of the first `n` parts of a path that names something: empty parts
/// and those that stand for where the path is already do not.
pub open spec fn last_name(parts: Seq<Seq<char>>, n: int) -> Option<Seq<char>>
    decreases n,
{
    if n <= 0 {
        None
    } else if parts[n - 1] == ""@ || parts[n - 1] == "."@ {
        last_name(parts, n - 1)
    } else {
        Some(parts[n - 1])
    }
}

/// The name of what a path leads to; one that ends by going up has none.
pub open spec fn entry_name(path: Seq<char>) -> Option<Seq<char>> {
    let parts = split(path, seq!['/']);
    match last_name(parts, parts.len() as int) {
        Some(name) => if name == ".."@ {
            None
        } else {
            Some(name)
        },
        None => None,
    }
}

/// The name of what the scanner looks at, without the directories it is in.
pub fn current_entry(path: Option<&str>) -> (entry: Option<String>)
    ensures
        opt(entry) == match path {
            Some(path) => entry_name(path@),
            None => None,
        },
        entry matches Some(name) ==> !name@.contains('/'),
{
    let given = match path {
        Some(path) => path,
        None => {
            return None;
        },
    };
    let chars = chars_of(given);
    proof {
        law_entry_names_no_directory(given@);
    }
    let slash: [char; 1] = ['/'];
    assert(slash@ =~= seq!['/']);
    let parts = split_text(&chars, &slash);
    let ghost all = split(given@, seq!['/']);
    assert(all.len() == parts@.len());
    let mut n: usize = parts.len();
    while n > 0
        invariant
            n <= parts.len(),
            path == Some(given),
            all == split(given@, seq!['/']),
            texts(parts@) == all,
            all.len() == parts@.len(),
            last_name(all, all.len() as int) == last_name(all, n as int),
            entry_name(given@) matches Some(name) ==> !name.contains('/'),
        decreases n,
    {
        let part = parts[n - 1];
        assert(all[n - 1] == part@);
        if !is_text(part, "") && !is_text(part, ".") {
            if is_text(part, "..") {
                return None;
            }
            return Some(string_of(part));
        }
        n -= 1;
    }
    None
}

// ----------------------------------------------------------------- sections

/// A section of the document for machines.
#[derive(Clone, Copy, Debug, PartialEq, Eq, Structural)]
pub enum StatusSection {
    Status,
    Reasons,
    Listener,
    Database,
    Scanner,
    Catalog,
    Transcode,
    Helpers,
    Events,
    Metrics,
    Cache,
    ClientCacheEntries,
}

impl StatusSection {
    /// The name of the section.
    pub open spec fn key(self) -> Seq<char> {
        match self {
            StatusSection::Status => "status"@,
            StatusSection::Reasons => "reasons"@,
            StatusSection::Listener => "listener"@,
            StatusSection::Database => "database"@,
            StatusSection::Scanner => "scanner"@,
            StatusSection::Catalog => "catalog"@,
            StatusSection::Transcode => "transcode"@,
            StatusSection::Helpers => "helpers"@,
            StatusSection::Events => "events"@,
            StatusSection::Metrics => "metrics"@,
            StatusSection::Cache => "cache"@,
            StatusSection::ClientCacheEntries => "client_cache_entries"@,
        }
    }

    /// The name of the section.
    pub fn name(self) -> (name: &'static str)
        ensures
            name@ == self.key(),
    {
        match self {
            StatusSection::Status => "status",
            StatusSection::Reasons => "reasons",
            StatusSection::Listener => "listener",
            StatusSection::Database => "database",
            StatusSection::Scanner => "scanner",
            StatusSection::Catalog => "catalog",
            StatusSection::Transcode => "transcode",
            StatusSection::Helpers => "helpers",
            StatusSection::Events => "events",
            StatusSection::Metrics => "metrics",
            StatusSection::Cache => "cache",
            StatusSection::ClientCacheEntries => "client_cache_entries",
        }
    }
}

/// The sections of the whole document.
pub open spec fn all_sections() -> Seq<StatusSection> {
    seq![
        StatusSection::Status,
        StatusSection::Reasons,
        StatusSection::Listener,
        StatusSection::Database,
        StatusSection::Scanner,
        StatusSection::Catalog,
        StatusSection::Transcode,
        StatusSection::Helpers,
        StatusSection::Events,
        StatusSection::Metrics,
        StatusSection::Cache,
        StatusSection::ClientCacheEntries,
    ]
}

/// The sections of the document on health alone.
pub open spec fn health_sections() -> Seq<StatusSection> {
    seq![
        StatusSection::Status,
        StatusSection::Reasons,
        StatusSection::Listener,
        StatusSection::Database,
        StatusSection::Scanner,
        StatusSection::Cache,
        StatusSection::Helpers,
        StatusSection::Events,
        StatusSection::Transcode,
    ]
}

/// What is read from the catalog for a report.
pub struct CatalogFacts<'a> {
    pub items: &'a [MediaItem],
    pub containers: usize,
    pub estimated_memory_bytes: u64,
    /// The size of an object where there are none.
    pub object_size: u64,
}

/// What a report says of the catalog.
pub struct CatalogReport {
    pub counts: CatalogCounts,
    pub projected: ProjectedMemory,
}

/// What is reported of the server.
pub struct StatusReport {
    pub health: Health,
    pub reasons: Vec<Reason>,
    pub workers: WorkerReport,
    pub reconcile_max_secs: u64,
    /// The name of what the scanner looks at, without the directories it is in.
    pub current_entry: Option<String>,
    pub minimum_free_bytes: u64,
    pub web_player: PlayerReport,
    pub catalog: Option<CatalogReport>,
    /// The sections of the document, in order.
    pub sections: Vec<StatusSection>,
}

/// Whether a report says what is known, the catalog aside.
pub open spec fn reports(report: StatusReport, facts: StatusFacts) -> bool {
    &&& report.reasons@ == reasons_of(facts)
    &&& report.health == health_for(reasons_of(facts))
    &&& report.workers.worker_state == watcher_state(
        facts.workers@,
        facts.stopping,
        facts.rescan_secs,
    )
    &&& report.workers.inotify == inotify_state(facts.workers@, facts.stopping)
    &&& report.workers.periodic_reconcile == periodic_state(
        facts.workers@,
        facts.stopping,
        facts.rescan_secs,
    )
    &&& report.workers.workers_total == facts.workers@.len()
    &&& report.workers.workers_alive == living(facts.workers@, facts.workers@.len() as int)
    &&& report.reconcile_max_secs == longest_rescan(facts)
    &&& opt(report.current_entry) == match facts.scan_path {
        Some(path) => entry_name(path@),
        None => None,
    }
    &&& report.minimum_free_bytes == wanted_free_bytes(facts)
    &&& is_player_report(report.web_player, facts.web_player)
}

/// Whether a report says what the catalog holds.
pub open spec fn reports_catalog(report: CatalogReport, catalog: CatalogFacts) -> bool {
    let each = bytes_per_object(report.counts, catalog.object_size);
    &&& is_tally(
        report.counts,
        catalog.items@,
        catalog.containers,
        catalog.estimated_memory_bytes,
    )
    &&& report.projected.objects_10000 == at_most_u64(each * 10_000)
    &&& report.projected.objects_100000 == at_most_u64(each * 100_000)
    &&& report.projected.objects_1000000 == at_most_u64(each * 1_000_000)
}

/// Reports on the server, and on the catalog where that is given.
pub fn status_value(facts: &StatusFacts, catalog: Option<CatalogFacts>) -> (report: StatusReport)
    ensures
        reports(report, *facts),
        match (report.catalog, catalog) {
            (Some(counted), Some(catalog)) => reports_catalog(counted, catalog),
            (None, None) => true,
            _ => false,
        },
        report.sections@ == all_sections(),
{
    let (health, reasons) = health_of(facts);
    let catalog = match catalog {
        Some(catalog) => {
            let counts = catalog_counts(
                catalog.items,
                catalog.containers,
                catalog.estimated_memory_bytes,
            );
            let projected = projected_memory(&counts, catalog.object_size);
            Some(CatalogReport { counts, projected })
        },
        None => None,
    };
    let sections = vec![
        StatusSection::Status,
        StatusSection::Reasons,
        StatusSection::Listener,
        StatusSection::Database,
        StatusSection::Scanner,
        StatusSection::Catalog,
        StatusSection::Transcode,
        StatusSection::Helpers,
        StatusSection::Events,
        StatusSection::Metrics,
        StatusSection::Cache,
        StatusSection::ClientCacheEntries,
    ];
    assert(sections@ =~= all_sections());
    StatusReport {
        health,
        reasons,
        workers: worker_report(&facts.workers, facts.stopping, facts.rescan_secs),
        reconcile_max_secs: longest_interval(facts),
        current_entry: current_entry(
            match &facts.scan_path {
                Some(path) => Some(path.as_str()),
                None => None,
            },
        ),
        minimum_free_bytes: product(facts.cache_min_free_mb, 1_048_576),
        web_player: player_report(&facts.web_player),
        catalog,
        sections,
    }
}

/// Reports on the server with the status of the answer. A look at its health
/// alone never walks the catalog.
pub fn status_json(facts: &StatusFacts, catalog: Option<CatalogFacts>, health_only: bool) -> (result: (
    u16,
    StatusReport,
))
    ensures
        result.0 == health_for(reasons_of(*facts)).status(),
        reports(result.1, *facts),
        result.1.sections@ == if health_only {
            health_sections()
        } else {
            all_sections()
        },
        health_only ==> result.1.catalog is None,
        !health_only ==> match (result.1.catalog, catalog) {
            (Some(counted), Some(catalog)) => reports_catalog(counted, catalog),
            (None, None) => true,
            _ => false,
        },
{
    let report = if health_only {
        let mut report = status_value(facts, None);
        report.sections = vec![
            StatusSection::Status,
            StatusSection::Reasons,
            StatusSection::Listener,
            StatusSection::Database,
            StatusSection::Scanner,
            StatusSection::Cache,
            StatusSection::Helpers,
            StatusSection::Events,
            StatusSection::Transcode,
        ];
        assert(report.sections@ =~= health_sections());
        report
    } else {
        status_value(facts, catalog)
    };
    (report.health.http_status(), report)
}

// --------------------------------------------------------------------- page

/// What the page shows besides health and catalog.
pub struct StatusPage {
    pub name: String,
    pub update_id: u32,
    pub scan_phase: Option<String>,
    pub watch_count: u64,
    pub transcodes_active: u64,
    pub transcodes_queued: u64,
    pub helpers_active: u64,
    pub helpers_queued: u64,
    pub cache_bytes: u64,
}

/// A row of the page.
pub open spec fn row(label: Seq<char>, value: Seq<char>) -> Seq<char> {
    "<tr><td>"@ + label + "</td><td>"@ + value + "</td></tr>"@
}

/// A row with a number.
pub open spec fn number_row(label: Seq<char>, n: nat) -> Seq<char> {
    row(label, decimal_text(n))
}

/// What the scanner is doing, as the page shows it.
pub open spec fn phase_of(page: StatusPage) -> Seq<char> {
    match page.scan_phase {
        Some(phase) => escaped(phase@),
        None => escaped("idle"@),
    }
}

/// The rows on the catalog.
pub open spec fn catalog_rows(catalog: CatalogCounts, page: StatusPage) -> Seq<char> {
    Seq::<char>::empty()
        + number_row("Audio"@, catalog.audio_records as nat)
        + number_row("Video"@, catalog.video_records as nat)
        + number_row("Image"@, catalog.image_records as nat)
        + number_row("Physical files"@, catalog.physical_inodes as nat)
        + number_row("Path aliases"@, catalog.path_aliases as nat)
        + number_row("Media records"@, catalog.media_records as nat)
        + number_row("Item objects"@, catalog.item_objects as nat)
        + number_row("Containers"@, catalog.container_objects as nat)
        + number_row("Total objects"@, catalog.total_objects as nat)
        + number_row("Captions"@, catalog.captions as nat)
        + number_row("UpdateID"@, page.update_id as nat)
}

/// The rows on what goes on.
pub open spec fn activity_rows(page: StatusPage) -> Seq<char> {
    row("Scan phase"@, phase_of(page))
        + number_row("Inotify watches"@, page.watch_count as nat)
        + number_row("Transcodes active"@, page.transcodes_active as nat)
        + number_row("Transcodes queued"@, page.transcodes_queued as nat)
        + number_row("Media helpers active"@, page.helpers_active as nat)
        + number_row("Media helpers queued"@, page.helpers_queued as nat)
        + number_row("Transcode cache bytes"@, page.cache_bytes as nat)
}

/// The page.
pub open spec fn page_text(health: Health, catalog: CatalogCounts, page: StatusPage) -> Seq<char> {
    "<html><head><title>"@ + escaped(page.name@)
        + "</title><meta http-equiv=\"refresh\" content=\"20\"></head><body><h1>"@ + escaped(
        page.name@,
    ) + "</h1><p>Health: "@ + health.name() + "</p><table>"@ + catalog_rows(catalog, page)
        + activity_rows(page)
        + "</table><p><a href=\"/api/status\">Machine-readable status</a></p></body></html>"@
}

fn append_row(out: &mut Vec<char>, label: &str, value: &[char])
    ensures
        final(out)@ == old(out)@ + row(label@, value@),
{
    let ghost before = out@;
    append_chars(out, &chars_of("<tr><td>"));
    append_chars(out, &chars_of(label));
    append_chars(out, &chars_of("</td><td>"));
    append_chars(out, value);
    append_chars(out, &chars_of("</td></tr>"));
    assert(out@ =~= before + row(label@, value@));
}

fn append_number(out: &mut Vec<char>, label: &str, n: u64)
    ensures
        final(out)@ == old(out)@ + number_row(label@, n as nat),
{
    let digits = decimal_chars(n);
    append_row(out, label, &digits);
}

fn catalog_part(catalog: &CatalogCounts, page: &StatusPage) -> (out: Vec<char>)
    ensures
        out@ == catalog_rows(*catalog, *page),
{
    let mut out: Vec<char> = Vec::new();
    append_number(&mut out, "Audio", catalog.audio_records as u64);
    append_number(&mut out, "Video", catalog.video_records as u64);
    append_number(&mut out, "Image", catalog.image_records as u64);
    append_number(&mut out, "Physical files", catalog.physical_inodes as u64);
    append_number(&mut out, "Path aliases", catalog.path_aliases as u64);
    append_number(&mut out, "Media records", catalog.media_records as u64);
    append_number(&mut out, "Item objects", catalog.item_objects as u64);
    append_number(&mut out, "Containers", catalog.container_objects as u64);
    append_number(&mut out, "Total objects", catalog.total_objects as u64);
    append_number(&mut out, "Captions", catalog.captions as u64);
    append_number(&mut out, "UpdateID", page.update_id as u64);
    out
}

fn activity_part(page: &StatusPage) -> (out: Vec<char>)
    ensures
        out@ == activity_rows(*page),
{
    let phase = match &page.scan_phase {
        Some(phase) => html_esc(phase.as_str()),
        None => html_esc("idle"),
    };
    let mut out: Vec<char> = Vec::new();
    append_row(&mut out, "Scan phase", &chars_of(phase.as_str()));
    assert(out@ =~= row("Scan phase"@, phase_of(*page)));
    append_number(&mut out, "Inotify watches", page.watch_count);
    append_number(&mut out, "Transcodes active", page.transcodes_active);
    append_number(&mut out, "Transcodes queued", page.transcodes_queued);
    append_number(&mut out, "Media helpers active", page.helpers_active);
    append_number(&mut out, "Media helpers queued", page.helpers_queued);
    append_number(&mut out, "Transcode cache bytes", page.cache_bytes);
    out
}

/// The page that shows people how the server is doing.
pub fn status_html(health: Health, catalog: &CatalogCounts, page: &StatusPage) -> (html: String)
    ensures
        html@ == page_text(health, *catalog, *page),
{
    let name = chars_of(html_esc(page.name.as_str()).as_str());
    let mut out = chars_of("<html><head><title>");
    append_chars(&mut out, &name);
    append_chars(
        &mut out,
        &chars_of("</title><meta http-equiv=\"refresh\" content=\"20\"></head><body><h1>"),
    );
    append_chars(&mut out, &name);
    append_chars(&mut out, &chars_of("</h1><p>Health: "));
    append_chars(&mut out, &chars_of(health.as_str()));
    append_chars(&mut out, &chars_of("</p><table>"));
    append_chars(&mut out, &catalog_part(catalog, page));
    append_chars(&mut out, &activity_part(page));
    append_chars(
        &mut out,
        &chars_of(
            "</table><p><a href=\"/api/status\">Machine-readable status</a></p></body></html>",
        ),
    );
    string_of(&out)
}

// -------------------------------------------------------------------- laws

/// The server is healthy exactly where there is no reason that it is not.
pub proof fn law_healthy_without_reasons(reasons: Seq<Reason>)
    ensures
        health_for(reasons) == Health::Healthy <==> reasons.len() == 0,
{
    if reasons.len() > 0 {
        assert(reasons.last().severity() != Health::Healthy);
    }
}

/// An answer has the status of an unavailable service exactly where there is a
/// reason that makes the server unhealthy; degraded, it still serves.
pub proof fn law_unavailable_only_if_unhealthy(reasons: Seq<Reason>)
    ensures
        health_for(reasons).status() == 503 <==> exists|i: int|
            0 <= i < reasons.len() && (#[trigger] reasons[i]).severity() == Health::Unhealthy,
        health_for(reasons).status() == 503 || health_for(reasons).status() == 200,
    decreases reasons.len(),
{
    if reasons.len() > 0 {
        let rest = reasons.drop_last();
        law_unavailable_only_if_unhealthy(rest);
        if health_for(rest) == Health::Unhealthy {
            let i = choose|i: int|
                0 <= i < rest.len() && (#[trigger] rest[i]).severity() == Health::Unhealthy;
            assert(reasons[i].severity() == Health::Unhealthy);
        }
        if reasons.last().severity() == Health::Unhealthy {
            assert(reasons[reasons.len() - 1].severity() == Health::Unhealthy);
        }
        if exists|i: int|
            0 <= i < reasons.len() && (#[trigger] reasons[i]).severity() == Health::Unhealthy {
            let i = choose|i: int|
                0 <= i < reasons.len() && (#[trigger] reasons[i]).severity() == Health::Unhealthy;
            if i < rest.len() {
                assert(rest[i].severity() == Health::Unhealthy);
            }
        }
    }
}

/// A further reason never makes the server look better.
pub proof fn law_reasons_never_help(reasons: Seq<Reason>, more: Reason)
    ensures
        health_for(reasons) == Health::Unhealthy ==> health_for(reasons.push(more))
            == Health::Unhealthy,
        health_for(reasons.push(more)) != Health::Healthy,
{
    assert(reasons.push(more).drop_last() =~= reasons);
}

proof fn lemma_last_name(parts: Seq<Seq<char>>, n: int)
    requires
        0 <= n <= parts.len(),
    ensures
        last_name(parts, n) matches Some(name) ==> exists|i: int|
            0 <= i < n && #[trigger] parts[i] == name,
    decreases n,
{
    if n > 0 {
        lemma_last_name(parts, n - 1);
    }
}

/// What is told of the scanner's path names no directory that it leads through.
pub proof fn law_entry_names_no_directory(path: Seq<char>)
    ensures
        entry_name(path) matches Some(name) ==> !name.contains('/'),
{
    let parts = split(path, seq!['/']);
    lemma_last_name(parts, parts.len() as int);
    if let Some(name) = entry_name(path) {
        let i = choose|i: int| 0 <= i < parts.len() && #[trigger] parts[i] == name;
        lemma_split_without(path, '/', i);
    }
}

/// The document on health alone holds nothing that the whole one does not, and
/// neither the catalog nor metrics.
pub proof fn law_health_is_a_part_of_the_status()
    ensures
        forall|i: int|
            0 <= i < health_sections().len() ==> all_sections().contains(
                #[trigger] health_sections()[i],
            ),
        !health_sections().contains(StatusSection::Catalog),
        !health_sections().contains(StatusSection::Metrics),
        !health_sections().contains(StatusSection::ClientCacheEntries),
{
    let all = all_sections();
    assert(all[0] == StatusSection::Status && all[1] == StatusSection::Reasons && all[2]
        == StatusSection::Listener && all[3] == StatusSection::Database && all[4]
        == StatusSection::Scanner && all[6] == StatusSection::Transcode && all[7]
        == StatusSection::Helpers && all[8] == StatusSection::Events && all[10]
        == StatusSection::Cache);
}

/// More helpers waited up to a longer time.
pub proof fn law_buckets_grow(counts: Seq<u64>, i: int, j: int)
    requires
        0 <= i <= j <= counts.len(),
    ensures
        total_of(counts, i) <= total_of(counts, j),
    decreases j,
{
    if i < j {
        law_buckets_grow(counts, i, j - 1);
    }
}

} // verus!
