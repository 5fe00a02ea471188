//! How the server is doing, and what its catalog holds.
use crate::catalog::MediaItem;
use crate::law::captions::{in_a_row, is_without, lemma_split_row};
use crate::law::search::is_of_audio;
use crate::law::telling::is_of_video;
use crate::law::tracks::begins;
use crate::markup::escaped;
use crate::status::{
    activity_rows, catalog_rows, current_entry, event_worker_state, health_for, health_of,
    last_name, library_reasons, listener_reasons, living, number_row, one_if, page_text,
    reasons_of, service_reasons, status_html, status_json, storage_reasons, supervisor_state,
    wait_buckets, worker_report, CatalogFacts, ComponentState, DbIntegrityResult, Health, Reason,
    ScanWorker, StatusFacts, StatusPage, StatusReport, StatusSection, WaitBucket, WorkerReport,
    WorkerState,
};
use crate::tally::{
    captions_of, catalog_counts, count_of, files, is_first, projected_memory, records,
    CatalogCounts, ProjectedMemory, RecordClass,
};
use crate::text::{holds_text, occurs_at};
use crate::track::opt;
use vstd::prelude::*;

verus! {

// ------------------------------------------------------------------- reasons

proof fn lemma_joined(a: Seq<Reason>, b: Seq<Reason>, x: Reason)
    ensures
        (a + b).contains(x) <==> a.contains(x) || b.contains(x),
{
    let all = a + b;
    if a.contains(x) {
        let i = choose|i: int| 0 <= i < a.len() && a[i] == x;
        assert(all[i] == x);
    }
    if b.contains(x) {
        let i = choose|i: int| 0 <= i < b.len() && b[i] == x;
        assert(all[a.len() + i] == x);
    }
    if all.contains(x) {
        let i = choose|i: int| 0 <= i < all.len() && all[i] == x;
        if i < a.len() {
            assert(a[i] == x);
        } else {
            assert(b[i - a.len()] == x);
        }
    }
}

proof fn lemma_one(reason: Reason, x: Reason)
    ensures
        seq![reason].contains(x) <==> x == reason,
        !Seq::<Reason>::empty().contains(x),
{
    if x == reason {
        assert(seq![reason][0] == x);
    }
}

proof fn lemma_one_if(holds: bool, reason: Reason, x: Reason)
    ensures
        one_if(holds, reason).contains(x) <==> holds && x == reason,
{
    lemma_one(reason, x);
}

proof fn lemma_listener_reasons(facts: StatusFacts, x: Reason)
    ensures
        listener_reasons(facts).contains(x) <==> {
            ||| x == Reason::HttpNotStarted && facts.http_listener == ComponentState::NotStarted
            ||| x == Reason::HttpDown && facts.http_listener != ComponentState::NotStarted
                && facts.http_listener != ComponentState::Running
            ||| x == Reason::SsdpNotStarted && facts.ssdp == ComponentState::NotStarted
            ||| x == Reason::SsdpDown && facts.ssdp != ComponentState::NotStarted && facts.ssdp
                != ComponentState::Running
        },
{
    lemma_joined(
        crate::status::http_reasons(facts.http_listener),
        crate::status::ssdp_reasons(facts.ssdp),
        x,
    );
    lemma_one(Reason::HttpNotStarted, x);
    lemma_one(Reason::HttpDown, x);
    lemma_one(Reason::SsdpNotStarted, x);
    lemma_one(Reason::SsdpDown, x);
}

/// Whether a number of mebibytes is more than so many bytes.
pub open spec fn is_below(free: u64, mebibytes: u64) -> bool {
    free < mebibytes * 1_048_576 && free < u64::MAX
}

proof fn lemma_storage_reasons(facts: StatusFacts, x: Reason)
    ensures
        storage_reasons(facts).contains(x) <==> {
            ||| x == Reason::DatabaseFailed && (facts.database == DbIntegrityResult::Failed
                || facts.database == DbIntegrityResult::Error)
            ||| x == Reason::DatabaseStale && facts.database_stale
            ||| x == Reason::PoolSaturated && facts.pool_configured && facts.readers_available == 0
                && facts.read_waiters > 0
            ||| x == Reason::CacheLow && is_below(facts.cache_free_bytes, facts.cache_min_free_mb)
        },
{
    let a = one_if(
        facts.database == DbIntegrityResult::Failed || facts.database == DbIntegrityResult::Error,
        Reason::DatabaseFailed,
    );
    let b = one_if(facts.database_stale, Reason::DatabaseStale);
    let c = one_if(
        facts.pool_configured && facts.readers_available == 0 && facts.read_waiters > 0,
        Reason::PoolSaturated,
    );
    let low = facts.cache_free_bytes < crate::status::wanted_free_bytes(facts);
    let d = one_if(low, Reason::CacheLow);
    lemma_joined(a, b, x);
    lemma_joined(a + b, c, x);
    lemma_joined(a + b + c, d, x);
    lemma_one_if(
        facts.database == DbIntegrityResult::Failed || facts.database == DbIntegrityResult::Error,
        Reason::DatabaseFailed,
        x,
    );
    lemma_one_if(facts.database_stale, Reason::DatabaseStale, x);
    lemma_one_if(
        facts.pool_configured && facts.readers_available == 0 && facts.read_waiters > 0,
        Reason::PoolSaturated,
        x,
    );
    lemma_one_if(low, Reason::CacheLow, x);
}

/// Whether a thread of that role lives.
pub open spec fn lives(workers: Seq<ScanWorker>, role: Seq<char>) -> bool {
    exists|i: int| 0 <= i < workers.len() && (#[trigger] workers[i]).alive && workers[i].role@ == role
}

/// Whether what keeps the library up to date does: changes are watched for, and
/// where everything is looked at from time to time, that is done.
pub open spec fn keeps_up(facts: StatusFacts) -> bool {
    &&& !facts.stopping
    &&& lives(facts.workers@, "inotify"@)
    &&& facts.rescan_secs == 0 || lives(facts.workers@, "periodic_reconcile"@)
}

/// Whether nothing keeps the library up to date any more.
pub open spec fn fails_to_keep_up(facts: StatusFacts) -> bool {
    &&& !facts.stopping
    &&& facts.workers@.len() > 0
    &&& !lives(facts.workers@, "inotify"@)
    &&& !lives(facts.workers@, "periodic_reconcile"@)
}

/// Whether the last success of a scan is too long ago: more than three of the
/// longest times between two, of five minutes at least.
pub open spec fn is_overdue(facts: StatusFacts) -> bool {
    let longest = if facts.rescan_max_secs == 0 {
        facts.rescan_secs as int
    } else {
        facts.rescan_max_secs as int
    };
    let limit = if longest < 300 {
        900
    } else {
        3 * longest
    };
    facts.last_success_unix is Some && facts.now_unix - facts.last_success_unix->0 > limit
}

proof fn lemma_library_reasons(facts: StatusFacts, x: Reason)
    ensures
        library_reasons(facts).contains(x) <==> {
            ||| x == Reason::WorkersFailed && fails_to_keep_up(facts)
            ||| x == Reason::WorkersIncomplete && !keeps_up(facts) && !fails_to_keep_up(facts)
            ||| x == Reason::ScanStale && is_overdue(facts)
            ||| x == Reason::ScanFailed && facts.scan_error && !is_overdue(facts)
        },
{
    let state = crate::status::watcher_state(facts.workers@, facts.stopping, facts.rescan_secs);
    lemma_joined(crate::status::worker_reasons(state), crate::status::scan_reasons(facts), x);
    lemma_one(Reason::WorkersFailed, x);
    lemma_one(Reason::WorkersIncomplete, x);
    lemma_one(Reason::ScanStale, x);
    lemma_one_if(facts.scan_error, Reason::ScanFailed, x);
    assert(lives(facts.workers@, "inotify"@) == crate::status::role_lives(
        facts.workers@,
        "inotify"@,
    ));
    assert(lives(facts.workers@, "periodic_reconcile"@) == crate::status::role_lives(
        facts.workers@,
        "periodic_reconcile"@,
    ));
    if facts.workers@.len() == 0 {
        assert(!lives(facts.workers@, "inotify"@));
        assert(!lives(facts.workers@, "periodic_reconcile"@));
    }
}

proof fn lemma_service_reasons(facts: StatusFacts, x: Reason)
    ensures
        service_reasons(facts).contains(x) <==> {
            ||| x == Reason::EventsIncomplete && (facts.events_stopping || facts.event_workers_alive
                != facts.event_workers_total)
            ||| x == Reason::HelpersSaturated && facts.helpers_queue_capacity > 0
                && facts.helpers_queued >= facts.helpers_queue_capacity && facts.helpers_active
                >= facts.helpers_max_active
            ||| x == Reason::SupervisorDown && facts.transcode_enabled && !(facts.supervisor_ready
                && facts.remux_supervisor == ComponentState::Running)
            ||| x == Reason::ToolsMissing && !facts.required_tools_ready
        },
{
    let events = facts.event_workers_alive != facts.event_workers_total || facts.events_stopping;
    let a = one_if(events, Reason::EventsIncomplete);
    let b = one_if(crate::status::helpers_full(facts), Reason::HelpersSaturated);
    let c = one_if(crate::status::supervisor_down(facts), Reason::SupervisorDown);
    let d = one_if(!facts.required_tools_ready, Reason::ToolsMissing);
    lemma_joined(a, b, x);
    lemma_joined(a + b, c, x);
    lemma_joined(a + b + c, d, x);
    lemma_one_if(events, Reason::EventsIncomplete, x);
    lemma_one_if(crate::status::helpers_full(facts), Reason::HelpersSaturated, x);
    lemma_one_if(crate::status::supervisor_down(facts), Reason::SupervisorDown, x);
    lemma_one_if(!facts.required_tools_ready, Reason::ToolsMissing, x);
}

proof fn lemma_reasons(facts: StatusFacts, x: Reason)
    ensures
        reasons_of(facts).contains(x) <==> listener_reasons(facts).contains(x) || storage_reasons(
            facts,
        ).contains(x) || library_reasons(facts).contains(x) || service_reasons(facts).contains(x),
{
    let (a, b) = (listener_reasons(facts), storage_reasons(facts));
    let (c, d) = (library_reasons(facts), service_reasons(facts));
    lemma_joined(a, b, x);
    lemma_joined(a + b, c, x);
    lemma_joined(a + b + c, d, x);
}

/// What is wrong is reported, each thing exactly where it is.
pub proof fn law_what_is_wrong_is_reported(facts: &StatusFacts, result: (Health, Vec<Reason>))
    requires
        call_ensures(health_of, (facts,), result),
    ensures
        ({
            let said = result.1@;
            &&& said.contains(Reason::HttpNotStarted) <==> facts.http_listener
                == ComponentState::NotStarted
            &&& said.contains(Reason::HttpDown) <==> facts.http_listener
                != ComponentState::NotStarted && facts.http_listener != ComponentState::Running
            &&& said.contains(Reason::SsdpNotStarted) <==> facts.ssdp == ComponentState::NotStarted
            &&& said.contains(Reason::SsdpDown) <==> facts.ssdp != ComponentState::NotStarted
                && facts.ssdp != ComponentState::Running
            &&& said.contains(Reason::DatabaseFailed) <==> facts.database
                == DbIntegrityResult::Failed || facts.database == DbIntegrityResult::Error
            &&& said.contains(Reason::DatabaseStale) <==> facts.database_stale
            &&& said.contains(Reason::PoolSaturated) <==> facts.pool_configured
                && facts.readers_available == 0 && facts.read_waiters > 0
            &&& said.contains(Reason::CacheLow) <==> is_below(
                facts.cache_free_bytes,
                facts.cache_min_free_mb,
            )
            &&& said.contains(Reason::WorkersFailed) <==> fails_to_keep_up(*facts)
            &&& said.contains(Reason::WorkersIncomplete) <==> !keeps_up(*facts)
                && !fails_to_keep_up(*facts)
            &&& said.contains(Reason::ScanStale) <==> is_overdue(*facts)
            &&& said.contains(Reason::ScanFailed) <==> facts.scan_error && !is_overdue(*facts)
            &&& said.contains(Reason::EventsIncomplete) <==> facts.events_stopping
                || facts.event_workers_alive != facts.event_workers_total
            &&& said.contains(Reason::HelpersSaturated) <==> facts.helpers_queue_capacity > 0
                && facts.helpers_queued >= facts.helpers_queue_capacity && facts.helpers_active
                >= facts.helpers_max_active
            &&& said.contains(Reason::SupervisorDown) <==> facts.transcode_enabled && !(
            facts.supervisor_ready && facts.remux_supervisor == ComponentState::Running)
            &&& said.contains(Reason::ToolsMissing) <==> !facts.required_tools_ready
        }),
{
    assert forall|x: Reason| #[trigger] result.1@.contains(x) <==> listener_reasons(
        *facts,
    ).contains(x) || storage_reasons(*facts).contains(x) || library_reasons(*facts).contains(x)
        || service_reasons(*facts).contains(x) by {
        lemma_reasons(*facts, x);
    }
    assert forall|x: Reason| #[trigger] listener_reasons(*facts).contains(x) implies (x
        == Reason::HttpNotStarted || x == Reason::HttpDown || x == Reason::SsdpNotStarted || x
        == Reason::SsdpDown) by {
        lemma_listener_reasons(*facts, x);
    }
    assert forall|x: Reason| #[trigger] storage_reasons(*facts).contains(x) implies (x
        == Reason::DatabaseFailed || x == Reason::DatabaseStale || x == Reason::PoolSaturated || x
        == Reason::CacheLow) by {
        lemma_storage_reasons(*facts, x);
    }
    assert forall|x: Reason| #[trigger] library_reasons(*facts).contains(x) implies (x
        == Reason::WorkersFailed || x == Reason::WorkersIncomplete || x == Reason::ScanStale || x
        == Reason::ScanFailed) by {
        lemma_library_reasons(*facts, x);
    }
    assert forall|x: Reason| #[trigger] service_reasons(*facts).contains(x) implies (x
        == Reason::EventsIncomplete || x == Reason::HelpersSaturated || x == Reason::SupervisorDown
        || x == Reason::ToolsMissing) by {
        lemma_service_reasons(*facts, x);
    }
    lemma_listener_reasons(*facts, Reason::HttpNotStarted);
    lemma_listener_reasons(*facts, Reason::HttpDown);
    lemma_listener_reasons(*facts, Reason::SsdpNotStarted);
    lemma_listener_reasons(*facts, Reason::SsdpDown);
    lemma_storage_reasons(*facts, Reason::DatabaseFailed);
    lemma_storage_reasons(*facts, Reason::DatabaseStale);
    lemma_storage_reasons(*facts, Reason::PoolSaturated);
    lemma_storage_reasons(*facts, Reason::CacheLow);
    lemma_library_reasons(*facts, Reason::WorkersFailed);
    lemma_library_reasons(*facts, Reason::WorkersIncomplete);
    lemma_library_reasons(*facts, Reason::ScanStale);
    lemma_library_reasons(*facts, Reason::ScanFailed);
    lemma_service_reasons(*facts, Reason::EventsIncomplete);
    lemma_service_reasons(*facts, Reason::HelpersSaturated);
    lemma_service_reasons(*facts, Reason::SupervisorDown);
    lemma_service_reasons(*facts, Reason::ToolsMissing);
}

proof fn lemma_health(reasons: Seq<Reason>)
    ensures
        health_for(reasons) == Health::Healthy <==> reasons.len() == 0,
        health_for(reasons) == Health::Unhealthy <==> reasons.contains(Reason::HttpDown)
            || reasons.contains(Reason::DatabaseFailed) || reasons.contains(Reason::WorkersFailed),
    decreases reasons.len(),
{
    if reasons.len() > 0 {
        let before = reasons.drop_last();
        lemma_health(before);
        assert(reasons =~= before + seq![reasons.last()]);
        lemma_joined(before, seq![reasons.last()], Reason::HttpDown);
        lemma_joined(before, seq![reasons.last()], Reason::DatabaseFailed);
        lemma_joined(before, seq![reasons.last()], Reason::WorkersFailed);
        lemma_one(reasons.last(), Reason::HttpDown);
        lemma_one(reasons.last(), Reason::DatabaseFailed);
        lemma_one(reasons.last(), Reason::WorkersFailed);
    }
}

/// The server is healthy exactly where nothing is wrong. It is unhealthy, and says
/// so in the status of its answer, exactly where it does not accept connections,
/// its database is broken, or nothing keeps the library up to date.
pub proof fn law_only_what_is_fatal_makes_unhealthy(
    facts: &StatusFacts,
    catalog: Option<CatalogFacts>,
    health_only: bool,
    result: (u16, StatusReport),
)
    requires
        call_ensures(status_json, (facts, catalog, health_only), result),
    ensures
        ({
            let fatal = (facts.http_listener != ComponentState::NotStarted && facts.http_listener
                != ComponentState::Running) || facts.database == DbIntegrityResult::Failed
                || facts.database == DbIntegrityResult::Error || fails_to_keep_up(*facts);
            &&& result.1.health == Health::Unhealthy <==> fatal
            &&& result.0 == 503 <==> fatal
            &&& result.0 == 200 <==> !fatal
            &&& result.1.health == Health::Healthy <==> result.1.reasons@.len() == 0
        }),
{
    lemma_health(reasons_of(*facts));
    lemma_reasons(*facts, Reason::HttpDown);
    lemma_reasons(*facts, Reason::DatabaseFailed);
    lemma_reasons(*facts, Reason::WorkersFailed);
    lemma_listener_reasons(*facts, Reason::HttpDown);
    lemma_storage_reasons(*facts, Reason::HttpDown);
    lemma_library_reasons(*facts, Reason::HttpDown);
    lemma_service_reasons(*facts, Reason::HttpDown);
    lemma_listener_reasons(*facts, Reason::DatabaseFailed);
    lemma_storage_reasons(*facts, Reason::DatabaseFailed);
    lemma_library_reasons(*facts, Reason::DatabaseFailed);
    lemma_service_reasons(*facts, Reason::DatabaseFailed);
    lemma_listener_reasons(*facts, Reason::WorkersFailed);
    lemma_storage_reasons(*facts, Reason::WorkersFailed);
    lemma_library_reasons(*facts, Reason::WorkersFailed);
    lemma_service_reasons(*facts, Reason::WorkersFailed);
}

/// A report says the same of the server however it is asked for, and walks the
/// catalog only where more than its health is asked for.
pub proof fn law_reports_agree(
    facts: &StatusFacts,
    catalog: Option<CatalogFacts>,
    health_only: bool,
    result: (u16, StatusReport),
    found: (Health, Vec<Reason>),
)
    requires
        call_ensures(status_json, (facts, catalog, health_only), result),
        call_ensures(health_of, (facts,), found),
    ensures
        result.1.health == found.0,
        result.1.reasons@ == found.1@,
        result.1.catalog is Some <==> catalog is Some && !health_only,
        result.1.sections@.contains(StatusSection::Catalog) <==> !health_only,
        result.1.reconcile_max_secs == if facts.rescan_max_secs == 0 {
            facts.rescan_secs
        } else {
            facts.rescan_max_secs
        },
        facts.cache_min_free_mb * 1_048_576 <= u64::MAX ==> result.1.minimum_free_bytes
            == facts.cache_min_free_mb * 1_048_576,
{
    let all = crate::status::all_sections();
    assert(all[5] == StatusSection::Catalog);
    assert(all.contains(StatusSection::Catalog));
}

/// The states of the threads that keep the library up to date are those of the
/// threads of that role.
pub proof fn law_workers_are_reported_by_role(
    workers: &[ScanWorker],
    stopping: bool,
    rescan_secs: u64,
    report: WorkerReport,
)
    requires
        call_ensures(worker_report, (workers, stopping, rescan_secs), report),
    ensures
        ({
            let watching = lives(workers@, "inotify"@);
            let reconciling = lives(workers@, "periodic_reconcile"@);
            &&& report.inotify == WorkerState::Running <==> !stopping && watching
            &&& report.periodic_reconcile == WorkerState::Disabled <==> rescan_secs == 0
            &&& report.periodic_reconcile == WorkerState::Running <==> rescan_secs > 0 && !stopping
                && reconciling
            &&& report.worker_state == WorkerState::Running <==> !stopping && watching && (
            rescan_secs == 0 || reconciling)
            &&& report.worker_state == WorkerState::Stopping <==> stopping
            &&& report.worker_state == WorkerState::NotStarted <==> !stopping && workers@.len() == 0
            &&& report.worker_state == WorkerState::Failed <==> !stopping && workers@.len() > 0
                && !watching && !reconciling
            &&& report.workers_total == workers@.len()
            &&& (forall|i: int| 0 <= i < workers@.len() ==> (#[trigger] workers@[i]).alive)
                ==> report.workers_alive == workers@.len()
            &&& (forall|i: int| 0 <= i < workers@.len() ==> !(#[trigger] workers@[i]).alive)
                ==> report.workers_alive == 0
        }),
{
    assert(lives(workers@, "inotify"@) == crate::status::role_lives(workers@, "inotify"@));
    assert(lives(workers@, "periodic_reconcile"@) == crate::status::role_lives(
        workers@,
        "periodic_reconcile"@,
    ));
    lemma_living(workers@, workers@.len() as int);
    if workers@.len() == 0 {
        assert(!lives(workers@, "inotify"@));
        assert(!lives(workers@, "periodic_reconcile"@));
    }
}

proof fn lemma_living(workers: Seq<ScanWorker>, n: int)
    requires
        0 <= n <= workers.len(),
    ensures
        (forall|i: int| 0 <= i < n ==> (#[trigger] workers[i]).alive) ==> living(workers, n) == n,
        (forall|i: int| 0 <= i < n ==> !(#[trigger] workers[i]).alive) ==> living(workers, n) == 0,
    decreases n,
{
    if n > 0 {
        lemma_living(workers, n - 1);
        if forall|i: int| 0 <= i < n ==> (#[trigger] workers[i]).alive {
            assert(workers[n - 1].alive);
        }
        if forall|i: int| 0 <= i < n ==> !(#[trigger] workers[i]).alive {
            assert(!workers[n - 1].alive);
        }
    }
}

/// Of the path that the scanner looks at the last name is shown, and nothing above
/// it.
pub proof fn law_the_last_name_is_shown(
    path: &str,
    parts: Seq<Seq<char>>,
    entry: Option<String>,
)
    requires
        call_ensures(current_entry, (Some(path),), entry),
        parts.len() > 0,
        forall|i: int| 0 <= i < parts.len() ==> is_without(#[trigger] parts[i], '/'),
        path@ == in_a_row(parts, '/'),
        parts.last().len() > 0,
        parts.last() != "."@,
    ensures
        parts.last() == ".."@ ==> entry is None,
        parts.last() != ".."@ ==> opt(entry) == Some(parts.last()),
{
    lemma_split_row(parts, '/');
    reveal_strlit("");
    assert(last_name(parts, parts.len() as int) == Some(parts[parts.len() - 1]));
}

/// Waiting times are counted up to each bound: one count more than the bound
/// before it, by its own.
pub proof fn law_waits_are_counted_up(counts: &[u64], buckets: Vec<WaitBucket>, i: int)
    requires
        call_ensures(wait_buckets, (counts,), buckets),
        0 <= i < counts@.len() <= 6,
    ensures
        buckets@.len() == counts@.len(),
        i == 0 ==> buckets@[0].count == counts@[0] && buckets@[0].le_ms@ == "10"@,
        i == 1 ==> buckets@[1].le_ms@ == "50"@,
        i == 2 ==> buckets@[2].le_ms@ == "100"@,
        i == 3 ==> buckets@[3].le_ms@ == "500"@,
        i == 4 ==> buckets@[4].le_ms@ == "1000"@,
        i == 5 ==> buckets@[5].le_ms@ == "+Inf"@,
        i > 0 && buckets@[i - 1].count + counts@[i] <= u64::MAX ==> buckets@[i].count == buckets@[i
            - 1].count + counts@[i],
{
    reveal_with_fuel(crate::status::total_of, 2);
}

/// What oversees conversions, and what delivers events, is said to be doing what it
/// does.
pub proof fn law_services_say_what_they_do(
    enabled: bool,
    ready: bool,
    running: &'static str,
    supervisor: &'static str,
    stopping: bool,
    alive: usize,
    total: usize,
    events: &'static str,
)
    requires
        call_ensures(supervisor_state, (enabled, ready, running), supervisor),
        call_ensures(event_worker_state, (stopping, alive, total), events),
    ensures
        enabled && ready ==> supervisor@ == running@,
        enabled && !ready ==> supervisor@ == "failed"@,
        !enabled ==> supervisor@ == "disabled"@,
        stopping ==> events@ == "stopping"@,
        !stopping && alive == total ==> events@ == "running"@,
        !stopping && alive != total ==> events@ == "degraded"@,
{
}

// ------------------------------------------------------------------- catalog

proof fn lemma_prefix(a: Seq<MediaItem>, b: Seq<MediaItem>, n: int)
    requires
        0 <= n <= a.len(),
        n <= b.len(),
        forall|i: int| 0 <= i < n ==> a[i] == b[i],
    ensures
        records(a, n) == records(b, n),
        files(a, n) == files(b, n),
        captions_of(a, n) == captions_of(b, n),
    decreases n,
{
    if n > 0 {
        lemma_prefix(a, b, n - 1);
    }
}

proof fn lemma_count_prefix(a: Seq<MediaItem>, b: Seq<MediaItem>, class: RecordClass, n: int)
    requires
        0 <= n <= a.len(),
        n <= b.len(),
        forall|i: int| 0 <= i < n ==> a[i] == b[i],
    ensures
        count_of(a, class, n) == count_of(b, class, n),
    decreases n,
{
    if n > 0 {
        lemma_count_prefix(a, b, class, n - 1);
        lemma_prefix(a, b, n - 1);
    }
}

proof fn lemma_records(items: Seq<MediaItem>, n: int, id: i64)
    requires
        0 <= n <= items.len(),
    ensures
        records(items, n).contains(id) <==> exists|i: int|
            0 <= i < n && (#[trigger] items[i]).detail_id == id,
        records(items, n).finite(),
        files(items, n).finite(),
    decreases n,
{
    if n > 0 {
        lemma_records(items, n - 1, id);
        if items[n - 1].detail_id == id {
            assert(items[n - 1].detail_id == id);
        }
    }
}

/// A title that is counted anew adds one to the records of its own kind, and its
/// captions; another listing of a title that is counted adds an object alone.
pub proof fn law_one_more_title_is_counted(
    items: &[MediaItem],
    more: &[MediaItem],
    item: MediaItem,
    containers: usize,
    bytes: u64,
    before: CatalogCounts,
    after: CatalogCounts,
)
    requires
        call_ensures(catalog_counts, (items, containers, bytes), before),
        call_ensures(catalog_counts, (more, containers, bytes), after),
        more@ == items@.push(item),
        before.audio_records < u32::MAX,
        before.video_records < u32::MAX,
        before.image_records < u32::MAX,
        before.video_with_art < u32::MAX,
        before.captions + item.captions@.len() < u32::MAX,
    ensures
        ({
            let known = exists|i: int|
                0 <= i < items@.len() && (#[trigger] items@[i]).detail_id == item.detail_id;
            let (audio, video) = (is_of_audio(item.mime@), is_of_video(item.mime@));
            let image = !audio && !video && begins(item.mime@, "image/"@);
            let one = |holds: bool|
                if holds && !known {
                    1int
                } else {
                    0int
                };
            &&& after.item_objects == before.item_objects + 1
            &&& after.container_objects == containers
            &&& after.media_records == before.media_records + one(true)
            &&& after.audio_records == before.audio_records + one(audio)
            &&& after.video_records == before.video_records + one(video)
            &&& after.image_records == before.image_records + one(image)
            &&& after.video_with_art == before.video_with_art + one(video && item.album_art > 0)
            &&& after.captions == before.captions + if known {
                0
            } else {
                item.captions@.len() as int
            }
        }),
{
    let n = items@.len() as int;
    lemma_prefix(items@, more@, n);
    lemma_records(items@, n, item.detail_id);
    assert(more@[n] == item);
    assert(is_first(more@, n) == !records(items@, n).contains(item.detail_id));
    reveal_strlit("video/");
    reveal_strlit("audio/");
    assert("video/"@ =~= seq!['v', 'i', 'd', 'e', 'o', '/']);
    assert("audio/"@ =~= seq!['a', 'u', 'd', 'i', 'o', '/']);
    if is_of_audio(item.mime@) && is_of_video(item.mime@) {
        assert(item.mime@.take(6)[0] == 'a');
        assert(item.mime@.take(6)[0] == 'v');
    }
    if item.mime@.len() >= "image/"@.len() {
        assert(item.mime@.subrange(0, "image/"@.len() as int) =~= item.mime@.take(
            "image/"@.len() as int,
        ));
    }
    lemma_count_prefix(items@, more@, RecordClass::Audio, n);
    lemma_count_prefix(items@, more@, RecordClass::Video, n);
    lemma_count_prefix(items@, more@, RecordClass::Image, n);
    lemma_count_prefix(items@, more@, RecordClass::VideoWithArt, n);
}

/// An empty catalog counts nothing.
pub proof fn law_nothing_is_counted_of_nothing(
    items: &[MediaItem],
    containers: usize,
    bytes: u64,
    counts: CatalogCounts,
)
    requires
        call_ensures(catalog_counts, (items, containers, bytes), counts),
        items@.len() == 0,
    ensures
        counts.audio_records == 0 && counts.video_records == 0 && counts.image_records == 0,
        counts.physical_inodes == 0 && counts.path_aliases == 0 && counts.media_records == 0,
        counts.item_objects == 0 && counts.captions == 0 && counts.video_with_art == 0,
        counts.container_objects == containers && counts.total_objects == containers,
        counts.estimated_memory_bytes == bytes,
{
}

/// What a larger catalog would take is reckoned by what an object takes now.
pub proof fn law_memory_is_reckoned_by_the_object(
    counts: &CatalogCounts,
    object_size: u64,
    projected: ProjectedMemory,
)
    requires
        call_ensures(projected_memory, (counts, object_size), projected),
        projected.objects_1000000 < u64::MAX,
    ensures
        counts.total_objects == 0 ==> projected.objects_10000 == 10_000 * object_size,
        counts.total_objects > 0 ==> projected.objects_10000 == 10_000 * (
        counts.estimated_memory_bytes as int / counts.total_objects as int),
        projected.objects_100000 == 10 * projected.objects_10000,
        projected.objects_1000000 == 10 * projected.objects_100000,
{
}

// ---------------------------------------------------------------------- page

/// Rows one behind the other.
spec fn rows_text(rows: Seq<Seq<char>>) -> Seq<char>
    decreases rows.len(),
{
    if rows.len() == 0 {
        Seq::empty()
    } else {
        rows_text(rows.drop_last()) + rows.last()
    }
}

proof fn lemma_rows_hold(rows: Seq<Seq<char>>, i: int)
    requires
        0 <= i < rows.len(),
    ensures
        holds_text(rows_text(rows), rows[i]),
    decreases rows.len(),
{
    let before = rows_text(rows.drop_last());
    if i == rows.len() - 1 {
        lemma_holds_behind(before, rows.last());
    } else {
        lemma_rows_hold(rows.drop_last(), i);
        lemma_holds_before(before, rows.last(), rows[i]);
    }
}

proof fn lemma_holds_behind(a: Seq<char>, b: Seq<char>)
    ensures
        holds_text(a + b, b),
{
    let k = a.len() as int;
    assert((a + b).subrange(k, k + b.len()) =~= b);
    assert(occurs_at(a + b, b, k));
}

proof fn lemma_holds_before(a: Seq<char>, b: Seq<char>, p: Seq<char>)
    requires
        holds_text(a, p),
    ensures
        holds_text(a + b, p),
{
    let k = choose|k: int| occurs_at(a, p, k);
    assert((a + b).subrange(k, k + p.len()) =~= a.subrange(k, k + p.len()));
    assert(occurs_at(a + b, p, k));
}

proof fn lemma_holds_after(a: Seq<char>, b: Seq<char>, p: Seq<char>)
    requires
        holds_text(b, p),
    ensures
        holds_text(a + b, p),
{
    let k = choose|k: int| occurs_at(b, p, k);
    let j = a.len() + k;
    assert((a + b).subrange(j, j + p.len()) =~= b.subrange(k, k + p.len()));
    assert(occurs_at(a + b, p, j));
}

/// Whether a page shows a number beside a label.
pub open spec fn shows_number(html: Seq<char>, label: Seq<char>, n: nat) -> bool {
    holds_text(
        html,
        "<tr><td>"@ + label + "</td><td>"@ + crate::number::decimal_text(n) + "</td></tr>"@,
    )
}

/// The page shows every count of the catalog beside its own label.
pub proof fn law_the_page_shows_the_catalog(
    health: Health,
    catalog: &CatalogCounts,
    page: &StatusPage,
    html: String,
)
    requires
        call_ensures(status_html, (health, catalog, page), html),
    ensures
        shows_number(html@, "Audio"@, catalog.audio_records as nat),
        shows_number(html@, "Video"@, catalog.video_records as nat),
        shows_number(html@, "Image"@, catalog.image_records as nat),
        shows_number(html@, "Physical files"@, catalog.physical_inodes as nat),
        shows_number(html@, "Path aliases"@, catalog.path_aliases as nat),
        shows_number(html@, "Media records"@, catalog.media_records as nat),
        shows_number(html@, "Item objects"@, catalog.item_objects as nat),
        shows_number(html@, "Containers"@, catalog.container_objects as nat),
        shows_number(html@, "Total objects"@, catalog.total_objects as nat),
        shows_number(html@, "Captions"@, catalog.captions as nat),
        shows_number(html@, "UpdateID"@, page.update_id as nat),
{
    let rows = seq![
        number_row("Audio"@, catalog.audio_records as nat),
        number_row("Video"@, catalog.video_records as nat),
        number_row("Image"@, catalog.image_records as nat),
        number_row("Physical files"@, catalog.physical_inodes as nat),
        number_row("Path aliases"@, catalog.path_aliases as nat),
        number_row("Media records"@, catalog.media_records as nat),
        number_row("Item objects"@, catalog.item_objects as nat),
        number_row("Containers"@, catalog.container_objects as nat),
        number_row("Total objects"@, catalog.total_objects as nat),
        number_row("Captions"@, catalog.captions as nat),
        number_row("UpdateID"@, page.update_id as nat),
    ];
    lemma_catalog_rows(*catalog, *page, rows);
    assert forall|i: int| 0 <= i < rows.len() implies holds_text(html@, #[trigger] rows[i]) by {
        lemma_rows_hold(rows, i);
        lemma_in_page(health, *catalog, *page, rows[i]);
    }
    assert(holds_text(html@, rows[0]) && holds_text(html@, rows[1]) && holds_text(html@, rows[2]));
    assert(holds_text(html@, rows[3]) && holds_text(html@, rows[4]) && holds_text(html@, rows[5]));
    assert(holds_text(html@, rows[6]) && holds_text(html@, rows[7]) && holds_text(html@, rows[8]));
    assert(holds_text(html@, rows[9]) && holds_text(html@, rows[10]));
}

proof fn lemma_catalog_rows(catalog: CatalogCounts, page: StatusPage, rows: Seq<Seq<char>>)
    requires
        rows == seq![
            number_row("Audio"@, catalog.audio_records as nat),
            number_row("Video"@, catalog.video_records as nat),
            number_row("Image"@, catalog.image_records as nat),
            number_row("Physical files"@, catalog.physical_inodes as nat),
            number_row("Path aliases"@, catalog.path_aliases as nat),
            number_row("Media records"@, catalog.media_records as nat),
            number_row("Item objects"@, catalog.item_objects as nat),
            number_row("Containers"@, catalog.container_objects as nat),
            number_row("Total objects"@, catalog.total_objects as nat),
            number_row("Captions"@, catalog.captions as nat),
            number_row("UpdateID"@, page.update_id as nat),
        ],
    ensures
        rows_text(rows) == catalog_rows(catalog, page),
{
    assert(rows.take(11) =~= rows);
    assert(rows.take(0) =~= Seq::<Seq<char>>::empty());
    assert forall|n: int| 0 < n <= 11 implies #[trigger] rows_text(rows.take(n)) == rows_text(
        rows.take(n - 1),
    ) + rows[n - 1] by {
        assert(rows.take(n).drop_last() =~= rows.take(n - 1));
        assert(rows.take(n).last() == rows[n - 1]);
    }
    assert(rows_text(rows.take(0)) == Seq::<char>::empty());
    assert(rows_text(rows.take(1)) == rows_text(rows.take(0)) + rows[0]);
    assert(rows_text(rows.take(2)) == rows_text(rows.take(1)) + rows[1]);
    assert(rows_text(rows.take(3)) == rows_text(rows.take(2)) + rows[2]);
    assert(rows_text(rows.take(4)) == rows_text(rows.take(3)) + rows[3]);
    assert(rows_text(rows.take(5)) == rows_text(rows.take(4)) + rows[4]);
    assert(rows_text(rows.take(6)) == rows_text(rows.take(5)) + rows[5]);
    assert(rows_text(rows.take(7)) == rows_text(rows.take(6)) + rows[6]);
    assert(rows_text(rows.take(8)) == rows_text(rows.take(7)) + rows[7]);
    assert(rows_text(rows.take(9)) == rows_text(rows.take(8)) + rows[8]);
    assert(rows_text(rows.take(10)) == rows_text(rows.take(9)) + rows[9]);
    assert(rows_text(rows.take(11)) == rows_text(rows.take(10)) + rows[10]);
}

proof fn lemma_in_page(health: Health, catalog: CatalogCounts, page: StatusPage, p: Seq<char>)
    requires
        holds_text(catalog_rows(catalog, page), p),
    ensures
        holds_text(page_text(health, catalog, page), p),
{
    let head = "<html><head><title>"@ + escaped(page.name@)
        + "</title><meta http-equiv=\"refresh\" content=\"20\"></head><body><h1>"@ + escaped(
        page.name@,
    ) + "</h1><p>Health: "@ + health.name() + "</p><table>"@;
    let rows = catalog_rows(catalog, page);
    let more = activity_rows(page);
    let tail =
        "</table><p><a href=\"/api/status\">Machine-readable status</a></p></body></html>"@;
    lemma_holds_after(head, rows, p);
    lemma_holds_before(head + rows, more, p);
    lemma_holds_before(head + rows + more, tail, p);
}

} // verus!
