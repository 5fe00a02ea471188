//! What is counted of playback in browsers.
use vstd::prelude::*;

verus! {

/// How often something happened since a playback began, and after how long.
#[derive(Clone, Copy, Debug, Default, PartialEq, Eq, Structural)]
pub struct PhaseTimes {
    pub count: u64,
    pub sum_ms: u64,
    pub max_ms: u64,
}

/// A moment in the start of a playback.
#[derive(Clone, Copy, Debug, PartialEq, Eq, Structural)]
pub enum StartupPhase {
    InitialBytes,
    FirstPlayable,
    PlaylistReady,
    MsePlaylistReceived,
    MseInitFetched,
    MseInitAppended,
    MseFirstFragmentFetched,
    MseFirstFragmentAppended,
    CanPlay,
    Playing,
}

impl StartupPhase {
    /// The name under which the moment is reported.
    pub open spec fn key(self) -> Seq<char> {
        match self {
            StartupPhase::InitialBytes => "startup_to_initial_bytes_ms"@,
            StartupPhase::FirstPlayable => "startup_to_first_playable_ms"@,
            StartupPhase::PlaylistReady => "startup_to_playlist_ready_ms"@,
            StartupPhase::MsePlaylistReceived => "startup_to_mse_playlist_received_ms"@,
            StartupPhase::MseInitFetched => "startup_to_mse_init_fetched_ms"@,
            StartupPhase::MseInitAppended => "startup_to_mse_init_appended_ms"@,
            StartupPhase::MseFirstFragmentFetched => "startup_to_mse_first_fragment_fetched_ms"@,
            StartupPhase::MseFirstFragmentAppended => "startup_to_mse_first_fragment_appended_ms"@,
            StartupPhase::CanPlay => "startup_to_canplay_ms"@,
            StartupPhase::Playing => "startup_to_playing_ms"@,
        }
    }

    /// The name under which the moment is reported.
    pub fn name(self) -> (name: &'static str)
        ensures
            name@ == self.key(),
    {
        match self {
            StartupPhase::InitialBytes => "startup_to_initial_bytes_ms",
            StartupPhase::FirstPlayable => "startup_to_first_playable_ms",
            StartupPhase::PlaylistReady => "startup_to_playlist_ready_ms",
            StartupPhase::MsePlaylistReceived => "startup_to_mse_playlist_received_ms",
            StartupPhase::MseInitFetched => "startup_to_mse_init_fetched_ms",
            StartupPhase::MseInitAppended => "startup_to_mse_init_appended_ms",
            StartupPhase::MseFirstFragmentFetched => "startup_to_mse_first_fragment_fetched_ms",
            StartupPhase::MseFirstFragmentAppended => "startup_to_mse_first_fragment_appended_ms",
            StartupPhase::CanPlay => "startup_to_canplay_ms",
            StartupPhase::Playing => "startup_to_playing_ms",
        }
    }
}

/// The moments in the start of a playback, in the order in which they are
/// reported.
pub open spec fn startup_phases() -> Seq<StartupPhase> {
    seq![
        StartupPhase::InitialBytes,
        StartupPhase::FirstPlayable,
        StartupPhase::PlaylistReady,
        StartupPhase::MsePlaylistReceived,
        StartupPhase::MseInitFetched,
        StartupPhase::MseInitAppended,
        StartupPhase::MseFirstFragmentFetched,
        StartupPhase::MseFirstFragmentAppended,
        StartupPhase::CanPlay,
        StartupPhase::Playing,
    ]
}

/// The times of the moments in the start of playbacks.
#[derive(Clone, Copy, Debug, Default, PartialEq, Eq, Structural)]
pub struct StartupTimes {
    pub initial_bytes: PhaseTimes,
    pub first_playable: PhaseTimes,
    pub playlist_ready: PhaseTimes,
    pub mse_playlist_received: PhaseTimes,
    pub mse_init_fetched: PhaseTimes,
    pub mse_init_appended: PhaseTimes,
    pub mse_first_fragment_fetched: PhaseTimes,
    pub mse_first_fragment_appended: PhaseTimes,
    pub canplay: PhaseTimes,
    pub playing: PhaseTimes,
}

impl StartupTimes {
    /// The times of a moment.
    pub open spec fn at(self, phase: StartupPhase) -> PhaseTimes {
        match phase {
            StartupPhase::InitialBytes => self.initial_bytes,
            StartupPhase::FirstPlayable => self.first_playable,
            StartupPhase::PlaylistReady => self.playlist_ready,
            StartupPhase::MsePlaylistReceived => self.mse_playlist_received,
            StartupPhase::MseInitFetched => self.mse_init_fetched,
            StartupPhase::MseInitAppended => self.mse_init_appended,
            StartupPhase::MseFirstFragmentFetched => self.mse_first_fragment_fetched,
            StartupPhase::MseFirstFragmentAppended => self.mse_first_fragment_appended,
            StartupPhase::CanPlay => self.canplay,
            StartupPhase::Playing => self.playing,
        }
    }

    /// The times of a moment.
    pub fn of(&self, phase: StartupPhase) -> (times: PhaseTimes)
        ensures
            times == self.at(phase),
    {
        match phase {
            StartupPhase::InitialBytes => self.initial_bytes,
            StartupPhase::FirstPlayable => self.first_playable,
            StartupPhase::PlaylistReady => self.playlist_ready,
            StartupPhase::MsePlaylistReceived => self.mse_playlist_received,
            StartupPhase::MseInitFetched => self.mse_init_fetched,
            StartupPhase::MseInitAppended => self.mse_init_appended,
            StartupPhase::MseFirstFragmentFetched => self.mse_first_fragment_fetched,
            StartupPhase::MseFirstFragmentAppended => self.mse_first_fragment_appended,
            StartupPhase::CanPlay => self.canplay,
            StartupPhase::Playing => self.playing,
        }
    }
}

/// What is counted of playback in browsers.
#[derive(Clone, Copy, Debug, Default, PartialEq, Eq, Structural)]
pub struct PlayerFacts {
    pub requests_total: u64,
    pub seek_restarts_total: u64,
    pub cache_reuses_total: u64,
    pub prepared_reuses_total: u64,
    pub cancellations_total: u64,
    pub busy_failures_total: u64,
    pub producer_failures_total: u64,
    pub startup: StartupTimes,
}

/// A number under a name.
pub struct NamedTotal {
    pub name: &'static str,
    pub total: u64,
}

/// The names and numbers of a list.
pub open spec fn totals_said(totals: Seq<NamedTotal>) -> Seq<(Seq<char>, u64)> {
    totals.map_values(|named: NamedTotal| (named.name@, named.total))
}

/// The times of a moment under its name.
pub struct NamedTimes {
    pub name: &'static str,
    pub times: PhaseTimes,
}

/// The section of a report on playback in browsers.
pub struct PlayerReport {
    pub totals: Vec<NamedTotal>,
    pub failures: Vec<NamedTotal>,
    pub startup: Vec<NamedTimes>,
}

/// The names and numbers of the section, failures and times aside.
pub open spec fn player_totals(facts: PlayerFacts) -> Seq<(Seq<char>, u64)> {
    seq![
        ("requests_total"@, facts.requests_total),
        ("seek_restarts_total"@, facts.seek_restarts_total),
        ("cache_reuses_total"@, facts.cache_reuses_total),
        ("prepared_reuses_total"@, facts.prepared_reuses_total),
        ("cancellations_total"@, facts.cancellations_total),
    ]
}

/// The names and numbers of failures.
pub open spec fn player_failures(facts: PlayerFacts) -> Seq<(Seq<char>, u64)> {
    seq![
        ("busy_total"@, facts.busy_failures_total),
        ("producer_total"@, facts.producer_failures_total),
    ]
}

/// Whether a section reports what was counted: every number, and every moment in
/// the start of playbacks under its name.
pub open spec fn is_player_report(report: PlayerReport, facts: PlayerFacts) -> bool {
    &&& totals_said(report.totals@) == player_totals(facts)
    &&& totals_said(report.failures@) == player_failures(facts)
    &&& report.startup@.len() == startup_phases().len()
    &&& forall|i: int|
        0 <= i < startup_phases().len() ==> (#[trigger] report.startup@[i]).name@
            == startup_phases()[i].key() && report.startup@[i].times == facts.startup.at(
            startup_phases()[i],
        )
}

/// Reports on playback in browsers.
pub fn player_report(facts: &PlayerFacts) -> (report: PlayerReport)
    ensures
        is_player_report(report, *facts),
{
    let totals = vec![
        NamedTotal { name: "requests_total", total: facts.requests_total },
        NamedTotal { name: "seek_restarts_total", total: facts.seek_restarts_total },
        NamedTotal { name: "cache_reuses_total", total: facts.cache_reuses_total },
        NamedTotal { name: "prepared_reuses_total", total: facts.prepared_reuses_total },
        NamedTotal { name: "cancellations_total", total: facts.cancellations_total },
    ];
    let failures = vec![
        NamedTotal { name: "busy_total", total: facts.busy_failures_total },
        NamedTotal { name: "producer_total", total: facts.producer_failures_total },
    ];
    let phases: [StartupPhase; 10] = [
        StartupPhase::InitialBytes,
        StartupPhase::FirstPlayable,
        StartupPhase::PlaylistReady,
        StartupPhase::MsePlaylistReceived,
        StartupPhase::MseInitFetched,
        StartupPhase::MseInitAppended,
        StartupPhase::MseFirstFragmentFetched,
        StartupPhase::MseFirstFragmentAppended,
        StartupPhase::CanPlay,
        StartupPhase::Playing,
    ];
    proof {
        assert(totals_said(totals@) =~= player_totals(*facts));
        assert(totals_said(failures@) =~= player_failures(*facts));
        assert(phases@ =~= startup_phases());
    }
    let mut startup: Vec<NamedTimes> = Vec::new();
    let mut i: usize = 0;
    while i < 10
        invariant
            i <= 10,
            phases@ == startup_phases(),
            startup@.len() == i,
            forall|j: int|
                0 <= j < i ==> (#[trigger] startup@[j]).name@ == startup_phases()[j].key()
                    && startup@[j].times == facts.startup.at(startup_phases()[j]),
        decreases 10 - i,
    {
        let phase = phases[i];
        startup.push(NamedTimes { name: phase.name(), times: facts.startup.of(phase) });
        i += 1;
    }
    PlayerReport { totals, failures, startup }
}

// -------------------------------------------------------------------- laws

/// Every moment in the start of a playback is reported, whatever was counted.
pub proof fn law_every_phase_is_reported(
    report: PlayerReport,
    facts: PlayerFacts,
    phase: StartupPhase,
)
    requires
        is_player_report(report, facts),
    ensures
        exists|i: int|
            0 <= i < report.startup@.len() && (#[trigger] report.startup@[i]).name@ == phase.key()
                && report.startup@[i].times == facts.startup.at(phase),
{
    let phases = startup_phases();
    let i: int = match phase {
        StartupPhase::InitialBytes => 0,
        StartupPhase::FirstPlayable => 1,
        StartupPhase::PlaylistReady => 2,
        StartupPhase::MsePlaylistReceived => 3,
        StartupPhase::MseInitFetched => 4,
        StartupPhase::MseInitAppended => 5,
        StartupPhase::MseFirstFragmentFetched => 6,
        StartupPhase::MseFirstFragmentAppended => 7,
        StartupPhase::CanPlay => 8,
        StartupPhase::Playing => 9,
    };
    assert(phases[i] == phase);
    assert(report.startup@[i].name@ == phase.key());
}

} // verus!
