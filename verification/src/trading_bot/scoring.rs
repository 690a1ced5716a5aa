//! Whether an order earns rewards.

use crate::trading_bot::config::BotConfig;
use crate::trading_bot::config::BotSettings;
use crate::trading_bot::monitor::SECOND;
use vstd::prelude::*;

verus! {

/// Nanoseconds in a millisecond.
pub const MILLISECOND: u128 = 1_000_000;

/// What a look at an order's score gave.
#[derive(Clone, Copy, Debug, PartialEq, Eq, Structural)]
pub enum ScoringResult {
    Scoring,
    NotScoring,
    Failed,
}

impl ScoringResult {
    pub open spec fn name(self) -> Seq<char> {
        match self {
            ScoringResult::Scoring => "SCORING"@,
            ScoringResult::NotScoring => "NOT_SCORING"@,
            ScoringResult::Failed => "ERROR"@,
        }
    }

    /// The state in the scoring log.
    pub fn as_str(self) -> (r: &'static str)
        ensures
            r@ == self.name(),
    {
        match self {
            ScoringResult::Scoring => "SCORING",
            ScoringResult::NotScoring => "NOT_SCORING",
            ScoringResult::Failed => "ERROR",
        }
    }
}

/// What a look at an order's score is reported as.
#[derive(Clone, Copy, Debug, PartialEq, Eq, Structural)]
pub enum ScoringEvent {
    FirstConfirmed,
    Restored,
    Check,
    PendingInGrace,
    FalseAfterGrace,
    RequestFailed,
}

impl ScoringEvent {
    pub open spec fn name(self) -> Seq<char> {
        match self {
            ScoringEvent::FirstConfirmed => "scoring_first_confirmed"@,
            ScoringEvent::Restored => "scoring_restored"@,
            ScoringEvent::Check => "scoring_check"@,
            ScoringEvent::PendingInGrace => "scoring_pending_in_grace"@,
            ScoringEvent::FalseAfterGrace => "scoring_false_after_grace"@,
            ScoringEvent::RequestFailed => "scoring_request_failed"@,
        }
    }

    /// The name of the event in the log.
    pub fn as_str(self) -> (r: &'static str)
        ensures
            r@ == self.name(),
    {
        match self {
            ScoringEvent::FirstConfirmed => "scoring_first_confirmed",
            ScoringEvent::Restored => "scoring_restored",
            ScoringEvent::Check => "scoring_check",
            ScoringEvent::PendingInGrace => "scoring_pending_in_grace",
            ScoringEvent::FalseAfterGrace => "scoring_false_after_grace",
            ScoringEvent::RequestFailed => "scoring_request_failed",
        }
    }
}

/// What follows from a look at an order's score.
#[derive(Clone, Copy, Debug, PartialEq, Eq, Structural)]
pub struct ScoringReport {
    pub event: ScoringEvent,
    pub in_grace: bool,
    /// The order has to be placed anew.
    pub requote: bool,
    /// The service has failed often enough in a row to say so.
    pub degraded: bool,
}

/// What the looks at an order's score gave so far.
#[derive(Clone, Copy, Debug, PartialEq, Eq, Structural)]
pub struct ScoringMonitor {
    pub checks: u64,
    pub true_count: u64,
    pub false_count: u64,
    pub error_count: u64,
    pub consecutive_false: u32,
    pub consecutive_errors: u32,
    /// The age of the order, in milliseconds, when it was first seen to score.
    pub first_confirmed_ms: Option<u128>,
    pub last_state: Option<bool>,
}

/// One more, up to the limit.
pub open spec fn one_more_64(x: u64) -> u64 {
    if x < u64::MAX {
        (x + 1) as u64
    } else {
        x
    }
}

/// One more, up to the limit.
pub open spec fn one_more_32(x: u32) -> u32 {
    if x < u32::MAX {
        (x + 1) as u32
    } else {
        x
    }
}

/// Whether an order of an age need not score yet.
pub open spec fn within_grace(age: u128, config: BotSettings) -> bool {
    age < config.scoring_grace_seconds * SECOND
}

impl ScoringMonitor {
    /// After a look at the score of an order of an age.
    pub open spec fn after(self, result: ScoringResult, age: u128, config: BotSettings) -> (
        ScoringMonitor,
        ScoringReport,
    ) {
        let in_grace = within_grace(age, config);
        let counted = ScoringMonitor { checks: one_more_64(self.checks), ..self };
        match result {
            ScoringResult::Scoring => (
                ScoringMonitor {
                    true_count: one_more_64(self.true_count),
                    consecutive_false: 0,
                    consecutive_errors: 0,
                    first_confirmed_ms: match self.first_confirmed_ms {
                        Some(ms) => Some(ms),
                        None => Some(age / MILLISECOND),
                    },
                    last_state: Some(true),
                    ..counted
                },
                ScoringReport {
                    event: if self.first_confirmed_ms is None {
                        ScoringEvent::FirstConfirmed
                    } else if self.last_state == Some(false) {
                        ScoringEvent::Restored
                    } else {
                        ScoringEvent::Check
                    },
                    in_grace,
                    requote: false,
                    degraded: false,
                },
            ),
            ScoringResult::NotScoring => {
                let in_a_row = if in_grace {
                    0
                } else {
                    one_more_32(self.consecutive_false)
                };
                (
                    ScoringMonitor {
                        false_count: one_more_64(self.false_count),
                        consecutive_false: in_a_row,
                        consecutive_errors: 0,
                        last_state: Some(false),
                        ..counted
                    },
                    ScoringReport {
                        event: if in_grace {
                            ScoringEvent::PendingInGrace
                        } else {
                            ScoringEvent::FalseAfterGrace
                        },
                        in_grace,
                        requote: !in_grace && in_a_row >= config.max_consecutive_not_scoring,
                        degraded: false,
                    },
                )
            },
            ScoringResult::Failed => {
                let in_a_row = one_more_32(self.consecutive_errors);
                (
                    ScoringMonitor {
                        error_count: one_more_64(self.error_count),
                        consecutive_errors: in_a_row,
                        ..counted
                    },
                    ScoringReport {
                        event: ScoringEvent::RequestFailed,
                        in_grace,
                        requote: false,
                        degraded: in_a_row == config.scoring_error_warn_threshold,
                    },
                )
            },
        }
    }

    pub fn new() -> (r: ScoringMonitor)
        ensures
            r == (ScoringMonitor {
                checks: 0,
                true_count: 0,
                false_count: 0,
                error_count: 0,
                consecutive_false: 0,
                consecutive_errors: 0,
                first_confirmed_ms: None,
                last_state: None,
            }),
    {
        ScoringMonitor {
            checks: 0,
            true_count: 0,
            false_count: 0,
            error_count: 0,
            consecutive_false: 0,
            consecutive_errors: 0,
            first_confirmed_ms: None,
            last_state: None,
        }
    }

    /// Counts a look at the score of an order and says what follows. The age is in nanoseconds.
    pub fn on_check(&mut self, result: ScoringResult, age: u128, config: &BotConfig) -> (r:
        ScoringReport)
        ensures
            (*final(self), r) == old(self).after(result, age, config@),
    {
        assert(config.scoring_grace_seconds * SECOND <= u128::MAX);
        let in_grace = age < (config.scoring_grace_seconds as u128) * SECOND;
        self.checks = self.checks.saturating_add(1);
        match result {
            ScoringResult::Scoring => {
                self.true_count = self.true_count.saturating_add(1);
                self.consecutive_false = 0;
                self.consecutive_errors = 0;
                let event = match (self.first_confirmed_ms, self.last_state) {
                    (None, _) => {
                        self.first_confirmed_ms = Some(age / MILLISECOND);
                        ScoringEvent::FirstConfirmed
                    },
                    (Some(_), Some(false)) => ScoringEvent::Restored,
                    _ => ScoringEvent::Check,
                };
                self.last_state = Some(true);
                ScoringReport { event, in_grace, requote: false, degraded: false }
            },
            ScoringResult::NotScoring => {
                self.false_count = self.false_count.saturating_add(1);
                self.consecutive_errors = 0;
                self.consecutive_false =
                if in_grace {
                    0
                } else {
                    self.consecutive_false.saturating_add(1)
                };
                self.last_state = Some(false);
                ScoringReport {
                    event: if in_grace {
                        ScoringEvent::PendingInGrace
                    } else {
                        ScoringEvent::FalseAfterGrace
                    },
                    in_grace,
                    requote: !in_grace && self.consecutive_false
                        >= config.max_consecutive_not_scoring,
                    degraded: false,
                }
            },
            ScoringResult::Failed => {
                self.error_count = self.error_count.saturating_add(1);
                self.consecutive_errors = self.consecutive_errors.saturating_add(1);
                ScoringReport {
                    event: ScoringEvent::RequestFailed,
                    in_grace,
                    requote: false,
                    degraded: self.consecutive_errors == config.scoring_error_warn_threshold,
                }
            },
        }
    }
}

/// A failed look never ends an order, and neither does a look within the grace period; a look
/// that finds a score starts the count of those without one anew.
pub proof fn only_missing_scores_requote(
    monitor: ScoringMonitor,
    result: ScoringResult,
    age: u128,
    config: BotSettings,
)
    ensures
        monitor.after(result, age, config).1.requote ==> result is NotScoring && !within_grace(
            age,
            config,
        ),
        result is Scoring ==> monitor.after(result, age, config).0.consecutive_false == 0,
        result is Failed ==> monitor.after(result, age, config).0.consecutive_false
            == monitor.consecutive_false,
{
}

/// Until the counters reach their limit, every look is counted as exactly one of scoring, not
/// scoring and failed.
pub proof fn looks_are_counted(
    monitor: ScoringMonitor,
    result: ScoringResult,
    age: u128,
    config: BotSettings,
)
    requires
        monitor.checks == monitor.true_count + monitor.false_count + monitor.error_count,
        monitor.checks < u64::MAX,
    ensures
        ({
            let next = monitor.after(result, age, config).0;
            next.checks == next.true_count + next.false_count + next.error_count && next.checks
                == monitor.checks + 1
        }),
{
}

impl ScoringMonitor {
    /// After looks that found no score, at these ages of the order, one after the other.
    pub open spec fn after_misses(self, ages: Seq<u128>, config: BotSettings) -> ScoringMonitor
        decreases ages.len(),
    {
        if ages.len() == 0 {
            self
        } else {
            self.after_misses(ages.drop_last(), config).after(
                ScoringResult::NotScoring,
                ages.last(),
                config,
            ).0
        }
    }
}

/// Behind the grace period, looks in a row that find no score end an order when there are as many
/// as the settings allow, and not before.
pub proof fn misses_in_a_row_requote(
    monitor: ScoringMonitor,
    ages: Seq<u128>,
    age: u128,
    config: BotSettings,
)
    requires
        monitor.consecutive_false == 0,
        ages.len() < u32::MAX,
        forall|i: int| 0 <= i < ages.len() ==> !within_grace(#[trigger] ages[i], config),
        !within_grace(age, config),
    ensures
        monitor.after_misses(ages, config).after(ScoringResult::NotScoring, age, config).1.requote
            <==> ages.len() + 1 >= config.max_consecutive_not_scoring,
{
    lemma_misses_count(monitor, ages, config);
}

proof fn lemma_misses_count(monitor: ScoringMonitor, ages: Seq<u128>, config: BotSettings)
    requires
        monitor.consecutive_false == 0,
        ages.len() < u32::MAX,
        forall|i: int| 0 <= i < ages.len() ==> !within_grace(#[trigger] ages[i], config),
    ensures
        monitor.after_misses(ages, config).consecutive_false == ages.len(),
    decreases ages.len(),
{
    if ages.len() > 0 {
        let rest = ages.drop_last();
        assert forall|i: int| 0 <= i < rest.len() implies !within_grace(
            #[trigger] rest[i],
            config,
        ) by {
            assert(rest[i] == ages[i]);
        }
        lemma_misses_count(monitor, rest, config);
        assert(!within_grace(ages[ages.len() - 1], config));
    }
}

/// The first look that finds a score keeps the age of the order, in whole milliseconds, and no
/// later one changes it. A look is reported as the first, as a score regained after a look without
/// one, or as another check.
pub proof fn the_first_score_is_kept(monitor: ScoringMonitor, age: u128, config: BotSettings)
    ensures
        ({
            let (next, report) = monitor.after(ScoringResult::Scoring, age, config);
            &&& monitor.first_confirmed_ms is None ==> report.event is FirstConfirmed
                && next.first_confirmed_ms is Some && next.first_confirmed_ms->0 * 1_000_000 <= age
                < next.first_confirmed_ms->0 * 1_000_000 + 1_000_000
            &&& monitor.first_confirmed_ms is Some ==> next.first_confirmed_ms
                == monitor.first_confirmed_ms
            &&& monitor.first_confirmed_ms is Some && monitor.last_state == Some(false)
                ==> report.event is Restored
            &&& monitor.first_confirmed_ms is Some && monitor.last_state != Some(false)
                ==> report.event is Check
            &&& next.last_state == Some(true)
            &&& next.consecutive_errors == 0
            &&& !report.requote
            &&& !report.degraded
        }),
{
}

/// A look that finds no score is remembered as such and clears the failures in a row. Within the
/// grace period it clears the misses in a row too and is only pending; behind it, it is one more.
pub proof fn misses_count_behind_the_grace_period(
    monitor: ScoringMonitor,
    age: u128,
    config: BotSettings,
)
    requires
        monitor.consecutive_false < u32::MAX,
    ensures
        ({
            let (next, report) = monitor.after(ScoringResult::NotScoring, age, config);
            let early = age < config.scoring_grace_seconds * 1_000_000_000;
            &&& report.in_grace == early
            &&& next.last_state == Some(false)
            &&& next.consecutive_errors == 0
            &&& next.first_confirmed_ms == monitor.first_confirmed_ms
            &&& early ==> next.consecutive_false == 0 && report.event is PendingInGrace
                && !report.requote
            &&& !early ==> next.consecutive_false == monitor.consecutive_false + 1
                && report.event is FalseAfterGrace && (report.requote
                <==> monitor.consecutive_false + 1 >= config.max_consecutive_not_scoring)
            &&& !report.degraded
        }),
{
}

/// A failed look says nothing about the score: it is one more failure in a row and changes nothing
/// else but the counts. The service is called degraded once, when as many have failed in a row as
/// the settings say.
pub proof fn failures_say_nothing_about_the_score(
    monitor: ScoringMonitor,
    age: u128,
    config: BotSettings,
)
    requires
        monitor.consecutive_errors < u32::MAX,
        monitor.error_count < u64::MAX,
    ensures
        ({
            let (next, report) = monitor.after(ScoringResult::Failed, age, config);
            &&& next.consecutive_errors == monitor.consecutive_errors + 1
            &&& next.error_count == monitor.error_count + 1
            &&& next.true_count == monitor.true_count
            &&& next.false_count == monitor.false_count
            &&& next.consecutive_false == monitor.consecutive_false
            &&& next.last_state == monitor.last_state
            &&& next.first_confirmed_ms == monitor.first_confirmed_ms
            &&& report.event is RequestFailed
            &&& report.degraded <==> monitor.consecutive_errors + 1
                == config.scoring_error_warn_threshold
            &&& !report.requote
        }),
{
}

/// A look that finds a score is counted as such and no other.
pub proof fn scores_are_counted(
    monitor: ScoringMonitor,
    result: ScoringResult,
    age: u128,
    config: BotSettings,
)
    requires
        monitor.checks < u64::MAX,
        monitor.true_count < u64::MAX,
        monitor.false_count < u64::MAX,
        monitor.error_count < u64::MAX,
    ensures
        ({
            let next = monitor.after(result, age, config).0;
            &&& next.checks == monitor.checks + 1
            &&& next.true_count == monitor.true_count + if result is Scoring {
                1int
            } else {
                0
            }
            &&& next.false_count == monitor.false_count + if result is NotScoring {
                1int
            } else {
                0
            }
            &&& next.error_count == monitor.error_count + if result is Failed {
                1int
            } else {
                0
            }
        }),
{
}

} // verus!
