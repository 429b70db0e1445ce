//! Threshold alerts with a cooldown: when a drive that is over its
//! threshold gets a notification, and when it is left alone.

use vstd::prelude::*;
use crate::applet::{DriveStatus, StatusRecord};
use crate::config::{alert_for, Config, ConfigView, DriveAlertConfig};
use crate::space::used_percent;
use crate::strmap::StrMap;
use crate::udisks::display_name_of;

verus! {

/// What is remembered of one mount point between evaluations.
#[derive(Debug, Clone, Copy, PartialEq, Eq, Structural)]
pub struct AlertState {
    /// When the last alert was raised, in seconds of a clock that never
    /// runs backwards; `None` as long as none was raised.
    pub last_alerted: Option<u64>,
    /// Whether usage was at or over the threshold at the last evaluation.
    pub was_over_threshold: bool,
}

/// An alert to be delivered.
#[derive(Debug)]
pub struct AlertEvent {
    /// Name of the drive, as it is shown.
    pub display_name: String,
    /// Percentage of the drive that is in use.
    pub percent: u8,
}

/// What an [`AlertEvent`] says, as plain values.
pub ghost struct AlertRecord {
    pub display_name: Seq<char>,
    pub percent: u8,
}

impl View for AlertEvent {
    type V = AlertRecord;

    open spec fn view(&self) -> AlertRecord {
        AlertRecord { display_name: self.display_name@, percent: self.percent }
    }
}

impl DeepView for AlertEvent {
    type V = AlertRecord;

    open spec fn deep_view(&self) -> AlertRecord {
        self@
    }
}

/// The state of a mount point that was never evaluated: no alert raised,
/// not over the threshold.
pub open spec fn initial_state() -> AlertState {
    AlertState { last_alerted: None, was_over_threshold: false }
}

/// Whether the cooldown is over at `now`: no alert was raised yet, or at
/// least `cooldown` seconds have passed since the last one.
pub open spec fn cooldown_expired(last_alerted: Option<u64>, now: u64, cooldown: u64) -> bool {
    match last_alerted {
        None => true,
        Some(then) => if now >= then {
            now - then >= cooldown
        } else {
            cooldown == 0
        },
    }
}

/// Whether an evaluation raises an alert: usage is over the threshold, and
/// it either was not at the evaluation before or the cooldown is over.
pub open spec fn fires(state: AlertState, over: bool, now: u64, cooldown: u64) -> bool {
    over && (!state.was_over_threshold || cooldown_expired(state.last_alerted, now, cooldown))
}

/// The state after an evaluation: an alert that is raised sets the time of
/// the last alert, and whether usage is over the threshold is remembered
/// in any case.
pub open spec fn evaluated(state: AlertState, over: bool, now: u64, cooldown: u64) -> AlertState {
    AlertState {
        last_alerted: if fires(state, over, now, cooldown) {
            Some(now)
        } else {
            state.last_alerted
        },
        was_over_threshold: over,
    }
}

/// The state that `states` holds for `mount_point`, the initial one where
/// it holds none.
pub open spec fn state_at(states: Map<Seq<char>, AlertState>, mount_point: Seq<char>) -> AlertState {
    if states.contains_key(mount_point) {
        states[mount_point]
    } else {
        initial_state()
    }
}

/// Whether observing `percent` at `mount_point` raises an alert. With
/// alerts disabled it never does.
pub open spec fn observation_fires(
    states: Map<Seq<char>, AlertState>,
    mount_point: Seq<char>,
    config: DriveAlertConfig,
    percent: u8,
    now: u64,
    cooldown: u64,
) -> bool {
    config.enabled && fires(state_at(states, mount_point), percent >= config.threshold, now, cooldown)
}

/// The states after observing `percent` at `mount_point`. With alerts
/// disabled nothing is read nor written.
pub open spec fn observed(
    states: Map<Seq<char>, AlertState>,
    mount_point: Seq<char>,
    config: DriveAlertConfig,
    percent: u8,
    now: u64,
    cooldown: u64,
) -> Map<Seq<char>, AlertState> {
    if config.enabled {
        states.insert(
            mount_point,
            evaluated(state_at(states, mount_point), percent >= config.threshold, now, cooldown),
        )
    } else {
        states
    }
}

impl AlertState {
    /// The state of a mount point that was never evaluated.
    pub fn new() -> (state: Self)
        ensures
            state == initial_state(),
    {
        AlertState { last_alerted: None, was_over_threshold: false }
    }

    /// Evaluates one reading: decides whether to raise an alert, and
    /// remembers the reading.
    pub fn evaluate(&mut self, percent: u8, threshold: u8, now: u64, cooldown: u64) -> (alert: bool)
        ensures
            alert == fires(*old(self), percent >= threshold, now, cooldown),
            *final(self) == evaluated(*old(self), percent >= threshold, now, cooldown),
    {
        let over: bool = percent >= threshold;
        let crossed: bool = over && !self.was_over_threshold;
        let expired: bool = match self.last_alerted {
            None => true,
            Some(then) => if now >= then {
                now - then >= cooldown
            } else {
                cooldown == 0
            },
        };
        let alert: bool = over && (crossed || expired);
        if alert {
            self.last_alerted = Some(now);
        }
        self.was_over_threshold = over;
        alert
    }
}

/// The alert state of every mount point that was evaluated so far.
#[derive(Debug)]
pub struct AlertTracker {
    states: StrMap<AlertState>,
}

impl View for AlertTracker {
    type V = Map<Seq<char>, AlertState>;

    closed spec fn view(&self) -> Map<Seq<char>, AlertState> {
        self.states@
    }
}

/// The states after the first `n` of `drives` were observed in order, each
/// with its own settings and its percentage in use.
pub open spec fn states_after(
    states: Map<Seq<char>, AlertState>,
    config: ConfigView,
    drives: Seq<StatusRecord>,
    now: u64,
    n: int,
) -> Map<Seq<char>, AlertState>
    decreases n,
{
    if n <= 0 {
        states
    } else {
        observed(
            states_after(states, config, drives, now, n - 1),
            drives[n - 1].info.mount_point,
            alert_for(config, drives[n - 1].info.mount_point),
            used_percent(drives[n - 1].space),
            now,
            config.alert_cooldown,
        )
    }
}

/// The alerts that observing the first `n` of `drives` raises, in the
/// order of the drives.
pub open spec fn alerts_after(
    states: Map<Seq<char>, AlertState>,
    config: ConfigView,
    drives: Seq<StatusRecord>,
    now: u64,
    n: int,
) -> Seq<AlertRecord>
    decreases n,
{
    if n <= 0 {
        Seq::empty()
    } else if observation_fires(
        states_after(states, config, drives, now, n - 1),
        drives[n - 1].info.mount_point,
        alert_for(config, drives[n - 1].info.mount_point),
        used_percent(drives[n - 1].space),
        now,
        config.alert_cooldown,
    ) {
        alerts_after(states, config, drives, now, n - 1).push(
            AlertRecord {
                display_name: display_name_of(drives[n - 1].info),
                percent: used_percent(drives[n - 1].space),
            },
        )
    } else {
        alerts_after(states, config, drives, now, n - 1)
    }
}

impl AlertTracker {
    /// A tracker that has evaluated nothing yet.
    pub fn new() -> (tracker: Self)
        ensures
            tracker@ == Map::<Seq<char>, AlertState>::empty(),
    {
        AlertTracker { states: StrMap::new() }
    }

    /// The state of `mount_point`, if it was evaluated before.
    pub fn state_of(&self, mount_point: &str) -> (state: Option<AlertState>)
        ensures
            state == if self@.contains_key(mount_point@) {
                Some(self@[mount_point@])
            } else {
                None::<AlertState>
            },
    {
        match self.states.get(mount_point) {
            Some(state) => Some(*state),
            None => None,
        }
    }

    /// Observes the usage of one mount point and says whether to raise an
    /// alert for it.
    ///
    /// With alerts disabled the mount point's state is neither read nor
    /// changed, so that it is found as it was left once they are enabled
    /// again.
    pub fn observe(
        &mut self,
        mount_point: &str,
        config: DriveAlertConfig,
        percent: u8,
        now: u64,
        cooldown: u64,
    ) -> (alert: bool)
        ensures
            alert == observation_fires(old(self)@, mount_point@, config, percent, now, cooldown),
            final(self)@ == observed(old(self)@, mount_point@, config, percent, now, cooldown),
            !config.enabled ==> !alert && final(self)@ == old(self)@,
    {
        if !config.enabled {
            return false;
        }
        let mut state: AlertState = match self.states.get(mount_point) {
            Some(state) => *state,
            None => AlertState::new(),
        };
        let alert: bool = state.evaluate(percent, config.threshold, now, cooldown);
        self.states.insert(mount_point.to_owned(), state);
        alert
    }

    /// Checks drives against their alert thresholds and says which alerts
    /// to send, in the order of the drives.
    pub fn check_alerts(&mut self, config: &Config, drives: &Vec<DriveStatus>, now: u64) -> (alerts:
        Vec<AlertEvent>)
        ensures
            final(self)@ == states_after(
                old(self)@,
                config@,
                drives.deep_view(),
                now,
                drives@.len() as int,
            ),
            alerts.deep_view() == alerts_after(
                old(self)@,
                config@,
                drives.deep_view(),
                now,
                drives@.len() as int,
            ),
    {
        let mut alerts: Vec<AlertEvent> = Vec::new();
        let mut i: usize = 0;
        assert(alerts.deep_view() =~= Seq::<AlertRecord>::empty());
        while i < drives.len()
            invariant
                i <= drives@.len(),
                self@ == states_after(old(self)@, config@, drives.deep_view(), now, i as int),
                alerts.deep_view() == alerts_after(
                    old(self)@,
                    config@,
                    drives.deep_view(),
                    now,
                    i as int,
                ),
            decreases drives@.len() - i,
        {
            let ghost before = alerts.deep_view();
            let drive: &DriveStatus = &drives[i];
            assert(drives.deep_view()[i as int] == drive@);
            let mount_point: &str = drive.info.mount_point.as_str();
            let alert_config: DriveAlertConfig = config.get_drive_alert(mount_point);
            let percent: u8 = drive.space.percent_used();
            if self.observe(mount_point, alert_config, percent, now, config.alert_cooldown) {
                let display_name: String = drive.info.display_name();
                alerts.push(AlertEvent { display_name, percent });
                assert(alerts.deep_view() =~= before.push(
                    AlertRecord { display_name: display_name_of(drive.info@), percent },
                ));
            } else {
                assert(alerts.deep_view() =~= before);
            }
            i = i + 1;
        }
        alerts
    }
}

/// While alerts are disabled an observation changes nothing: whatever
/// comes once they are enabled again is as if it had not taken place.
pub proof fn lemma_disabled_freezes(
    states: Map<Seq<char>, AlertState>,
    mount_point: Seq<char>,
    config: DriveAlertConfig,
    percent: u8,
    now: u64,
    cooldown: u64,
)
    requires
        !config.enabled,
    ensures
        observed(states, mount_point, config, percent, now, cooldown) == states,
        !observation_fires(states, mount_point, config, percent, now, cooldown),
        state_at(observed(states, mount_point, config, percent, now, cooldown), mount_point)
            == state_at(states, mount_point),
{
}

/// The first reading over the threshold raises an alert at once, and so
/// does every reading that crosses it from below, whatever the cooldown.
pub proof fn lemma_crossing_fires(state: AlertState, now: u64, cooldown: u64)
    ensures
        fires(initial_state(), true, now, cooldown),
        !state.was_over_threshold ==> fires(state, true, now, cooldown),
        !fires(state, false, now, cooldown),
{
}

} // verus!
