//! What the user has set: how often to look, which drives to watch and to
//! show, and when to raise an alert.

use vstd::prelude::*;
use vstd::string::*;
use crate::strmap::StrMap;
use crate::text::{home_prefix, starts_with_home, text_eq};

verus! {

/// Per-drive alert configuration.
#[derive(Debug, Clone, Copy, PartialEq, Eq, Structural)]
pub struct DriveAlertConfig {
    /// Whether alerts are enabled for this drive.
    pub enabled: bool,
    /// Usage percentage at which to trigger alerts.
    pub threshold: u8,
}

impl Default for DriveAlertConfig {
    fn default() -> (config: Self)
        ensures
            config == (DriveAlertConfig { enabled: true, threshold: 90 }),
    {
        DriveAlertConfig { enabled: true, threshold: 90 }
    }
}

/// Settings of the monitor.
#[derive(Debug, Clone)]
pub struct Config {
    /// Seconds between disk space checks.
    pub poll_interval: u64,
    /// Default usage percentage at which to trigger alerts (for drives without custom settings).
    pub default_alert_threshold: u8,
    /// Mount points to monitor. Empty means auto-detect all persistent drives.
    pub monitored_drives: Vec<String>,
    /// Seconds before re-alerting for the same drive.
    pub alert_cooldown: u64,
    /// Mount points to display on the panel.
    pub panel_drives: Vec<String>,
    /// Per-drive alert settings. Key is mount point path.
    pub drive_alerts: StrMap<DriveAlertConfig>,
}

/// What a [`Config`] says, as plain values.
pub ghost struct ConfigView {
    pub poll_interval: u64,
    pub default_alert_threshold: u8,
    pub monitored_drives: Seq<Seq<char>>,
    pub alert_cooldown: u64,
    pub panel_drives: Seq<Seq<char>>,
    pub drive_alerts: Map<Seq<char>, DriveAlertConfig>,
}

impl View for Config {
    type V = ConfigView;

    open spec fn view(&self) -> ConfigView {
        ConfigView {
            poll_interval: self.poll_interval,
            default_alert_threshold: self.default_alert_threshold,
            monitored_drives: self.monitored_drives.deep_view(),
            alert_cooldown: self.alert_cooldown,
            panel_drives: self.panel_drives.deep_view(),
            drive_alerts: self.drive_alerts@,
        }
    }
}

/// The settings that hold before the user has changed any: a look every 30
/// seconds, alerts at 90 percent and an hour apart, every fixed drive
/// watched, and `/` and `/home` on the panel.
pub open spec fn default_config() -> ConfigView {
    ConfigView {
        poll_interval: 30,
        default_alert_threshold: 90,
        monitored_drives: Seq::empty(),
        alert_cooldown: 3600,
        panel_drives: seq![seq!['/'], home_prefix()],
        drive_alerts: Map::empty(),
    }
}

/// The alert settings that hold for `mount_point`: its own where it has
/// some, else alerts enabled at the default threshold.
pub open spec fn alert_for(config: ConfigView, mount_point: Seq<char>) -> DriveAlertConfig {
    if config.drive_alerts.contains_key(mount_point) {
        config.drive_alerts[mount_point]
    } else {
        DriveAlertConfig { enabled: true, threshold: config.default_alert_threshold }
    }
}

/// Whether the panel entry `entry` shows `mount_point`: it names it, or it
/// is `/home` and the mount point lies under `/home`.
pub open spec fn shows(entry: Seq<char>, mount_point: Seq<char>) -> bool {
    entry == mount_point || (entry == home_prefix() && home_prefix().is_prefix_of(mount_point))
}

/// Whether some entry of `panel` shows `mount_point`.
pub open spec fn on_panel(panel: Seq<Seq<char>>, mount_point: Seq<char>) -> bool {
    exists|i: int| 0 <= i < panel.len() && shows(#[trigger] panel[i], mount_point)
}

/// The panel entries after `mount_point` was switched on or off. Switching
/// on adds it at the end unless an entry shows it already; switching off
/// takes away every entry that shows it.
pub open spec fn panel_after(panel: Seq<Seq<char>>, mount_point: Seq<char>, show: bool) -> Seq<
    Seq<char>,
> {
    if show {
        if on_panel(panel, mount_point) {
            panel
        } else {
            panel.push(mount_point)
        }
    } else {
        panel.filter(|entry: Seq<char>| !shows(entry, mount_point))
    }
}

impl Default for Config {
    fn default() -> (config: Self)
        ensures
            config@ == default_config(),
    {
        let mut panel_drives: Vec<String> = Vec::new();
        proof {
            reveal_strlit("/");
            reveal_strlit("/home");
        }
        panel_drives.push(String::from_str("/"));
        panel_drives.push(String::from_str("/home"));
        let monitored_drives: Vec<String> = Vec::new();
        proof {
            assert("/"@ =~= seq!['/']);
            assert("/home"@ =~= home_prefix());
            assert(panel_drives.deep_view() =~= seq![seq!['/'], home_prefix()]);
            assert(monitored_drives.deep_view() =~= Seq::<Seq<char>>::empty());
        }
        Config {
            poll_interval: 30,
            default_alert_threshold: 90,
            monitored_drives,
            alert_cooldown: 3600,
            panel_drives,
            drive_alerts: StrMap::new(),
        }
    }
}

fn shows_mount(entry: &str, mount_point: &str) -> (yes: bool)
    ensures
        yes == shows(entry@, mount_point@),
{
    proof {
        reveal_strlit("/home");
        assert("/home"@ =~= home_prefix());
    }
    text_eq(entry, mount_point) || (text_eq(entry, "/home") && starts_with_home(mount_point))
}

impl Config {
    /// Gets alert config for a drive, returning default if not set.
    pub fn get_drive_alert(&self, mount_point: &str) -> (config: DriveAlertConfig)
        ensures
            config == alert_for(self@, mount_point@),
    {
        match self.drive_alerts.get(mount_point) {
            Some(config) => *config,
            None => DriveAlertConfig { enabled: true, threshold: self.default_alert_threshold },
        }
    }

    /// Returns true if the given mount point should be shown on the panel.
    pub fn is_on_panel(&self, mount_point: &str) -> (shown: bool)
        ensures
            shown == on_panel(self@.panel_drives, mount_point@),
    {
        let mut i: usize = 0;
        while i < self.panel_drives.len()
            invariant
                i <= self.panel_drives@.len(),
                forall|k: int| 0 <= k < i ==> !shows(#[trigger] self@.panel_drives[k], mount_point@),
            decreases self.panel_drives@.len() - i,
        {
            if shows_mount(self.panel_drives[i].as_str(), mount_point) {
                assert(shows(self@.panel_drives[i as int], mount_point@));
                return true;
            }
            i = i + 1;
        }
        false
    }

    /// Shows `mount_point` on the panel, or takes it off. Nothing else
    /// changes.
    pub fn toggle_panel_drive(&mut self, mount_point: String, show: bool)
        ensures
            final(self)@ == (ConfigView {
                panel_drives: panel_after(old(self)@.panel_drives, mount_point@, show),
                ..old(self)@
            }),
    {
        if show {
            if !self.is_on_panel(mount_point.as_str()) {
                let ghost before = self.panel_drives.deep_view();
                self.panel_drives.push(mount_point);
                assert(self.panel_drives.deep_view() =~= before.push(mount_point@));
            }
        } else {
            let ghost panel = self.panel_drives.deep_view();
            let ghost off = |entry: Seq<char>| !shows(entry, mount_point@);
            let mut kept: Vec<String> = Vec::new();
            let mut i: usize = 0;
            proof {
                reveal(Seq::filter);
                assert(panel.take(0) =~= Seq::<Seq<char>>::empty());
                assert(kept.deep_view() =~= Seq::<Seq<char>>::empty());
            }
            while i < self.panel_drives.len()
                invariant
                    i <= self.panel_drives@.len(),
                    panel == self.panel_drives.deep_view(),
                    off == |entry: Seq<char>| !shows(entry, mount_point@),
                    kept.deep_view() == panel.take(i as int).filter(off),
                decreases self.panel_drives@.len() - i,
            {
                let ghost before = kept.deep_view();
                let stays: bool = !shows_mount(self.panel_drives[i].as_str(), mount_point.as_str());
                proof {
                    reveal(Seq::filter);
                    let upto = panel.take(i as int + 1);
                    assert(upto.drop_last() =~= panel.take(i as int));
                    assert(upto.last() == panel[i as int]);
                    assert(stays == off(upto.last()));
                }
                if stays {
                    kept.push(self.panel_drives[i].clone());
                    assert(kept.deep_view() =~= before.push(panel[i as int]));
                } else {
                    assert(kept.deep_view() =~= before);
                }
                i = i + 1;
            }
            assert(panel.take(i as int) =~= panel);
            self.panel_drives = kept;
        }
    }

    /// Switches the alerts of `mount_point` on or off. Its threshold stays,
    /// and so does everything else.
    pub fn toggle_drive_alert(&mut self, mount_point: String, enabled: bool)
        ensures
            final(self)@ == (ConfigView {
                drive_alerts: old(self)@.drive_alerts.insert(
                    mount_point@,
                    DriveAlertConfig {
                        enabled,
                        threshold: alert_for(old(self)@, mount_point@).threshold,
                    },
                ),
                ..old(self)@
            }),
    {
        let mut alert_config: DriveAlertConfig = self.get_drive_alert(mount_point.as_str());
        alert_config.enabled = enabled;
        self.drive_alerts.insert(mount_point, alert_config);
    }

    /// Sets the threshold of `mount_point`. Whether its alerts are enabled
    /// stays, and so does everything else.
    pub fn set_drive_threshold(&mut self, mount_point: String, threshold: u8)
        ensures
            final(self)@ == (ConfigView {
                drive_alerts: old(self)@.drive_alerts.insert(
                    mount_point@,
                    DriveAlertConfig {
                        enabled: alert_for(old(self)@, mount_point@).enabled,
                        threshold,
                    },
                ),
                ..old(self)@
            }),
    {
        let mut alert_config: DriveAlertConfig = self.get_drive_alert(mount_point.as_str());
        alert_config.threshold = threshold;
        self.drive_alerts.insert(mount_point, alert_config);
    }
}

} // verus!
