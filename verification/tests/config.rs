use cargo_watch::config::{Config, DriveAlertConfig};

#[test]
fn default_alert_config() {
    assert_eq!(DriveAlertConfig::default(), DriveAlertConfig { enabled: true, threshold: 90 });
}

#[test]
fn default_config() {
    let config = Config::default();
    assert_eq!(config.poll_interval, 30);
    assert_eq!(config.default_alert_threshold, 90);
    assert!(config.monitored_drives.is_empty());
    assert_eq!(config.alert_cooldown, 3600);
    assert_eq!(config.panel_drives, vec!["/", "/home"]);
    assert_eq!(config.drive_alerts.len(), 0);
}

#[test]
fn drive_alert_falls_back_to_the_default_threshold() {
    let mut config = Config::default();
    assert_eq!(config.get_drive_alert("/data"), DriveAlertConfig { enabled: true, threshold: 90 });
    config.default_alert_threshold = 75;
    assert_eq!(config.get_drive_alert("/data"), DriveAlertConfig { enabled: true, threshold: 75 });
    assert_eq!(config.get_drive_alert(""), DriveAlertConfig { enabled: true, threshold: 75 });
}

#[test]
fn drive_alert_of_a_configured_drive() {
    let mut config = Config::default();
    config.drive_alerts.insert("/data".to_string(), DriveAlertConfig { enabled: false, threshold: 60 });
    assert_eq!(config.get_drive_alert("/data"), DriveAlertConfig { enabled: false, threshold: 60 });
    assert_eq!(config.get_drive_alert("/data/"), DriveAlertConfig { enabled: true, threshold: 90 });
    assert_eq!(config.get_drive_alert("/"), DriveAlertConfig { enabled: true, threshold: 90 });
}

#[test]
fn toggling_alerts_keeps_the_threshold() {
    let mut config = Config::default();
    config.default_alert_threshold = 80;
    config.toggle_drive_alert("/data".to_string(), false);
    assert_eq!(config.get_drive_alert("/data"), DriveAlertConfig { enabled: false, threshold: 80 });
    config.set_drive_threshold("/data".to_string(), 55);
    assert_eq!(config.get_drive_alert("/data"), DriveAlertConfig { enabled: false, threshold: 55 });
    config.toggle_drive_alert("/data".to_string(), true);
    assert_eq!(config.get_drive_alert("/data"), DriveAlertConfig { enabled: true, threshold: 55 });
    assert_eq!(config.drive_alerts.len(), 1);
    assert_eq!(config.get_drive_alert("/other"), DriveAlertConfig { enabled: true, threshold: 80 });
}

#[test]
fn setting_a_threshold_keeps_alerts_enabled() {
    let mut config = Config::default();
    config.set_drive_threshold("/".to_string(), 99);
    assert_eq!(config.get_drive_alert("/"), DriveAlertConfig { enabled: true, threshold: 99 });
    assert_eq!(config.default_alert_threshold, 90);
    assert_eq!(config.panel_drives, vec!["/", "/home"]);
}

#[test]
fn panel_shows_named_mounts_and_all_under_home() {
    let config = Config::default();
    assert!(config.is_on_panel("/"));
    assert!(config.is_on_panel("/home"));
    assert!(config.is_on_panel("/home/user"));
    assert!(!config.is_on_panel("/mnt/data"));
    assert!(!config.is_on_panel(""));
}

#[test]
fn panel_toggle_adds_once() {
    let mut config = Config::default();
    config.toggle_panel_drive("/mnt/data".to_string(), true);
    assert_eq!(config.panel_drives, vec!["/", "/home", "/mnt/data"]);
    config.toggle_panel_drive("/mnt/data".to_string(), true);
    assert_eq!(config.panel_drives, vec!["/", "/home", "/mnt/data"]);
    // shown through the /home entry already
    config.toggle_panel_drive("/home/user".to_string(), true);
    assert_eq!(config.panel_drives, vec!["/", "/home", "/mnt/data"]);
}

#[test]
fn panel_toggle_removes_entries_that_show_the_mount() {
    let mut config = Config::default();
    config.panel_drives = vec!["/".to_string(), "/home".to_string(), "/home/user".to_string(), "/x".to_string()];
    config.toggle_panel_drive("/home/user".to_string(), false);
    assert_eq!(config.panel_drives, vec!["/", "/x"]);
    config.toggle_panel_drive("/nothing".to_string(), false);
    assert_eq!(config.panel_drives, vec!["/", "/x"]);
    config.toggle_panel_drive("/".to_string(), false);
    assert_eq!(config.panel_drives, vec!["/x"]);
    assert_eq!(config.alert_cooldown, 3600);
}

#[test]
fn config_clone_carries_everything() {
    let mut config = Config::default();
    config.monitored_drives.push("/data".to_string());
    config.set_drive_threshold("/data".to_string(), 70);
    let copy = config.clone();
    assert_eq!(copy.monitored_drives, vec!["/data"]);
    assert_eq!(copy.get_drive_alert("/data"), DriveAlertConfig { enabled: true, threshold: 70 });
    assert_eq!(copy.panel_drives, config.panel_drives);
}
