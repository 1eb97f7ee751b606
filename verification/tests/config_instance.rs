use kreivo_monitor::config::{
    default_poll_interval, default_scrape_interval, ActionEntry, Args, Config, RemoteWriteConfig,
};
use kreivo_monitor::instance::update_instance;

fn file_config() -> Config {
    Config {
        scrape_url: b"http://localhost:9615/metrics".to_vec(),
        remote_write: vec![RemoteWriteConfig {
            url: b"http://rw1".to_vec(),
            auth_header: Some(b"Bearer SECRET-REDACTED".to_vec()),
        }],
        alertmanager_url: b"http://am".to_vec(),
        actions: vec![ActionEntry { name: b"restart".to_vec(), command: b"true".to_vec() }],
        scrape_interval_seconds: 15,
        poll_interval_seconds: 30,
    }
}

#[test]
fn defaults_are_fifteen_and_thirty_seconds() {
    assert_eq!(default_scrape_interval(), 15);
    assert_eq!(default_poll_interval(), 30);
}

#[test]
fn absent_arguments_keep_file_values() {
    let args = Args {
        config: b"/etc/kreivo-monitor/config.yaml".to_vec(),
        scrape_url: None,
        alertmanager_url: None,
        scrape_interval_seconds: None,
        poll_interval_seconds: None,
    };
    let merged = Config::build(args, file_config());
    assert_eq!(merged, file_config());
}

#[test]
fn present_arguments_override_file_values() {
    let args = Args {
        config: b"/etc/kreivo-monitor/config.yaml".to_vec(),
        scrape_url: Some(b"http://other:1/metrics".to_vec()),
        alertmanager_url: Some(b"http://am2".to_vec()),
        scrape_interval_seconds: Some(5),
        poll_interval_seconds: Some(60),
    };
    let merged = Config::build(args, file_config());
    assert_eq!(merged.scrape_url, b"http://other:1/metrics".to_vec());
    assert_eq!(merged.alertmanager_url, b"http://am2".to_vec());
    assert_eq!(merged.scrape_interval_seconds, 5);
    assert_eq!(merged.poll_interval_seconds, 60);
    // destinations and actions always come from the file
    assert_eq!(merged.remote_write, file_config().remote_write);
    assert_eq!(merged.actions, file_config().actions);
}

#[test]
fn first_discovery_sets_the_cell_and_reports_a_change() {
    let (cell, changed) = update_instance(None, Some(b"nodeA".to_vec()));
    assert_eq!(cell, Some(b"nodeA".to_vec()));
    assert!(changed);
}

#[test]
fn same_discovery_is_not_a_change() {
    let (cell, changed) = update_instance(Some(b"nodeA".to_vec()), Some(b"nodeA".to_vec()));
    assert_eq!(cell, Some(b"nodeA".to_vec()));
    assert!(!changed);
}

#[test]
fn different_discovery_overwrites_and_reports() {
    let (cell, changed) = update_instance(Some(b"nodeA".to_vec()), Some(b"nodeB".to_vec()));
    assert_eq!(cell, Some(b"nodeB".to_vec()));
    assert!(changed);
}

#[test]
fn no_discovery_leaves_the_cell_alone() {
    let (cell, changed) = update_instance(Some(b"nodeA".to_vec()), None);
    assert_eq!(cell, Some(b"nodeA".to_vec()));
    assert!(!changed);
    let (cell, changed) = update_instance(None, None);
    assert_eq!(cell, None);
    assert!(!changed);
}
