use adaptive_brightness::config::{Config, MonitorConfig, MonitorId};
use adaptive_brightness::matcher::{
    find_config_index, id_matches, match_displays_to_config, DetectedDisplay,
};

fn display(bus: u32, manufacturer: &str, model: &str, serial: &str) -> DetectedDisplay {
    DetectedDisplay {
        bus,
        manufacturer: manufacturer.to_string(),
        model: model.to_string(),
        serial: serial.to_string(),
    }
}

fn entry(identifier: MonitorId) -> MonitorConfig {
    MonitorConfig { identifier, curve: vec![(0, 10), (250, 100)] }
}

#[test]
fn id_match_per_variant() {
    let d = display(6, "abc", "xyz", "s123");

    assert!(id_matches(&MonitorId::Default, &d));
    assert!(id_matches(&MonitorId::I2cBus(6), &d));
    assert!(!id_matches(&MonitorId::I2cBus(7), &d));
    assert!(id_matches(&MonitorId::Model("abc".to_string(), "xyz".to_string()), &d));
    assert!(!id_matches(&MonitorId::Model("abc".to_string(), "other".to_string()), &d));
    assert!(!id_matches(&MonitorId::Model("ABC".to_string(), "xyz".to_string()), &d));
    assert!(id_matches(&MonitorId::Serial("s123".to_string()), &d));
    assert!(!id_matches(&MonitorId::Serial("s124".to_string()), &d));
    assert!(id_matches(
        &MonitorId::ModelSerial("abc".to_string(), "xyz".to_string(), "s123".to_string()),
        &d
    ));
    assert!(!id_matches(
        &MonitorId::ModelSerial("abc".to_string(), "xyz".to_string(), "s124".to_string()),
        &d
    ));
}

#[test]
fn bus_entry_beats_default_regardless_of_file_order() {
    // The default rule comes first in the file, but sorting by specificity
    // rank puts the bus rule first, so the scan resolves the display on bus 6
    // to the bus rule.
    let config = Config {
        monitors: vec![entry(MonitorId::Default), entry(MonitorId::I2cBus(6))],
    }
    .validate_and_normalize();
    assert_eq!(MonitorId::I2cBus(6), config.monitors[0].identifier);
    assert_eq!(MonitorId::Default, config.monitors[1].identifier);

    let on_bus_6 = display(6, "abc", "xyz", "s123");
    let on_bus_7 = display(7, "abc", "xyz", "s123");
    assert_eq!(Some(0), find_config_index(&config, &on_bus_6));
    assert_eq!(Some(1), find_config_index(&config, &on_bus_7));
}

#[test]
fn sort_is_stable_among_equal_ranks() {
    let config = Config {
        monitors: vec![
            entry(MonitorId::Model("first".to_string(), "m".to_string())),
            entry(MonitorId::Default),
            entry(MonitorId::Model("second".to_string(), "m".to_string())),
            entry(MonitorId::Serial("s".to_string())),
            entry(MonitorId::ModelSerial("a".to_string(), "b".to_string(), "c".to_string())),
            entry(MonitorId::I2cBus(3)),
        ],
    }
    .validate_and_normalize();

    let identifiers: Vec<&MonitorId> =
        config.monitors.iter().map(|m| &m.identifier).collect();
    assert_eq!(
        vec![
            &MonitorId::I2cBus(3),
            &MonitorId::ModelSerial("a".to_string(), "b".to_string(), "c".to_string()),
            &MonitorId::Serial("s".to_string()),
            &MonitorId::Model("first".to_string(), "m".to_string()),
            &MonitorId::Model("second".to_string(), "m".to_string()),
            &MonitorId::Default,
        ],
        identifiers
    );
}

#[test]
fn unmatched_displays_get_none() {
    let config = Config {
        monitors: vec![entry(MonitorId::Serial("s1".to_string()))],
    }
    .validate_and_normalize();

    let displays = vec![
        display(4, "abc", "xyz", "s1"),
        display(5, "abc", "xyz", "s2"),
    ];
    let matched = match_displays_to_config(&displays, &config);
    assert_eq!(vec![Some(0), None], matched);
}

#[test]
fn first_matching_entry_wins_among_equal_ranks() {
    let config = Config {
        monitors: vec![
            entry(MonitorId::Model("abc".to_string(), "one".to_string())),
            entry(MonitorId::Model("abc".to_string(), "two".to_string())),
        ],
    }
    .validate_and_normalize();

    // Both entries have equal rank; the display matching only the second
    // resolves to it, and one matching the first resolves to the first.
    assert_eq!(Some(1), find_config_index(&config, &display(1, "abc", "two", "s")));
    assert_eq!(Some(0), find_config_index(&config, &display(1, "abc", "one", "s")));
}
