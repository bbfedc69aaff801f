use std::collections::{BTreeMap, BTreeSet};

use protocol_common::config_manager::{ConfigError, ConfigurationManager, Updatable};
use protocol_common::staking_engine_config::{
    StakingEngineConfig, UpdateSetInput, UpdateStakingEngineConfigInput,
};
use protocol_common::time::Instant;

type Store = ConfigurationManager<u16, StakingEngineConfig, Vec<UpdateStakingEngineConfigInput>>;

fn config(digits: u8) -> StakingEngineConfig {
    StakingEngineConfig { max_digits: Some(digits), max_decimal_places: Some(18), max_resource_count: None }
}

fn at(seconds: i64) -> Instant {
    Instant::new(seconds)
}

fn not_found_message(r: ConfigError) -> String {
    match r {
        ConfigError::NotFound(m) => m,
        ConfigError::ValidationFailed(m) => panic!("unexpected validation failure: {}", m),
    }
}

#[test]
fn unregistered_key_is_not_found() {
    let mut store: Store = ConfigurationManager::new(true, None, "pool config not found".to_string());
    assert_eq!(not_found_message(store.get_current_entry(3).err().unwrap()), "pool config not found");
    assert_eq!(not_found_message(store.get_current_version(3).err().unwrap()), "pool config not found");

    assert!(store.new_entry(1, config(10), at(100)).is_ok());
    assert!(matches!(store.get_current_entry(3), Err(ConfigError::NotFound(_))));
    assert!(matches!(store.get_current_version(3), Err(ConfigError::NotFound(_))));
    assert!(matches!(store.get_history_entry(1, at(100)), Err(ConfigError::NotFound(_))));
    assert!(matches!(store.set_entry_expired(1, at(100)), Err(ConfigError::NotFound(_))));
}

#[test]
fn new_entry_registers_value_and_snapshot() {
    let mut store: Store = ConfigurationManager::new(true, None, "missing".to_string());
    assert_eq!(store.get_entry_count(), 0);
    assert_eq!(store.get_version_count(), 0);

    assert!(store.new_entry(4, config(10), at(100)).is_ok());
    assert_eq!(store.get_current_entry(4).ok(), Some(config(10)));
    assert_eq!(store.get_entry_count(), 1);
    assert_eq!(store.get_version_count(), 1);
    assert_eq!(store.get_current_version(4).ok(), Some(0));
    assert_eq!(store.get_history_entry(0, at(100)).ok(), Some((config(10), true)));

    assert!(store.new_entry(5, config(20), at(100)).is_ok());
    assert_eq!(store.get_entry_count(), 2);
    assert_eq!(store.get_version_count(), 2);
    assert_eq!(store.get_current_version(5).ok(), Some(1));
    assert_eq!(store.get_history_entry(1, at(100)).ok(), Some((config(20), true)));
    assert_eq!(store.get_current_entry(4).ok(), Some(config(10)));
}

#[test]
fn new_entry_without_history_keeps_version_count() {
    let mut store: Store = ConfigurationManager::new(false, Some(60), "missing".to_string());
    assert!(store.new_entry(4, config(10), at(100)).is_ok());
    assert_eq!(store.get_entry_count(), 1);
    assert_eq!(store.get_version_count(), 0);
    assert_eq!(store.get_current_entry(4).ok(), Some(config(10)));
    assert!(matches!(store.get_history_entry(0, at(100)), Err(ConfigError::NotFound(_))));
}

#[test]
fn registering_a_key_twice_counts_twice() {
    let mut store: Store = ConfigurationManager::new(false, None, "missing".to_string());
    assert!(store.new_entry(4, config(10), at(100)).is_ok());
    assert!(store.new_entry(4, config(11), at(100)).is_ok());
    assert_eq!(store.get_entry_count(), 2);
    assert_eq!(store.get_current_entry(4).ok(), Some(config(11)));
}

#[test]
fn update_entry_keeps_entry_count() {
    let mut store: Store = ConfigurationManager::new(true, None, "missing".to_string());
    assert!(store.new_entry(4, config(10), at(100)).is_ok());

    let r = store.update_entry(4, vec![UpdateStakingEngineConfigInput::MaxDigits(Some(12))], at(200));
    assert!(r.is_ok());
    assert_eq!(store.get_entry_count(), 1);
    assert_eq!(store.get_version_count(), 2);
    assert_eq!(store.get_current_entry(4).ok(), Some(config(12)));
    assert_eq!(store.get_current_version(4).ok(), Some(1));
    assert_eq!(store.get_history_entry(0, at(200)).ok(), Some((config(10), true)));
    assert_eq!(store.get_history_entry(1, at(200)).ok(), Some((config(12), true)));
}

#[test]
fn update_entry_without_history_keeps_version_count() {
    let mut store: Store = ConfigurationManager::new(false, None, "missing".to_string());
    assert!(store.new_entry(4, config(10), at(100)).is_ok());
    let r = store.update_entry(
        4,
        vec![UpdateStakingEngineConfigInput::MaxResourceCount(Some(3))],
        at(200),
    );
    assert!(r.is_ok());
    assert_eq!(store.get_entry_count(), 1);
    assert_eq!(store.get_version_count(), 0);
    assert_eq!(store.get_current_entry(4).ok().unwrap().max_resource_count, Some(3));
}

#[test]
fn update_of_unregistered_key_is_not_found() {
    let mut store: Store = ConfigurationManager::new(true, None, "no such pool".to_string());
    let r = store.update_entry(9, vec![UpdateStakingEngineConfigInput::MaxDigits(Some(12))], at(1));
    assert_eq!(not_found_message(r.err().unwrap()), "no such pool");
    assert_eq!(store.get_entry_count(), 0);
    assert_eq!(store.get_version_count(), 0);
}

#[test]
fn invalid_update_writes_nothing() {
    let mut store: Store = ConfigurationManager::new(true, None, "missing".to_string());
    assert!(store.new_entry(4, config(10), at(100)).is_ok());

    // The first change is valid, the second is not: neither is kept.
    let r = store.update_entry(
        4,
        vec![
            UpdateStakingEngineConfigInput::MaxDigits(Some(12)),
            UpdateStakingEngineConfigInput::MaxDecimalPlaces(Some(37)),
        ],
        at(200),
    );
    match r {
        Err(ConfigError::ValidationFailed(m)) => {
            assert_eq!(m, "Invalid StakingEngineConfig::max_decimal_places")
        }
        _ => panic!("expected a validation failure"),
    }
    assert_eq!(store.get_current_entry(4).ok(), Some(config(10)));
    assert_eq!(store.get_entry_count(), 1);
    assert_eq!(store.get_version_count(), 1);
}

#[test]
fn expired_snapshot_reads_through_to_current_value() {
    let mut store: Store = ConfigurationManager::new(true, Some(60), "missing".to_string());
    assert!(store.new_entry(4, config(10), at(1000)).is_ok());
    assert!(store.update_entry(4, vec![UpdateStakingEngineConfigInput::MaxDigits(Some(30))], at(1010)).is_ok());

    // Snapshot 0 was written at 1000 with a retention of 60 seconds.
    assert_eq!(store.get_history_entry(0, at(1059)).ok(), Some((config(10), true)));
    assert_eq!(store.get_history_entry(0, at(1060)).ok(), Some((config(30), false)));
    assert_eq!(store.get_history_entry(0, at(5000)).ok(), Some((config(30), false)));
    // Snapshot 1 was written at 1010.
    assert_eq!(store.get_history_entry(1, at(1069)).ok(), Some((config(30), true)));
    assert_eq!(store.get_history_entry(1, at(1070)).ok(), Some((config(30), false)));
}

#[test]
fn snapshot_without_retention_never_expires() {
    let mut store: Store = ConfigurationManager::new(true, None, "missing".to_string());
    assert!(store.new_entry(4, config(10), at(1000)).is_ok());
    assert!(store.update_entry(4, vec![UpdateStakingEngineConfigInput::MaxDigits(Some(30))], at(1010)).is_ok());
    assert_eq!(store.get_history_entry(0, at(i64::MAX)).ok(), Some((config(10), true)));
}

#[test]
fn forced_expiry_redirects_to_current_value() {
    let mut store: Store = ConfigurationManager::new(true, None, "missing".to_string());
    assert!(store.new_entry(4, config(10), at(1000)).is_ok());
    assert!(store.update_entry(4, vec![UpdateStakingEngineConfigInput::MaxDigits(Some(30))], at(1010)).is_ok());
    assert!(store.set_entry_expired(0, at(2000)).is_ok());
    assert_eq!(store.get_history_entry(0, at(1999)).ok(), Some((config(10), true)));
    assert_eq!(store.get_history_entry(0, at(2000)).ok(), Some((config(30), false)));
    assert_eq!(store.get_history_entry(1, at(2000)).ok(), Some((config(30), true)));
}

#[test]
fn default_expiration_applies_to_later_snapshots_only() {
    let mut store: Store = ConfigurationManager::new(true, None, "missing".to_string());
    assert!(store.new_entry(4, config(10), at(1000)).is_ok());
    store.update_default_expiration(Some(5));
    assert!(store.update_entry(4, vec![UpdateStakingEngineConfigInput::MaxDigits(Some(30))], at(1000)).is_ok());
    assert_eq!(store.get_history_entry(0, at(9000)).ok(), Some((config(10), true)));
    assert_eq!(store.get_history_entry(1, at(1004)).ok(), Some((config(30), true)));
    assert_eq!(store.get_history_entry(1, at(1005)).ok(), Some((config(30), false)));
}

#[test]
fn apply_update_result_reports_each_outcome() {
    let mut store: Store = ConfigurationManager::new(true, None, "missing".to_string());
    let r = store.apply_update_result(4, Ok(config(10)), at(1));
    assert!(matches!(r, Err(ConfigError::NotFound(_))));
    assert!(store.new_entry(4, config(10), at(1)).is_ok());
    let r = store.apply_update_result(4, Err("Invalid field".to_string()), at(1));
    match r {
        Err(ConfigError::ValidationFailed(m)) => assert_eq!(m, "Invalid field"),
        _ => panic!("expected a validation failure"),
    }
    assert_eq!(store.get_version_count(), 1);
    assert!(store.apply_update_result(4, Ok(config(15)), at(1)).is_ok());
    assert_eq!(store.get_current_entry(4).ok(), Some(config(15)));
    assert_eq!(store.get_version_count(), 2);
    assert_eq!(store.get_entry_count(), 1);
}

#[test]
fn staking_engine_config_checks_each_field() {
    assert!(StakingEngineConfig::default().check().is_ok());
    assert!(config(41).check().is_ok());
    assert_eq!(config(42).check(), Err("Invalid StakingEngineConfig::max_digits".to_string()));
    assert_eq!(config(0).check(), Err("Invalid StakingEngineConfig::max_digits".to_string()));
    let places = StakingEngineConfig { max_decimal_places: Some(0), ..config(1) };
    assert_eq!(places.check(), Err("Invalid StakingEngineConfig::max_decimal_places".to_string()));
    let count = StakingEngineConfig { max_resource_count: Some(0), ..config(1) };
    assert_eq!(count.check(), Err("Invalid StakingEngineConfig::max_resource_count".to_string()));
    let both = StakingEngineConfig { max_resource_count: Some(0), ..config(50) };
    assert_eq!(both.check(), Err("Invalid StakingEngineConfig::max_digits".to_string()));
}

#[test]
fn staking_engine_config_applies_changes_in_order() {
    let mut c = config(10);
    let r = c.update(vec![
        UpdateStakingEngineConfigInput::MaxDigits(Some(20)),
        UpdateStakingEngineConfigInput::MaxDigits(None),
        UpdateStakingEngineConfigInput::MaxResourceCount(Some(7)),
    ]);
    assert!(r.is_ok());
    assert_eq!(c, StakingEngineConfig { max_digits: None, max_decimal_places: Some(18), max_resource_count: Some(7) });
}

// A configuration with scalar, set-shaped and map-shaped fields, updated the
// way generated update inputs work.
#[derive(Debug, Clone, PartialEq)]
pub struct TestConfig {
    pub valuator_component: String,
    pub valuator_method: String,
    pub is_enabled: bool,
    pub rate: f64,
    pub underlying_resources: BTreeSet<String>,
    pub resource_map: BTreeMap<String, f64>,
}

#[derive(Debug, Clone, PartialEq)]
pub enum UpdateTestConfigInput {
    ValuatorComponent(String),
    ValuatorMethod(String),
    IsEnabled(bool),
    Rate(f64),
    UnderlyingResources(UpdateSetInput<String>),
    ResourceMap(String, Option<f64>),
}

impl Updatable<Vec<UpdateTestConfigInput>> for TestConfig {
    fn update(&mut self, inputs: Vec<UpdateTestConfigInput>) -> Result<(), String> {
        for input in inputs {
            match input {
                UpdateTestConfigInput::ValuatorComponent(v) => self.valuator_component = v,
                UpdateTestConfigInput::ValuatorMethod(v) => self.valuator_method = v,
                UpdateTestConfigInput::IsEnabled(v) => self.is_enabled = v,
                UpdateTestConfigInput::Rate(v) => self.rate = v,
                UpdateTestConfigInput::UnderlyingResources(UpdateSetInput::Add(v)) => {
                    self.underlying_resources.insert(v);
                }
                UpdateTestConfigInput::UnderlyingResources(UpdateSetInput::Remove(v)) => {
                    self.underlying_resources.remove(&v);
                }
                UpdateTestConfigInput::ResourceMap(k, Some(v)) => {
                    self.resource_map.insert(k, v);
                }
                UpdateTestConfigInput::ResourceMap(k, None) => {
                    self.resource_map.remove(&k);
                }
            }
        }
        self.check()
    }

    fn check(&self) -> Result<(), String> {
        if !(self.rate >= 0.0 && self.rate <= 1.0) {
            return Err("Invalid TestConfig::rate".to_string());
        }
        Ok(())
    }
}

#[test]
fn main2() {
    let config = TestConfig {
        valuator_component: "GENESIS_HELPER".to_string(),
        valuator_method: "method".to_string(),
        is_enabled: true,
        rate: 0.5,
        underlying_resources: BTreeSet::new(),
        resource_map: BTreeMap::new(),
    };
    let mut store: ConfigurationManager<u8, TestConfig, Vec<UpdateTestConfigInput>> =
        ConfigurationManager::new(true, None, "missing".to_string());
    assert!(store.new_entry(0, config, at(0)).is_ok());

    let updates = vec![
        UpdateTestConfigInput::ValuatorComponent("CONSENSUS_MANAGER".to_string()),
        UpdateTestConfigInput::Rate(0.8),
        UpdateTestConfigInput::UnderlyingResources(UpdateSetInput::Add("resource1".to_string())),
        UpdateTestConfigInput::ResourceMap("resource_key1".to_string(), Some(1.2)),
        UpdateTestConfigInput::ResourceMap("resource_key2".to_string(), Some(1.3)),
    ];
    assert!(store.update_entry(0, updates, at(0)).is_ok());

    let config = store.get_current_entry(0).ok().unwrap();
    assert!(config.valuator_component == "CONSENSUS_MANAGER");
    assert!(config.underlying_resources.contains("resource1"));

    let updates = vec![
        UpdateTestConfigInput::UnderlyingResources(UpdateSetInput::Remove("resource1".to_string())),
        UpdateTestConfigInput::ResourceMap("resource_key1".to_string(), Some(0.4)),
        UpdateTestConfigInput::ResourceMap("resource_key2".to_string(), None),
    ];
    assert!(store.update_entry(0, updates, at(0)).is_ok());

    let config = store.get_current_entry(0).ok().unwrap();
    assert!(config.resource_map.get("resource_key2").is_none());
    assert!(!config.underlying_resources.contains("resource1"));
    assert_eq!(store.get_version_count(), 3);
}
