use std::path::PathBuf;

use fcr_simulator::config::{Config, ConfigError, Flag, Network, DEFAULT_BYZANTINE_THRESHOLD};
use fcr_simulator::manifest::{
    build_flags, engine_manifest, engine_version, exit_code, BuildInfo, Outcome,
};

fn full() -> Config {
    Config {
        beacon_node_url: Some("http://localhost:1234/".to_string()),
        start_slot: Some(10),
        end_slot: Some(20),
        warmup_start_slot: Some(5),
        network: Some(Network::Mainnet),
        byzantine_threshold: DEFAULT_BYZANTINE_THRESHOLD,
        attestation_source_mode: None,
        lookahead_cap: None,
        output: Some(PathBuf::from("out.jsonl")),
        manifest_json: false,
    }
}

#[test]
fn full_config_is_accepted() {
    let config = full();
    assert_eq!(config.validate(), Ok(()));
    assert_eq!(config.beacon_node_url(), "http://localhost:1234/");
    assert_eq!(config.start_slot(), 10);
    assert_eq!(config.end_slot(), 20);
    assert_eq!(config.warmup_start_slot(), 5);
    assert_eq!(config.network(), Network::Mainnet);
    assert_eq!(config.output(), &PathBuf::from("out.jsonl"));
    assert_eq!(config.byzantine_threshold, 25);
}

#[test]
fn first_missing_flag_is_named() {
    let order = [
        Flag::StartSlot,
        Flag::EndSlot,
        Flag::WarmupStartSlot,
        Flag::BeaconNodeUrl,
        Flag::Network,
        Flag::Output,
    ];
    for first in 0..order.len() {
        let mut config = full();
        for flag in &order[first..] {
            match flag {
                Flag::StartSlot => config.start_slot = None,
                Flag::EndSlot => config.end_slot = None,
                Flag::WarmupStartSlot => config.warmup_start_slot = None,
                Flag::BeaconNodeUrl => config.beacon_node_url = None,
                Flag::Network => config.network = None,
                Flag::Output => config.output = None,
            }
        }
        let error = ConfigError::MissingFlag { flag: order[first] };
        assert_eq!(config.validate(), Err(error));
        config.manifest_json = true;
        assert_eq!(config.validate(), Ok(()));
    }
}

#[test]
fn slots_must_be_in_order() {
    let mut config = full();
    config.warmup_start_slot = Some(10);
    assert_eq!(config.validate(), Ok(()));
    config.warmup_start_slot = Some(11);
    assert_eq!(config.validate(), Err(ConfigError::WarmupAfterStart));
    config.end_slot = Some(10);
    assert_eq!(config.validate(), Err(ConfigError::WarmupAfterStart));
    config.warmup_start_slot = Some(10);
    assert_eq!(config.validate(), Err(ConfigError::StartNotBeforeEnd));
}

#[test]
fn config_errors_say_what_is_wrong() {
    let flag = Flag::BeaconNodeUrl;
    assert_eq!(
        ConfigError::MissingFlag { flag }.message(),
        "missing required flag --beacon-node-url"
    );
    assert_eq!(
        ConfigError::WarmupAfterStart.message(),
        "--warmup-start-slot must be <= --start-slot"
    );
    assert_eq!(
        ConfigError::StartNotBeforeEnd.message(),
        "--start-slot must be < --end-slot"
    );
    assert_eq!(Flag::StartSlot.as_str(), "--start-slot");
    assert_eq!(Flag::EndSlot.as_str(), "--end-slot");
    assert_eq!(Flag::WarmupStartSlot.as_str(), "--warmup-start-slot");
    assert_eq!(Flag::Network.as_str(), "--network");
    assert_eq!(Flag::Output.as_str(), "--output");
}

fn info() -> BuildInfo {
    BuildInfo {
        git_describe: Some("v1-3-gabc".to_string()),
        git_semver: Some("v1".to_string()),
        package_version: "0.1.0".to_string(),
        git_sha: Some("abc".to_string()),
        fake_crypto: true,
    }
}

#[test]
fn manifest_describes_the_build() {
    let mut build = info();
    let manifest = engine_manifest(&build);
    assert_eq!(manifest.engine_name, "lighthouse");
    assert_eq!(manifest.engine_version, "v1-3-gabc");
    assert_eq!(manifest.engine_commit, "abc");
    assert_eq!(manifest.build_flags, vec!["fake_crypto".to_string()]);
    assert_eq!(manifest.fcr_spec_commit, "");

    build.git_describe = None;
    assert_eq!(engine_version(&build), "v1");
    build.git_semver = None;
    assert_eq!(engine_version(&build), "0.1.0");
    build.git_sha = None;
    build.fake_crypto = false;
    let manifest = engine_manifest(&build);
    assert_eq!(manifest.engine_commit, "");
    assert!(manifest.build_flags.is_empty());
    assert!(build_flags(false).is_empty());
}

#[test]
fn exit_codes_tell_failures_apart() {
    assert_eq!(exit_code(Outcome::InfoShown), 0);
    assert_eq!(exit_code(Outcome::ManifestPrinted), 0);
    assert_eq!(exit_code(Outcome::Complete), 0);
    assert_eq!(exit_code(Outcome::BadArguments), 1);
    assert_eq!(exit_code(Outcome::BadConfig), 1);
    assert_eq!(exit_code(Outcome::ManifestFailed), 1);
    assert_eq!(exit_code(Outcome::BootstrapFailed), 2);
    assert_eq!(exit_code(Outcome::SimulationFailed), 3);
}
