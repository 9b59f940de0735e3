//! What a run is asked to do.
use std::path::PathBuf;
use vstd::prelude::*;
use vstd::string::StringExecFns;

verus! {

#[verifier::external_type_specification]
#[verifier::external_body]
pub struct ExPathBuf(PathBuf);

/// The byzantine threshold of the fast confirmation rule where none is given, in percent.
pub const DEFAULT_BYZANTINE_THRESHOLD: u64 = 25;

/// The networks that can be simulated.
#[derive(Clone, Copy, Debug, PartialEq, Eq, Structural)]
pub enum Network {
    Mainnet,
}

/// What the command line says.
#[derive(Debug)]
pub struct Config {
    /// The address of the orchestrator's HTTP server.
    pub beacon_node_url: Option<String>,
    /// The first slot that is recorded.
    pub start_slot: Option<u64>,
    /// The slot before which the run ends.
    pub end_slot: Option<u64>,
    /// The slot of the state that the run starts from.
    pub warmup_start_slot: Option<u64>,
    pub network: Option<Network>,
    /// The byzantine threshold of the fast confirmation rule, in percent.
    pub byzantine_threshold: u64,
    /// Accepted, and not used.
    pub attestation_source_mode: Option<String>,
    /// Accepted, and not used.
    pub lookahead_cap: Option<u64>,
    /// The file that the records are written to.
    pub output: Option<PathBuf>,
    /// Print the manifest, and do nothing else.
    pub manifest_json: bool,
}

/// The flags that a run needs.
#[derive(Clone, Copy, Debug, PartialEq, Eq, Structural)]
pub enum Flag {
    StartSlot,
    EndSlot,
    WarmupStartSlot,
    BeaconNodeUrl,
    Network,
    Output,
}

/// Why a run cannot be started as the command line says.
#[derive(Clone, Copy, Debug, PartialEq, Eq, Structural)]
pub enum ConfigError {
    MissingFlag { flag: Flag },
    /// The run would start after the first slot that is recorded.
    WarmupAfterStart,
    /// No slot would be recorded.
    StartNotBeforeEnd,
}

impl Flag {
    /// How the flag is written.
    pub open spec fn text(self) -> Seq<char> {
        match self {
            Flag::StartSlot => "--start-slot"@,
            Flag::EndSlot => "--end-slot"@,
            Flag::WarmupStartSlot => "--warmup-start-slot"@,
            Flag::BeaconNodeUrl => "--beacon-node-url"@,
            Flag::Network => "--network"@,
            Flag::Output => "--output"@,
        }
    }

    /// How the flag is written.
    pub fn as_str(&self) -> (res: &'static str)
        ensures
            res@ == self.text(),
    {
        match self {
            Flag::StartSlot => "--start-slot",
            Flag::EndSlot => "--end-slot",
            Flag::WarmupStartSlot => "--warmup-start-slot",
            Flag::BeaconNodeUrl => "--beacon-node-url",
            Flag::Network => "--network",
            Flag::Output => "--output",
        }
    }
}

impl ConfigError {
    /// What is wrong.
    pub open spec fn text(self) -> Seq<char> {
        match self {
            ConfigError::MissingFlag { flag } => "missing required flag "@ + flag.text(),
            ConfigError::WarmupAfterStart => "--warmup-start-slot must be <= --start-slot"@,
            ConfigError::StartNotBeforeEnd => "--start-slot must be < --end-slot"@,
        }
    }

    /// What is wrong.
    pub fn message(&self) -> (res: String)
        ensures
            res@ == self.text(),
    {
        match self {
            ConfigError::MissingFlag { flag } => {
                let mut message = "missing required flag ".to_owned();
                message.append(flag.as_str());
                message
            },
            ConfigError::WarmupAfterStart => {
                "--warmup-start-slot must be <= --start-slot".to_owned()
            },
            ConfigError::StartNotBeforeEnd => "--start-slot must be < --end-slot".to_owned(),
        }
    }
}

impl Config {
    /// The first flag that a run needs and that is not given.
    pub open spec fn missing_flag(self) -> Option<Flag> {
        if self.start_slot is None {
            Some(Flag::StartSlot)
        } else if self.end_slot is None {
            Some(Flag::EndSlot)
        } else if self.warmup_start_slot is None {
            Some(Flag::WarmupStartSlot)
        } else if self.beacon_node_url is None {
            Some(Flag::BeaconNodeUrl)
        } else if self.network is None {
            Some(Flag::Network)
        } else if self.output is None {
            Some(Flag::Output)
        } else {
            None
        }
    }

    /// Why the run cannot be started. To print the manifest, nothing is needed.
    pub open spec fn failure(self) -> Option<ConfigError> {
        if self.manifest_json {
            None
        } else if self.missing_flag() is Some {
            Some(ConfigError::MissingFlag { flag: self.missing_flag()->0 })
        } else if self.warmup_start_slot->0 > self.start_slot->0 {
            Some(ConfigError::WarmupAfterStart)
        } else if self.start_slot->0 >= self.end_slot->0 {
            Some(ConfigError::StartNotBeforeEnd)
        } else {
            None
        }
    }

    /// Says why the run cannot be started, if it cannot.
    pub fn validate(&self) -> (res: Result<(), ConfigError>)
        ensures
            match res {
                Ok(_) => self.failure() is None,
                Err(e) => self.failure() == Some(e),
            },
    {
        if self.manifest_json {
            return Ok(());
        }
        let start_slot: u64 = match required(self.start_slot, Flag::StartSlot) {
            Ok(slot) => slot,
            Err(e) => {
                return Err(e);
            },
        };
        let end_slot: u64 = match required(self.end_slot, Flag::EndSlot) {
            Ok(slot) => slot,
            Err(e) => {
                return Err(e);
            },
        };
        let warmup_start_slot: u64 = match required(self.warmup_start_slot, Flag::WarmupStartSlot) {
            Ok(slot) => slot,
            Err(e) => {
                return Err(e);
            },
        };
        if self.beacon_node_url.is_none() {
            return Err(ConfigError::MissingFlag { flag: Flag::BeaconNodeUrl });
        }
        if let Err(e) = required(self.network, Flag::Network) {
            return Err(e);
        }
        if self.output.is_none() {
            return Err(ConfigError::MissingFlag { flag: Flag::Output });
        }
        if warmup_start_slot > start_slot {
            return Err(ConfigError::WarmupAfterStart);
        }
        if start_slot >= end_slot {
            return Err(ConfigError::StartNotBeforeEnd);
        }
        Ok(())
    }

    pub fn beacon_node_url(&self) -> (res: &str)
        requires
            self.beacon_node_url is Some,
        ensures
            res@ == self.beacon_node_url->0@,
    {
        match &self.beacon_node_url {
            Some(url) => url.as_str(),
            None => "",
        }
    }

    pub fn start_slot(&self) -> (res: u64)
        requires
            self.start_slot is Some,
        ensures
            res == self.start_slot->0,
    {
        self.start_slot.unwrap()
    }

    pub fn end_slot(&self) -> (res: u64)
        requires
            self.end_slot is Some,
        ensures
            res == self.end_slot->0,
    {
        self.end_slot.unwrap()
    }

    pub fn warmup_start_slot(&self) -> (res: u64)
        requires
            self.warmup_start_slot is Some,
        ensures
            res == self.warmup_start_slot->0,
    {
        self.warmup_start_slot.unwrap()
    }

    pub fn network(&self) -> (res: Network)
        requires
            self.network is Some,
        ensures
            res == self.network->0,
    {
        self.network.unwrap()
    }

    pub fn output(&self) -> (res: &PathBuf)
        requires
            self.output is Some,
        ensures
            *res == self.output->0,
    {
        self.output.as_ref().unwrap()
    }
}

/// The value of a flag that a run needs.
fn required<T: Copy>(value: Option<T>, flag: Flag) -> (res: Result<T, ConfigError>)
    ensures
        match value {
            Some(v) => res == Ok::<T, ConfigError>(v),
            None => res == Err::<T, ConfigError>(ConfigError::MissingFlag { flag }),
        },
{
    match value {
        Some(v) => Ok(v),
        None => Err(ConfigError::MissingFlag { flag }),
    }
}

/// A run can be started just where all that it needs is given, it starts no later than the
/// first slot that is recorded, and that slot comes before its end.
pub proof fn validated_run_is_well_formed(config: Config)
    requires
        !config.manifest_json,
    ensures
        config.failure() is None <==> {
            &&& config.start_slot is Some
            &&& config.end_slot is Some
            &&& config.warmup_start_slot is Some
            &&& config.beacon_node_url is Some
            &&& config.network is Some
            &&& config.output is Some
            &&& config.warmup_start_slot->0 <= config.start_slot->0 < config.end_slot->0
        },
{
}

/// Whether a flag is given.
pub open spec fn is_given(config: Config, flag: Flag) -> bool {
    match flag {
        Flag::StartSlot => config.start_slot is Some,
        Flag::EndSlot => config.end_slot is Some,
        Flag::WarmupStartSlot => config.warmup_start_slot is Some,
        Flag::BeaconNodeUrl => config.beacon_node_url is Some,
        Flag::Network => config.network is Some,
        Flag::Output => config.output is Some,
    }
}

/// The place of a flag in the order in which the flags are looked for.
pub open spec fn place(flag: Flag) -> int {
    match flag {
        Flag::StartSlot => 0,
        Flag::EndSlot => 1,
        Flag::WarmupStartSlot => 2,
        Flag::BeaconNodeUrl => 3,
        Flag::Network => 4,
        Flag::Output => 5,
    }
}

/// A refusal says what is wrong: a flag is missing that is not given, though all before it are, and
/// only where all are given are the slots compared, the start of the run first. To print the
/// manifest nothing is refused.
pub proof fn a_refusal_names_the_first_fault(config: Config)
    ensures
        config.manifest_json ==> config.failure() is None,
        config.failure() matches Some(ConfigError::MissingFlag { flag }) ==> {
            &&& !is_given(config, flag)
            &&& forall|before: Flag| place(before) < place(flag) ==> #[trigger] is_given(
                config,
                before,
            )
        },
        !config.manifest_json && (exists|flag: Flag| !#[trigger] is_given(config, flag)) ==> (
        config.failure() matches Some(ConfigError::MissingFlag { .. })),
        !config.manifest_json && (forall|flag: Flag| #[trigger] is_given(config, flag)) ==> {
            &&& config.failure() == Some(ConfigError::WarmupAfterStart)
                <==> config.warmup_start_slot->0 > config.start_slot->0
            &&& config.failure() == Some(ConfigError::StartNotBeforeEnd)
                <==> config.warmup_start_slot->0 <= config.start_slot->0 && config.start_slot->0
                >= config.end_slot->0
        },
{
    if forall|flag: Flag| #[trigger] is_given(config, flag) {
        assert(is_given(config, Flag::StartSlot) && is_given(config, Flag::EndSlot));
        assert(is_given(config, Flag::WarmupStartSlot) && is_given(config, Flag::BeaconNodeUrl));
        assert(is_given(config, Flag::Network) && is_given(config, Flag::Output));
    }
}

/// Two flags are written differently, and what is said of a missing flag ends with the flag.
pub proof fn flags_are_told_apart(a: Flag, b: Flag)
    ensures
        a.text() == b.text() ==> a == b,
        a.text().len() > 2,
        a.text()[0] == '-' && a.text()[1] == '-',
        ({
            let message = (ConfigError::MissingFlag { flag: a }).text();
            message.skip(message.len() - a.text().len()) == a.text()
        }),
        (ConfigError::MissingFlag { flag: a }).text() == (ConfigError::MissingFlag {
            flag: b,
        }).text() ==> a == b,
{
    reveal_strlit("--start-slot");
    reveal_strlit("--end-slot");
    reveal_strlit("--warmup-start-slot");
    reveal_strlit("--beacon-node-url");
    reveal_strlit("--network");
    reveal_strlit("--output");
    let lead = "missing required flag "@;
    assert((lead + a.text()).skip(lead.len() as int) =~= a.text());
    assert((lead + b.text()).skip(lead.len() as int) =~= b.text());
}

} // verus!
