//! The rules of the mining driver that are decided before and around the
//! worker pool: the wires it speaks on, how many workers a thread budget
//! pays for, the commands that configure the node, and which effects carry
//! a candidate or a proof.

use crate::key_config::{parse_decimal, ConfigView, MiningKeyConfig};
use vstd::prelude::*;

verus! {

/// The number of compute threads when none is configured or detected.
pub const DEFAULT_MINING_THREADS: usize = 4;

/// The version of the wire of the mining driver.
pub const MINING_WIRE_VERSION: u64 = 1;

/// The wires of the mining driver.
#[derive(Clone, Copy, Debug, PartialEq, Eq, Structural)]
pub enum MiningWire {
    Mined,
    Candidate,
    SetPubKey,
    Enable,
}

/// The tag of a wire as text.
pub open spec fn verb_text(w: MiningWire) -> Seq<char> {
    match w {
        MiningWire::Mined => "mined"@,
        MiningWire::SetPubKey => "setpubkey"@,
        MiningWire::Candidate => "candidate"@,
        MiningWire::Enable => "enable"@,
    }
}

impl MiningWire {
    /// The tag of the wire.
    pub fn verb(&self) -> (r: &'static str)
        ensures
            r@ == verb_text(*self),
    {
        match self {
            MiningWire::Mined => "mined",
            MiningWire::SetPubKey => "setpubkey",
            MiningWire::Candidate => "candidate",
            MiningWire::Enable => "enable",
        }
    }

    /// The source that every wire of the mining driver names.
    pub fn source() -> (r: &'static str)
        ensures
            r@ == "miner"@,
    {
        "miner"
    }

    /// The version that every wire of the mining driver names.
    pub fn version() -> (r: u64)
        ensures
            r == MINING_WIRE_VERSION,
    {
        MINING_WIRE_VERSION
    }
}

/// The number of workers that a budget of compute threads pays for: one
/// up to 4 threads, two up to 8, four up to 16, and beyond that one for
/// every four threads.
pub open spec fn optimal_workers(total_threads: int) -> int {
    if total_threads <= 4 {
        1
    } else if total_threads <= 8 {
        2
    } else if total_threads <= 16 {
        4
    } else {
        total_threads / 4
    }
}

/// The number of workers for a budget of `total_threads` compute threads.
pub fn calculate_optimal_workers(total_threads: usize) -> (workers: usize)
    ensures
        workers == optimal_workers(total_threads as int),
        workers >= 1,
{
    if total_threads <= 4 {
        1
    } else if total_threads <= 8 {
        2
    } else if total_threads <= 16 {
        4
    } else {
        total_threads / 4
    }
}

/// More threads never pay for fewer workers, there is always a worker, and
/// from 17 threads on every worker has at least four threads.
pub proof fn lemma_workers_monotonic(a: int, b: int)
    requires
        0 <= a <= b,
    ensures
        1 <= optimal_workers(a) <= optimal_workers(b),
        b > 16 ==> 4 * optimal_workers(b) <= b < 4 * optimal_workers(b) + 4,
{
}

/// The compute threads that each of the workers gets.
pub fn threads_per_worker(total_threads: usize) -> (threads: usize)
    ensures
        threads == total_threads as int / optimal_workers(total_threads as int),
{
    total_threads / calculate_optimal_workers(total_threads)
}

/// What the configured value of the thread budget stands for: its decimal
/// value, if it is a number that fits a machine word.
pub open spec fn configured_budget(value: Option<Seq<char>>) -> Option<usize> {
    match value {
        Some(text) => match parse_decimal(text) {
            Ok(n) => if n <= usize::MAX {
                Some(n as usize)
            } else {
                None
            },
            Err(_) => None,
        },
        None => None,
    }
}

/// The budget of compute threads: the configured value if it is a number,
/// else the detected hardware parallelism, else the default.
pub fn thread_budget(configured: Option<&str>, detected: Option<usize>) -> (threads: usize)
    ensures
        threads == match configured_budget(
            match configured {
                Some(text) => Some(text@),
                None => None,
            },
        ) {
            Some(n) => n,
            None => match detected {
                Some(n) => n,
                None => DEFAULT_MINING_THREADS,
            },
        },
{
    let parsed: Option<usize> = match configured {
        Some(text) => match crate::key_config::parse_u64(text) {
            Ok(n) => if n <= usize::MAX as u64 {
                Some(n as usize)
            } else {
                None
            },
            Err(_) => None,
        },
        None => None,
    };
    match parsed {
        Some(n) => n,
        None => match detected {
            Some(n) => n,
            None => DEFAULT_MINING_THREADS,
        },
    }
}

/// The number of compute threads in use: the stored number, or, while
/// none is stored, the detected hardware parallelism or the default.
pub fn get_mining_threads(stored: usize, detected: Option<usize>) -> (threads: usize)
    ensures
        threads == if stored != 0 {
            stored
        } else {
            match detected {
                Some(n) => n,
                None => DEFAULT_MINING_THREADS,
            }
        },
{
    if stored == 0 {
        match detected {
            Some(n) => n,
            None => DEFAULT_MINING_THREADS,
        }
    } else {
        stored
    }
}

/// A command that the mining driver sends to the node at startup.
#[derive(Debug)]
pub enum MiningCommand {
    /// Mine to the one key.
    SetMiningKey(String),
    /// Mine to the keys of the configurations.
    SetMiningKeyAdvanced(Vec<MiningKeyConfig>),
    /// Switch mining on or off.
    EnableMining(bool),
}

/// A command as a mathematical value.
pub enum CommandView {
    SetMiningKey(Seq<char>),
    SetMiningKeyAdvanced(Seq<ConfigView>),
    EnableMining(bool),
}

/// The configurations as mathematical values.
pub open spec fn config_views(configs: Seq<MiningKeyConfig>) -> Seq<ConfigView> {
    Seq::new(configs.len(), |i: int| configs[i]@)
}

impl View for MiningCommand {
    type V = CommandView;

    open spec fn view(&self) -> CommandView {
        match self {
            MiningCommand::SetMiningKey(key) => CommandView::SetMiningKey(key@),
            MiningCommand::SetMiningKeyAdvanced(configs) => CommandView::SetMiningKeyAdvanced(
                config_views(configs@),
            ),
            MiningCommand::EnableMining(on) => CommandView::EnableMining(*on),
        }
    }
}

impl MiningCommand {
    /// The wire on which the command is sent.
    pub fn wire(&self) -> (w: MiningWire)
        ensures
            w == match self@ {
                CommandView::EnableMining(_) => MiningWire::Enable,
                _ => MiningWire::SetPubKey,
            },
    {
        match self {
            MiningCommand::EnableMining(_) => MiningWire::Enable,
            _ => MiningWire::SetPubKey,
        }
    }

    /// The name of the command in its message.
    pub fn tag(&self) -> (r: &'static str)
        ensures
            r@ == match self@ {
                CommandView::SetMiningKey(_) => "set-mining-key"@,
                CommandView::SetMiningKeyAdvanced(_) => "set-mining-key-advanced"@,
                CommandView::EnableMining(_) => "enable-mining"@,
            },
    {
        match self {
            MiningCommand::SetMiningKey(_) => "set-mining-key",
            MiningCommand::SetMiningKeyAdvanced(_) => "set-mining-key-advanced",
            MiningCommand::EnableMining(_) => "enable-mining",
        }
    }
}

/// The flag that stands for a truth value in a message: zero for yes, one
/// for no.
pub fn loobean(b: bool) -> (r: u64)
    ensures
        r == if b {
            0u64
        } else {
            1u64
        },
{
    if b {
        0
    } else {
        1
    }
}

/// What the mining driver does at startup.
pub struct StartupPlan {
    /// The commands to send, in order.
    pub commands: Vec<MiningCommand>,
    /// Whether the worker pool is started afterwards.
    pub run_workers: bool,
}

/// Whether the configurations are the plain case of one key that gets
/// everything.
pub open spec fn is_single_key(configs: Seq<ConfigView>) -> bool {
    configs.len() == 1 && configs[0].share == 1 && configs[0].m == 1 && configs[0].keys.len() == 1
}

/// The commands of the startup plan.
pub open spec fn startup_commands(config: Option<Seq<ConfigView>>, mine: bool) -> Seq<CommandView> {
    match config {
        None => seq![CommandView::EnableMining(false)],
        Some(configs) => if is_single_key(configs) {
            seq![CommandView::SetMiningKey(configs[0].keys[0]), CommandView::EnableMining(mine)]
        } else {
            seq![CommandView::SetMiningKeyAdvanced(configs), CommandView::EnableMining(mine)]
        },
    }
}

/// The commands as mathematical values.
pub open spec fn command_views(commands: Seq<MiningCommand>) -> Seq<CommandView> {
    Seq::new(commands.len(), |i: int| commands[i]@)
}

/// The startup plan for the given key configuration and mining switch.
///
/// Without a configuration mining is switched off and no worker is started.
/// With one, the key command comes first, then the switch; the workers are
/// started if mining is on.
pub fn plan_startup(mining_config: Option<Vec<MiningKeyConfig>>, mine: bool) -> (plan: StartupPlan)
    ensures
        command_views(plan.commands@) == startup_commands(
            match mining_config {
                Some(configs) => Some(config_views(configs@)),
                None => None,
            },
            mine,
        ),
        plan.run_workers == (mine && mining_config is Some),
{
    let mut commands: Vec<MiningCommand> = Vec::new();
    match mining_config {
        None => {
            commands.push(MiningCommand::EnableMining(false));
            proof {
                assert(command_views(commands@) =~= startup_commands(None, mine));
            }
            StartupPlan { commands, run_workers: false }
        },
        Some(configs) => {
            let ghost views = config_views(configs@);
            let single = configs.len() == 1 && configs[0].share == 1 && configs[0].m == 1
                && configs[0].keys.len() == 1;
            proof {
                if configs@.len() >= 1 {
                    assert(views[0] == configs@[0]@);
                }
                assert(single == is_single_key(views));
            }
            if single {
                let key = configs[0].keys[0].clone();
                proof {
                    assert(key@ == views[0].keys[0]);
                }
                commands.push(MiningCommand::SetMiningKey(key));
            } else {
                commands.push(MiningCommand::SetMiningKeyAdvanced(configs));
            }
            commands.push(MiningCommand::EnableMining(mine));
            proof {
                assert(command_views(commands@) =~= startup_commands(Some(views), mine));
            }
            StartupPlan { commands, run_workers: mine }
        },
    }
}

/// What an effect of the node or of a proving context is to the mining
/// driver.
#[derive(Clone, Copy, Debug, PartialEq, Eq, Structural)]
pub enum EffectKind {
    /// It carries a candidate to mine on.
    Mine,
    /// It carries a command, which from a proving context is a proof.
    Command,
    /// It is of no concern.
    Other,
}

/// The bytes of the tag `mine`.
pub open spec fn mine_tag() -> Seq<u8> {
    seq![0x6d, 0x69, 0x6e, 0x65]
}

/// The bytes of the tag `command`.
pub open spec fn command_tag() -> Seq<u8> {
    seq![0x63, 0x6f, 0x6d, 0x6d, 0x61, 0x6e, 0x64]
}

/// What the effect with the given head is.
pub open spec fn effect_kind(head: Seq<u8>) -> EffectKind {
    if head == mine_tag() {
        EffectKind::Mine
    } else if head == command_tag() {
        EffectKind::Command
    } else {
        EffectKind::Other
    }
}

/// Classifies an effect by the bytes of its head.
pub fn classify_effect(head: &[u8]) -> (kind: EffectKind)
    ensures
        kind == effect_kind(head@),
{
    let n = head.len();
    if n == 4 && head[0] == 0x6d && head[1] == 0x69 && head[2] == 0x6e && head[3] == 0x65 {
        proof {
            assert(head@ =~= mine_tag());
        }
        EffectKind::Mine
    } else if n == 7 && head[0] == 0x63 && head[1] == 0x6f && head[2] == 0x6d && head[3] == 0x6d
        && head[4] == 0x61 && head[5] == 0x6e && head[6] == 0x64 {
        proof {
            assert(head@ =~= command_tag());
        }
        EffectKind::Command
    } else {
        proof {
            if head@ == mine_tag() {
                assert(mine_tag().len() == 4);
                assert(mine_tag()[0] == 0x6d && mine_tag()[1] == 0x69 && mine_tag()[2] == 0x6e
                    && mine_tag()[3] == 0x65);
            }
            if head@ == command_tag() {
                assert(command_tag().len() == 7);
                assert(command_tag()[0] == 0x63 && command_tag()[1] == 0x6f && command_tag()[2]
                    == 0x6d && command_tag()[3] == 0x6d && command_tag()[4] == 0x61
                    && command_tag()[5] == 0x6e && command_tag()[6] == 0x64);
            }
        }
        EffectKind::Other
    }
}

} // verus!
