use std::str::FromStr;
use zkvm_jetpack::dispatcher::{
    worker_step, DispatchAction, DispatchEvent, MiningDispatcher, WorkerAction, WorkerEvent,
    WorkerPhase, WorkerSlot, WorkerStatus, MAX_MINING_QUEUE,
};
use zkvm_jetpack::key_config::{parse_u64, split_text, MiningKeyConfig, ParseFailure};
use zkvm_jetpack::mining::{
    calculate_optimal_workers, classify_effect, get_mining_threads, loobean, plan_startup,
    thread_budget, threads_per_worker, EffectKind, MiningCommand, MiningWire,
    DEFAULT_MINING_THREADS, MINING_WIRE_VERSION,
};

#[test]
fn wire_verbs() {
    assert_eq!(MiningWire::Mined.verb(), "mined");
    assert_eq!(MiningWire::SetPubKey.verb(), "setpubkey");
    assert_eq!(MiningWire::Candidate.verb(), "candidate");
    assert_eq!(MiningWire::Enable.verb(), "enable");
    assert_eq!(MiningWire::source(), "miner");
    assert_eq!(MiningWire::version(), 1);
    assert_eq!(MINING_WIRE_VERSION, 1);
}

#[test]
fn worker_count_steps_with_the_thread_budget() {
    let expected = [
        (0usize, 1usize),
        (1, 1),
        (4, 1),
        (5, 2),
        (8, 2),
        (9, 4),
        (16, 4),
        (17, 4),
        (19, 4),
        (20, 5),
        (64, 16),
        (1000, 250),
    ];
    for (threads, workers) in expected {
        assert_eq!(calculate_optimal_workers(threads), workers, "threads {}", threads);
    }
}

#[test]
fn worker_count_never_decreases() {
    let mut last = 0;
    for threads in 0..500usize {
        let workers = calculate_optimal_workers(threads);
        assert!(workers >= 1);
        assert!(workers >= last);
        last = workers;
    }
}

#[test]
fn threads_per_worker_divides_the_budget() {
    assert_eq!(threads_per_worker(0), 0);
    assert_eq!(threads_per_worker(4), 4);
    assert_eq!(threads_per_worker(8), 4);
    assert_eq!(threads_per_worker(16), 4);
    assert_eq!(threads_per_worker(12), 3);
    assert_eq!(threads_per_worker(19), 4);
    assert_eq!(threads_per_worker(64), 4);
}

#[test]
fn thread_budget_prefers_configuration_then_hardware_then_default() {
    assert_eq!(thread_budget(Some("16"), Some(8)), 16);
    assert_eq!(thread_budget(Some("+3"), None), 3);
    assert_eq!(thread_budget(Some("0"), Some(8)), 0);
    assert_eq!(thread_budget(Some("many"), Some(8)), 8);
    assert_eq!(thread_budget(Some(""), Some(8)), 8);
    assert_eq!(thread_budget(Some(" 4"), Some(8)), 8);
    assert_eq!(thread_budget(None, Some(12)), 12);
    assert_eq!(thread_budget(None, None), 4);
    assert_eq!(thread_budget(Some("x"), None), DEFAULT_MINING_THREADS);
}

#[test]
fn stored_thread_count_wins_unless_it_is_zero() {
    assert_eq!(get_mining_threads(6, Some(2)), 6);
    assert_eq!(get_mining_threads(0, Some(2)), 2);
    assert_eq!(get_mining_threads(0, None), 4);
}

#[test]
fn decimal_numbers() {
    assert_eq!(parse_u64("0"), Ok(0));
    assert_eq!(parse_u64("007"), Ok(7));
    assert_eq!(parse_u64("+12"), Ok(12));
    assert_eq!(parse_u64("18446744073709551615"), Ok(u64::MAX));
    assert_eq!(parse_u64("18446744073709551616"), Err(ParseFailure::Overflow));
    assert_eq!(parse_u64("99999999999999999999x"), Err(ParseFailure::Overflow));
    assert_eq!(parse_u64(""), Err(ParseFailure::Empty));
    assert_eq!(parse_u64("+"), Err(ParseFailure::InvalidDigit));
    assert_eq!(parse_u64("-"), Err(ParseFailure::InvalidDigit));
    assert_eq!(parse_u64("-5"), Err(ParseFailure::InvalidDigit));
    assert_eq!(parse_u64("12a"), Err(ParseFailure::InvalidDigit));
    assert_eq!(parse_u64(" 1"), Err(ParseFailure::InvalidDigit));
    assert_eq!(parse_u64("++1"), Err(ParseFailure::InvalidDigit));
    assert_eq!(parse_u64("١"), Err(ParseFailure::InvalidDigit));
}

#[test]
fn decimal_numbers_agree_with_std() {
    for text in ["", "+", "-", "0", "42", "+42", "-42", "4 2", "18446744073709551615",
        "18446744073709551616", "000000000000000000000000001", "1e3", "٣"]
    {
        let ours = parse_u64(text).map_err(|f| f.message());
        let std = text.parse::<u64>().map_err(|e| e.to_string());
        assert_eq!(ours, std, "text {:?}", text);
    }
}

#[test]
fn splitting_keeps_empty_pieces() {
    assert_eq!(split_text("a,b,c", ','), vec!["a", "b", "c"]);
    assert_eq!(split_text("", ','), vec![""]);
    assert_eq!(split_text(",", ','), vec!["", ""]);
    assert_eq!(split_text("a,,b,", ','), vec!["a", "", "b", ""]);
    assert_eq!(split_text("no separator", ':'), vec!["no separator"]);
    assert_eq!(split_text("é:ü", ':'), vec!["é", "ü"]);
}

#[test]
fn key_config_from_text() {
    let config = MiningKeyConfig::from_str("1,2:alpha,beta,gamma").unwrap();
    assert_eq!(config.share, 1);
    assert_eq!(config.m, 2);
    assert_eq!(config.keys, vec!["alpha", "beta", "gamma"]);

    let config = MiningKeyConfig::parse("10,3:k").unwrap();
    assert_eq!((config.share, config.m), (10, 3));
    assert_eq!(config.keys, vec!["k"]);

    let config: MiningKeyConfig = "5,5:".parse().unwrap();
    assert_eq!(config.keys, vec![""]);
}

#[test]
fn key_config_errors() {
    let format = "Invalid format. Expected 'share,m:key1,key2,key3'";
    assert_eq!(MiningKeyConfig::parse("1,2").unwrap_err(), format);
    assert_eq!(MiningKeyConfig::parse("").unwrap_err(), format);
    assert_eq!(MiningKeyConfig::parse("1,2:a:b").unwrap_err(), format);
    assert_eq!(MiningKeyConfig::parse("1:a").unwrap_err(), "Invalid share,m format");
    assert_eq!(MiningKeyConfig::parse("1,2,3:a").unwrap_err(), "Invalid share,m format");
    assert_eq!(
        MiningKeyConfig::parse(",2:a").unwrap_err(),
        "cannot parse integer from empty string"
    );
    assert_eq!(MiningKeyConfig::parse("x,2:a").unwrap_err(), "invalid digit found in string");
    assert_eq!(MiningKeyConfig::parse("1,y:a").unwrap_err(), "invalid digit found in string");
    assert_eq!(
        MiningKeyConfig::parse("1,99999999999999999999:a").unwrap_err(),
        "number too large to fit in target type"
    );
    assert_eq!(
        MiningKeyConfig::from_str("1,:a").unwrap_err(),
        "cannot parse integer from empty string"
    );
}

#[test]
fn failure_messages() {
    assert_eq!(ParseFailure::Empty.message(), "cannot parse integer from empty string");
    assert_eq!(ParseFailure::InvalidDigit.message(), "invalid digit found in string");
    assert_eq!(ParseFailure::Overflow.message(), "number too large to fit in target type");
}

fn config(share: u64, m: u64, keys: &[&str]) -> MiningKeyConfig {
    MiningKeyConfig { share, m, keys: keys.iter().map(|k| k.to_string()).collect() }
}

#[test]
fn startup_without_configuration_switches_mining_off() {
    let plan = plan_startup(None, true);
    assert!(!plan.run_workers);
    assert_eq!(plan.commands.len(), 1);
    assert!(matches!(plan.commands[0], MiningCommand::EnableMining(false)));
}

#[test]
fn startup_with_one_plain_key() {
    let plan = plan_startup(Some(vec![config(1, 1, &["key"])]), true);
    assert!(plan.run_workers);
    assert_eq!(plan.commands.len(), 2);
    match &plan.commands[0] {
        MiningCommand::SetMiningKey(key) => assert_eq!(key, "key"),
        other => panic!("unexpected command {:?}", other),
    }
    assert!(matches!(plan.commands[1], MiningCommand::EnableMining(true)));

    let plan = plan_startup(Some(vec![config(1, 1, &["key"])]), false);
    assert!(!plan.run_workers);
    assert!(matches!(plan.commands[1], MiningCommand::EnableMining(false)));
}

#[test]
fn startup_with_an_advanced_configuration() {
    for configs in [
        vec![config(2, 1, &["a"])],
        vec![config(1, 2, &["a"])],
        vec![config(1, 1, &["a", "b"])],
        vec![config(1, 1, &[])],
        vec![config(1, 1, &["a"]), config(1, 1, &["b"])],
        vec![],
    ] {
        let count = configs.len();
        let plan = plan_startup(Some(configs), true);
        assert!(plan.run_workers);
        assert_eq!(plan.commands.len(), 2);
        match &plan.commands[0] {
            MiningCommand::SetMiningKeyAdvanced(sent) => assert_eq!(sent.len(), count),
            other => panic!("unexpected command {:?}", other),
        }
        assert!(matches!(plan.commands[1], MiningCommand::EnableMining(true)));
    }
}

#[test]
fn commands_name_their_wire_and_tag() {
    let key = MiningCommand::SetMiningKey("k".to_string());
    let advanced = MiningCommand::SetMiningKeyAdvanced(vec![]);
    let enable = MiningCommand::EnableMining(true);
    assert_eq!(key.wire(), MiningWire::SetPubKey);
    assert_eq!(advanced.wire(), MiningWire::SetPubKey);
    assert_eq!(enable.wire(), MiningWire::Enable);
    assert_eq!(key.tag(), "set-mining-key");
    assert_eq!(advanced.tag(), "set-mining-key-advanced");
    assert_eq!(enable.tag(), "enable-mining");
}

#[test]
fn yes_is_zero_and_no_is_one() {
    assert_eq!(loobean(true), 0);
    assert_eq!(loobean(false), 1);
}

#[test]
fn effects_by_their_head() {
    assert_eq!(classify_effect(b"mine"), EffectKind::Mine);
    assert_eq!(classify_effect(b"command"), EffectKind::Command);
    assert_eq!(classify_effect(b"mined"), EffectKind::Other);
    assert_eq!(classify_effect(b"min"), EffectKind::Other);
    assert_eq!(classify_effect(b"comment"), EffectKind::Other);
    assert_eq!(classify_effect(b""), EffectKind::Other);
    assert_eq!(classify_effect(b"Mine"), EffectKind::Other);
}

#[test]
fn queue_takes_candidates_up_to_its_capacity_and_drops_the_rest() {
    let mut d: MiningDispatcher<u32> = MiningDispatcher::new(2, MAX_MINING_QUEUE);
    assert_eq!(MAX_MINING_QUEUE, 32);
    assert_eq!(d.capacity(), 32);
    for c in 0..32u32 {
        assert!(matches!(d.handle(DispatchEvent::Candidate(c)), DispatchAction::Enqueued));
        assert_eq!(d.queue_len(), c as usize + 1);
    }
    assert_eq!(d.dropped(), 0);
    for c in 32..40u32 {
        match d.handle(DispatchEvent::Candidate(c)) {
            DispatchAction::Dropped(back) => assert_eq!(back, c),
            _ => panic!("a full queue must drop the candidate"),
        }
        assert_eq!(d.queue_len(), 32);
    }
    assert_eq!(d.dropped(), 8);
    // the queue holds the first 32 candidates, oldest first
    for c in 0..32u32 {
        assert_eq!(d.next_candidate(), Some(c));
    }
    assert_eq!(d.next_candidate(), None);
    assert_eq!(d.queue_len(), 0);
}

#[test]
fn a_drained_queue_takes_candidates_again() {
    let mut d: MiningDispatcher<&str> = MiningDispatcher::new(1, 2);
    assert!(matches!(d.handle(DispatchEvent::Candidate("a")), DispatchAction::Enqueued));
    assert!(matches!(d.handle(DispatchEvent::Candidate("b")), DispatchAction::Enqueued));
    assert!(matches!(d.handle(DispatchEvent::Candidate("c")), DispatchAction::Dropped("c")));
    assert_eq!(d.next_candidate(), Some("a"));
    assert!(matches!(d.handle(DispatchEvent::Candidate("d")), DispatchAction::Enqueued));
    assert_eq!(d.next_candidate(), Some("b"));
    assert_eq!(d.next_candidate(), Some("d"));
    assert_eq!(d.next_candidate(), None);
}

#[test]
fn a_queue_without_room_drops_everything() {
    let mut d: MiningDispatcher<u8> = MiningDispatcher::new(1, 0);
    assert!(matches!(d.handle(DispatchEvent::Candidate(1)), DispatchAction::Dropped(1)));
    assert_eq!(d.queue_len(), 0);
    assert_eq!(d.dropped(), 1);
}

#[test]
fn a_worker_that_ends_is_restarted_once_and_alone() {
    let mut d: MiningDispatcher<u32> = MiningDispatcher::new(4, 8);
    assert_eq!(d.worker_count(), 4);
    for id in 0..4 {
        assert_eq!(
            d.slot(id),
            Some(WorkerSlot { status: WorkerStatus::Starting, generation: 0 })
        );
        assert!(matches!(d.handle(DispatchEvent::WorkerReady(id)), DispatchAction::Nothing));
    }
    assert!(matches!(d.handle(DispatchEvent::Candidate(7)), DispatchAction::Enqueued));

    assert!(matches!(d.handle(DispatchEvent::WorkerExited(2)), DispatchAction::Restart(2)));
    assert_eq!(d.slot(2), Some(WorkerSlot { status: WorkerStatus::Terminated, generation: 0 }));
    // a second report for the same slot asks for nothing
    assert!(matches!(d.handle(DispatchEvent::WorkerExited(2)), DispatchAction::Nothing));
    for id in [0usize, 1, 3] {
        assert_eq!(d.slot(id), Some(WorkerSlot { status: WorkerStatus::Running, generation: 0 }));
    }
    assert_eq!(d.queue_len(), 1);

    assert!(matches!(d.handle(DispatchEvent::WorkerSpawned(2)), DispatchAction::Nothing));
    assert_eq!(d.slot(2), Some(WorkerSlot { status: WorkerStatus::Starting, generation: 1 }));
    assert!(matches!(d.handle(DispatchEvent::WorkerReady(2)), DispatchAction::Nothing));
    assert_eq!(d.slot(2), Some(WorkerSlot { status: WorkerStatus::Running, generation: 1 }));
    // and it ends again: one more restart
    assert!(matches!(d.handle(DispatchEvent::WorkerExited(2)), DispatchAction::Restart(2)));
}

#[test]
fn a_worker_that_cannot_start_is_restarted_too() {
    let mut d: MiningDispatcher<u32> = MiningDispatcher::new(1, 8);
    assert!(matches!(d.handle(DispatchEvent::WorkerExited(0)), DispatchAction::Restart(0)));
    assert!(matches!(d.handle(DispatchEvent::WorkerSpawned(0)), DispatchAction::Nothing));
    assert!(matches!(d.handle(DispatchEvent::WorkerExited(0)), DispatchAction::Restart(0)));
    assert!(matches!(d.handle(DispatchEvent::WorkerSpawned(0)), DispatchAction::Nothing));
    assert_eq!(d.slot(0), Some(WorkerSlot { status: WorkerStatus::Starting, generation: 2 }));
}

#[test]
fn reports_that_do_not_fit_are_ignored() {
    let mut d: MiningDispatcher<u32> = MiningDispatcher::new(2, 8);
    assert!(matches!(d.handle(DispatchEvent::WorkerExited(5)), DispatchAction::Nothing));
    assert!(matches!(d.handle(DispatchEvent::WorkerReady(9)), DispatchAction::Nothing));
    assert!(matches!(d.handle(DispatchEvent::WorkerSpawned(0)), DispatchAction::Nothing));
    assert_eq!(d.slot(0), Some(WorkerSlot { status: WorkerStatus::Starting, generation: 0 }));
    assert_eq!(d.slot(2), None);
    assert!(matches!(d.handle(DispatchEvent::WorkerReady(0)), DispatchAction::Nothing));
    assert!(matches!(d.handle(DispatchEvent::WorkerReady(0)), DispatchAction::Nothing));
    assert_eq!(d.slot(0), Some(WorkerSlot { status: WorkerStatus::Running, generation: 0 }));
}

#[test]
fn worker_life_cycle() {
    assert_eq!(
        worker_step(WorkerPhase::Starting, WorkerEvent::ContextReady),
        (WorkerPhase::Waiting, WorkerAction::AwaitCandidate)
    );
    assert_eq!(
        worker_step(WorkerPhase::Starting, WorkerEvent::ContextFailed),
        (WorkerPhase::Terminated, WorkerAction::Exit)
    );
    assert_eq!(
        worker_step(WorkerPhase::Waiting, WorkerEvent::CandidateTaken),
        (WorkerPhase::Proving, WorkerAction::Prove)
    );
    assert_eq!(
        worker_step(WorkerPhase::Waiting, WorkerEvent::QueueClosed),
        (WorkerPhase::Terminated, WorkerAction::Exit)
    );
    assert_eq!(
        worker_step(WorkerPhase::Proving, WorkerEvent::AttemptDone),
        (WorkerPhase::Waiting, WorkerAction::ForwardProofs)
    );
    assert_eq!(
        worker_step(WorkerPhase::Proving, WorkerEvent::AttemptFailed),
        (WorkerPhase::Waiting, WorkerAction::ReportFailure)
    );
}

#[test]
fn worker_ignores_events_out_of_place() {
    assert_eq!(
        worker_step(WorkerPhase::Proving, WorkerEvent::CandidateTaken),
        (WorkerPhase::Proving, WorkerAction::Ignore)
    );
    assert_eq!(
        worker_step(WorkerPhase::Proving, WorkerEvent::QueueClosed),
        (WorkerPhase::Proving, WorkerAction::Ignore)
    );
    assert_eq!(
        worker_step(WorkerPhase::Terminated, WorkerEvent::ContextReady),
        (WorkerPhase::Terminated, WorkerAction::Ignore)
    );
    assert_eq!(
        worker_step(WorkerPhase::Waiting, WorkerEvent::AttemptFailed),
        (WorkerPhase::Waiting, WorkerAction::Ignore)
    );
}
