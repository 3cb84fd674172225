use std::collections::HashMap;
use tachtalk::config::mode01_pid_data_lengths;
use tachtalk::elm327::ClientState;
use tachtalk::obd2::buffers::{CachedResponse, Obd2Buffer, PidGroup};
use tachtalk::obd2::cache::{
    handle_consumed_pid, handle_waiting_pid, initial_pid_infos, rpm_from_response,
    run_maintenance, CacheMetrics, ClientCache, PriorityChange,
};
use tachtalk::obd2::dongle::{
    handle_dongle_result, init_command, receive_step, reconnect_due, terminate_command,
    DongleError, DongleOutcome, DongleState, ExecutePhase, ExecuteStep, FeatureSupport, ReadEvent,
    ReadStep, SupportedPidsCache,
};
use tachtalk::obd2::manager::{CacheManager, CacheManagerMessage, PrioritySettings};
use tachtalk::obd2::metrics::{PollingMetrics, RequestRate};
use tachtalk::obd2::parse::{
    count_ecus_per_pid, extract_pids_from_response, parse_response_framed, parse_response_to_cache,
};
use tachtalk::obd2::polling::{
    plan_queries, polls_in_batches, round_goes_on, DongleMessage, PidPriority, PollQuery,
    PollingState, SlowPollMode,
};
use tachtalk::obd2::proxy::{
    command_text, finish_look_up, finish_wait, look_up, process_command, CommandAction,
    CommandBuffer, CommandLog,
};
use tachtalk::obd2::wire::{
    build_multi_pid_wire_command, format_cached_for_client, normalize_obd_command,
    pid_to_wire_command, supported_pids_command, supported_pids_index, wire_command_to_pid,
};

const SECOND: u64 = 1_000_000_000;

fn response(ecus: &[&[u8]]) -> CachedResponse {
    let mut response = CachedResponse::new();
    for data in ecus {
        response.add_ecu(data);
    }
    response
}

fn dongle() -> DongleState {
    DongleState::new(true, "1", mode01_pid_data_lengths())
}

#[test]
fn commands_go_over_the_wire_in_hex() {
    assert_eq!(pid_to_wire_command(0x0c).bytes(), b"010C");
    assert_eq!(
        build_multi_pid_wire_command(&[0x0c, 0x0d], 1).bytes(),
        b"010C0D 1"
    );
    assert_eq!(wire_command_to_pid(b"010c"), Some(0x0c));
    assert_eq!(wire_command_to_pid(b"010C0D"), Some(0x0c));
    assert_eq!(wire_command_to_pid(b"0902"), None);
    assert_eq!(wire_command_to_pid(b"ATZ"), None);
    assert_eq!(wire_command_to_pid(b"01"), None);
    assert_eq!(wire_command_to_pid("0\u{e9}1".as_bytes()), None);
    assert_eq!(wire_command_to_pid("\u{e9}01".as_bytes()), None);
    assert_eq!(wire_command_to_pid(&[0x30, 0x31, 0xff, 0x43]), None);
}

#[test]
fn spellings_of_a_command_are_one() {
    for typed in ["010C", "01 0C", "010C 1", "01 0C 1"] {
        assert_eq!(normalize_obd_command(typed.as_bytes()).bytes(), b"010C");
    }
    assert_eq!(normalize_obd_command(b"010C 2").bytes(), b"010C2");
    let once = normalize_obd_command(b"01 0C 1");
    assert_eq!(normalize_obd_command(once.bytes()).bytes(), once.bytes());
}

#[test]
fn capability_queries_are_numbered() {
    for index in 0..8 {
        let query = supported_pids_command(index);
        assert_eq!(supported_pids_index(query.bytes()), Some(index));
    }
    assert_eq!(supported_pids_command(2).bytes(), b"0140");
    assert_eq!(supported_pids_index(b"01a0"), Some(5));
    assert_eq!(supported_pids_index(b"010C"), None);
}

#[test]
fn cached_values_are_laid_out_for_the_client() {
    let values = response(&[&[0x1a, 0xf8], &[0x1b, 0x00]]);
    let mut state = ClientState::default();
    let spaced = format_cached_for_client(0x0c, &values, &state);
    assert_eq!(
        spaced.bytes(),
        b"\r\n41 0C 1A F8\r\n41 0C 1B 00\r\n>"
    );
    state.spaces_enabled = false;
    state.linefeeds_enabled = false;
    let compact = format_cached_for_client(0x0c, &values, &state);
    assert_eq!(compact.bytes(), b"\r410C1AF8\r410C1B00\r>");
    // What a client reads is what the dongle said.
    let lengths = mode01_pid_data_lengths();
    let again = parse_response_to_cache(compact.bytes(), &lengths);
    assert_eq!(again[&0x0c].ecus().len(), 2);
    assert_eq!(again[&0x0c].ecus()[1].bytes(), [0x1b, 0x00]);
}

#[test]
fn answers_are_split_by_pid() {
    let lengths = mode01_pid_data_lengths();
    let cache = parse_response_to_cache(b"410C0CB805627D\r\r>", &lengths);
    assert_eq!(cache[&0x0c].ecus()[0].bytes(), [0x0c, 0xb8]);
    assert_eq!(cache[&0x05].ecus()[0].bytes(), [0x62]);
    assert!(parse_response_to_cache(b"NO DATA\r\r>", &lengths).is_empty());
    let pids = extract_pids_from_response(&[0x41, 0x0c, 0x0c, 0xb8, 0x05, 0x62], &lengths);
    assert!(pids.bytes().contains(&0x0c));
}

#[test]
fn framed_answers_name_their_ecu() {
    let framed = parse_response_framed(b"7E8 04 41 0C 1A F8\r7E9 04 41 0C 00 00\r\r>", true);
    let lines = framed.lines();
    assert_eq!(lines.len(), 2);
    assert_eq!(lines[0].ecu_id, Some(0x7e8));
    assert_eq!(lines[0].data.bytes(), [0x41, 0x0c, 0x1a, 0xf8]);
    let counts = count_ecus_per_pid(lines, true, &mode01_pid_data_lengths());
    assert_eq!(counts[&0x0c], 2);
    let plain = parse_response_framed(b"410C1AF8\r\r>", false);
    assert_eq!(plain.lines()[0].ecu_id, None);
}

#[test]
fn answers_end_in_a_prompt() {
    assert_eq!(terminate_command(b"010C").bytes(), b"010C\r");
    assert_eq!(terminate_command(b"010C\r").bytes(), b"010C\r");
    let mut buffer = Obd2Buffer::of(b"");
    let step = receive_step(&mut buffer, ReadEvent::Data(b"410C"), 0, 100);
    assert!(matches!(step, ReadStep::More));
    let step = receive_step(&mut buffer, ReadEvent::WouldBlock, 50_000_000, 100);
    assert!(matches!(step, ReadStep::Pause));
    let step = receive_step(&mut buffer, ReadEvent::WouldBlock, 101_000_000, 100);
    assert!(matches!(step, ReadStep::Failed(DongleError::Timeout)));
    let step = receive_step(&mut buffer, ReadEvent::Data(b"1AF8\r\r>"), 0, 100);
    assert!(matches!(step, ReadStep::Complete));
    assert_eq!(buffer.bytes(), b"410C1AF8\r\r>");
    let step = receive_step(&mut buffer, ReadEvent::Closed, 0, 100);
    assert!(matches!(step, ReadStep::Failed(DongleError::Disconnected)));
    let failed = ReadEvent::Failed("gone".to_string());
    let step = receive_step(&mut buffer, failed, 0, 100);
    assert!(matches!(step, ReadStep::Failed(DongleError::IoError(e)) if e == "gone"));
}

#[test]
fn dongle_errors_have_texts() {
    assert_eq!(DongleError::Timeout.message(), "Dongle timeout");
    assert_eq!(
        DongleError::NotConnected.message(),
        "Not connected to dongle"
    );
    assert_eq!(DongleError::IoError("x".to_string()).message(), "IO error: x");
    assert_eq!(DongleError::Disconnected.to_elm327_error(), "CAN ERROR");
    assert!(reconnect_due(None) && !reconnect_due(Some(999)) && reconnect_due(Some(1000)));
    assert_eq!(init_command(4, true), Some("ATH1"));
    assert_eq!(init_command(5, true), None);
}

#[test]
fn refused_repeats_are_sent_in_full() {
    let mut state = dongle();
    let command = Obd2Buffer::of(b"010C");
    let (phase, wire) = state.start_command(&command);
    assert_eq!(phase, ExecutePhase::Full);
    assert_eq!(wire.bytes(), b"010C");
    state.finish_command(&command, phase, Ok(Obd2Buffer::of(b"410C1AF8\r\r>")));
    let (phase, wire) = state.start_command(&command);
    assert_eq!(phase, ExecutePhase::Repeated);
    assert_eq!(wire.bytes(), b"1");
    let step = state.finish_command(&command, phase, Ok(Obd2Buffer::of(b"?\r\r>")));
    assert!(matches!(step, ExecuteStep::SendFull));
    assert_eq!(state.supports_repeat, FeatureSupport::No);
    let (phase, _) = state.start_command(&command);
    assert_eq!(phase, ExecutePhase::Full);
    let step = state.finish_command(&command, phase, Err(DongleError::Timeout));
    assert!(matches!(step, ExecuteStep::Done(Err(DongleError::Timeout))));
    assert!(state.last_command.is_none());
}

#[test]
fn batches_are_tested_before_they_are_used() {
    let mut state = dongle();
    let answer = Ok(Obd2Buffer::of(b"410C0CB80562\r\r>"));
    state.validate_multi_pid_support(&answer, &[0x0c, 0x05]);
    assert_eq!(state.supports_multi_pid, FeatureSupport::Yes);
    let mut other = dongle();
    let answer = Ok(Obd2Buffer::of(b"410C0CB8\r\r>"));
    other.validate_multi_pid_support(&answer, &[0x0c, 0x05]);
    assert_eq!(other.supports_multi_pid, FeatureSupport::No);
    assert!(polls_in_batches(true, FeatureSupport::Unknown));
    assert!(!polls_in_batches(true, FeatureSupport::No));
    assert!(!polls_in_batches(false, FeatureSupport::Yes));
    assert!(!round_goes_on(
        &PollQuery::Batch(PidGroup::of(&[0x0c, 0x05]), 1),
        true,
        FeatureSupport::No
    ));
}

#[test]
fn learned_counts_make_batches() {
    let mut state = dongle();
    let mut polling = PollingState::new(0);
    polling.set_pid_priority(0x05, PidPriority::Slow);
    let groups = polling.partition_pids_by_ecu_count(&state);
    assert_eq!(plan_queries(&groups, 6).len(), 2);
    state.learn_from_single(0x0c, &Obd2Buffer::of(b"410C0CB8\r\r>"));
    state.learn_from_single(0x05, &Obd2Buffer::of(b"410562\r\r>"));
    let groups = polling.partition_pids_by_ecu_count(&state);
    assert_eq!(groups.groups().len(), 1);
    assert_eq!(groups.groups()[0].key, Some(1));
    let plan = plan_queries(&groups, 6);
    assert!(matches!(&plan[..], [PollQuery::Batch(pids, 1)] if pids.bytes() == [0x0c, 0x05]));
    // A limit of one asks for each PID alone, without a count
    let single = plan_queries(&groups, 1);
    assert!(matches!(
        &single[..],
        [PollQuery::Single(0x0c), PollQuery::Single(0x05)]
    ));
    let pair = plan_queries(&groups, 2);
    assert!(matches!(&pair[..], [PollQuery::Batch(pids, 1)] if pids.bytes().len() == 2));
    assert_eq!(state.build_wire_command(0x0c).bytes(), b"010C 1");
}

#[test]
fn queries_hold_no_more_than_the_limit() {
    let mut state = dongle();
    let mut polling = PollingState::new(0);
    for pid in [0x04, 0x05, 0x0b, 0x0d, 0x0e, 0x0f, 0x11] {
        polling.set_pid_priority(pid, PidPriority::Slow);
        let answer = format!("41{pid:02X}62\r\r>");
        state.learn_from_single(pid, &Obd2Buffer::of(answer.as_bytes()));
    }
    state.learn_from_single(0x0c, &Obd2Buffer::of(b"410C0CB8\r\r>"));
    let groups = polling.partition_pids_by_ecu_count(&state);
    for (limit, sizes) in [
        (1, vec![1, 1, 1, 1, 1, 1, 1, 1]),
        (2, vec![2, 2, 2, 2]),
        (3, vec![3, 3, 2]),
        (6, vec![6, 2]),
        (9, vec![6, 2]),
    ] {
        let asked: Vec<usize> = plan_queries(&groups, limit)
            .iter()
            .map(|query| match query {
                PollQuery::Single(_) => 1,
                PollQuery::Batch(pids, _) => pids.bytes().len(),
            })
            .collect();
        assert_eq!(asked, sizes);
    }
}

#[test]
fn lost_connections_are_reported() {
    let lengths = mode01_pid_data_lengths();
    let lost = handle_dongle_result(&Err(DongleError::Disconnected), &lengths);
    assert!(matches!(lost, DongleOutcome::ConnectionLost));
    let slow = handle_dongle_result(&Err(DongleError::Timeout), &lengths);
    assert!(matches!(slow, DongleOutcome::Ignored));
    let answer = handle_dongle_result(&Ok(Obd2Buffer::of(b"410C1AF8\r\r>")), &lengths);
    assert!(matches!(answer, DongleOutcome::Responses(map) if map.len() == 1));
}

#[test]
fn queues_rotate() {
    let mut polling = PollingState::new(0);
    polling.set_pid_priority(0x05, PidPriority::Fast);
    assert_eq!(polling.next_fast_pid(), Some(0x0c));
    assert_eq!(polling.next_fast_pid(), Some(0x05));
    assert_eq!(polling.next_fast_pid(), Some(0x0c));
    assert_eq!(polling.next_slow_pid(), None);
    polling.apply(DongleMessage::SetPidPriority(0x05, PidPriority::Slow));
    assert_eq!(polling.next_slow_pid(), Some(0x05));
    polling.apply(DongleMessage::RemovePid(0x05));
    assert_eq!(polling.next_slow_pid(), None);
}

#[test]
fn slow_pids_wait_their_turn() {
    let mut polling = PollingState::new(0);
    polling.set_pid_priority(0x05, PidPriority::Slow);
    let mode = SlowPollMode::Ratio;
    for _ in 0..2 {
        assert!(polling.has_room());
        assert_eq!(polling.start_round(), Some(0x0c));
        assert_eq!(polling.end_round(mode, 0, 3, 0, true), None);
    }
    assert_eq!(polling.start_round(), Some(0x0c));
    assert_eq!(polling.end_round(mode, 0, 3, 0, true), Some(0x05));
    let interval = SlowPollMode::Interval;
    assert_eq!(polling.end_round(interval, 100, 3, SECOND, true), Some(0x05));
    assert_eq!(polling.end_round(interval, 100, 3, SECOND + 1, true), None);
    assert_eq!(polling.end_round(interval, 100, 3, 2 * SECOND, false), None);
}

#[test]
fn caches_give_a_value_once() {
    let mut cache = ClientCache::new();
    assert!(cache.take(0x0c).is_none());
    assert!(cache.store(0x0c, &response(&[&[1, 2]])).is_none());
    assert!(cache.store(0x05, &response(&[&[3]])).is_none());
    let value = cache.take(0x0c).unwrap();
    assert_eq!(value.ecus()[0].bytes(), [1, 2]);
    assert!(cache.take(0x0c).is_none());
    let (tx, rx) = oneshot::channel();
    cache.wait_for(0x0c, tx);
    let waker = cache.store(0x0c, &response(&[&[4, 5]])).unwrap();
    waker.send(()).unwrap();
    assert!(rx.try_recv().is_ok());
    assert!(cache.take_after_wake(0x0c).is_ok());
    assert!(cache.take_after_wake(0x0c).is_err());
    let (tx, _rx) = oneshot::channel();
    cache.wait_for(0x0c, tx);
    assert!(matches!(cache.stop_waiting(0x0c), DongleError::Timeout));
    assert!(cache.store(0x0c, &response(&[])).is_none());
}

#[test]
fn look_ups_tell_the_cache_manager() {
    let mut cache = ClientCache::new();
    cache.store(0x0c, &response(&[&[1, 2]]));
    cache.store(0x05, &response(&[&[3]]));
    let (tx, _rx) = oneshot::channel();
    let (found, message) = look_up(&mut cache, 0x0c, tx);
    assert_eq!(found.unwrap().ecus()[0].bytes(), [1, 2]);
    assert!(matches!(
        message,
        CacheManagerMessage::Consumed { pid: 0x0c, wait_ns: None }
    ));
    // The value is served once
    let (tx, _rx) = oneshot::channel();
    let (found, message) = look_up(&mut cache, 0x0c, tx);
    assert!(found.is_none());
    assert!(matches!(message, CacheManagerMessage::Waiting(0x0c)));
    assert!(cache.store(0x0c, &response(&[&[7, 8]])).is_some());
    let (result, message) = finish_wait(&mut cache, 0x0c, Some(42));
    assert_eq!(result.unwrap().ecus()[0].bytes(), [7, 8]);
    assert!(matches!(
        message,
        Some(CacheManagerMessage::Consumed { pid: 0x0c, wait_ns: Some(42) })
    ));
    // Woken without a value
    let (result, message) = finish_wait(&mut cache, 0x0c, Some(42));
    assert!(matches!(result, Err(DongleError::NotConnected)) && message.is_none());
    // Not woken in time: nobody is waiting any more
    let (tx, _rx) = oneshot::channel();
    assert!(look_up(&mut cache, 0x0c, tx).0.is_none());
    let (result, message) = finish_wait(&mut cache, 0x0c, None);
    assert!(matches!(result, Err(DongleError::Timeout)) && message.is_none());
    assert!(cache.store(0x0c, &response(&[])).is_none());
    // The other PID was left alone
    let (tx, _rx) = oneshot::channel();
    assert_eq!(look_up(&mut cache, 0x05, tx).0.unwrap().ecus()[0].bytes(), [3]);
}

#[test]
fn rpm_is_a_quarter_of_two_bytes() {
    assert_eq!(rpm_from_response(&response(&[&[0x1a, 0xf8]])), Some(1726));
    assert_eq!(rpm_from_response(&response(&[&[0x1a]])), None);
    assert_eq!(rpm_from_response(&response(&[])), None);
}

#[test]
fn waiting_clients_make_pids_fast() {
    let mut infos = initial_pid_infos(0);
    let interval = SlowPollMode::Interval;
    let change = handle_waiting_pid(0x05, &mut infos, interval, 1);
    assert_eq!(change, PriorityChange::Added);
    let mut metrics = CacheMetrics::default();
    // Nobody waits any more: it becomes slow, and is dropped later. RPM stays.
    let done = run_maintenance(&mut infos, 1000, 5000, 2 * SECOND, &mut metrics);
    assert_eq!((done.demoted.as_slice(), done.removed.len()), ([0x05].as_slice(), 0));
    assert_eq!(
        done.messages(),
        [DongleMessage::SetPidPriority(0x05, PidPriority::Slow)]
    );
    let change = handle_waiting_pid(0x05, &mut infos, SlowPollMode::Ratio, 3 * SECOND);
    assert_eq!(change, PriorityChange::Unchanged);
    let ratio = SlowPollMode::Ratio;
    let wait = Some(20_000_000);
    let change = handle_consumed_pid(0x05, wait, &mut infos, ratio, 10, 3 * SECOND, &mut metrics);
    assert_eq!(change, PriorityChange::Promoted);
    assert_eq!((metrics.hits, metrics.misses), (0, 1));
    let done = run_maintenance(&mut infos, 1000, 5000, 20 * SECOND, &mut metrics);
    assert_eq!(done.removed, [0x05]);
    assert_eq!(done.metrics.total_wait_ns, 20_000_000);
    assert!(infos.contains_key(&0x0c) && infos.len() == 1);
}

fn settings() -> PrioritySettings {
    PrioritySettings {
        slow_poll_mode: SlowPollMode::Interval,
        promotion_wait_threshold_ms: 100,
        fast_demotion_ms: 1000,
        pid_inactive_removal_ms: 5000,
    }
}

#[test]
fn manager_delivers_to_every_client() {
    let mut manager = CacheManager::new(0);
    let register = |manager: &mut CacheManager| {
        assert!(manager.has_room(&CacheManagerMessage::RegisterClient));
        let handled = manager.handle(CacheManagerMessage::RegisterClient, &settings(), 1);
        handled.registered.unwrap()
    };
    let first = register(&mut manager);
    let second = register(&mut manager);
    assert_eq!((first, second), (1, 2));
    let (tx, rx) = oneshot::channel();
    manager.caches.clients[1].1.wait_for(0x0c, tx);
    let mut responses = HashMap::new();
    responses.insert(0x0c, response(&[&[0x1a, 0xf8]]));
    let message = CacheManagerMessage::DongleResponse { responses };
    let handled = manager.handle(message, &settings(), 2);
    assert_eq!(handled.rpm, Some(1726));
    assert_eq!(handled.wakers.len(), 1);
    for waker in handled.wakers {
        waker.send(()).unwrap();
    }
    assert!(rx.try_recv().is_ok());
    for client in &mut manager.caches.clients {
        assert!(client.1.take_after_wake(0x0c).is_ok());
    }
    manager.handle(CacheManagerMessage::UnregisterClient(first), &settings(), 3);
    assert_eq!(manager.caches.clients.len(), 1);
    assert_eq!(manager.caches.clients[0].0, second);
}

#[test]
fn manager_tells_the_dongle_task() {
    let mut manager = CacheManager::new(0);
    let handled = manager.handle(CacheManagerMessage::Waiting(0x05), &settings(), 1);
    assert_eq!(
        handled.message,
        Some(DongleMessage::SetPidPriority(0x05, PidPriority::Fast))
    );
    assert!(manager.maintain(&settings(), SECOND).is_none());
    let done = manager.maintain(&settings(), 2 * SECOND).unwrap();
    assert_eq!(done.demoted, [0x05]);
    assert!(manager.maintain(&settings(), 3 * SECOND).is_none());
    let handled = manager.handle(CacheManagerMessage::Waiting(0x05), &settings(), 3 * SECOND);
    assert_eq!(handled.change, PriorityChange::Promoted);
    let consumed = CacheManagerMessage::Consumed {
        pid: 0x05,
        wait_ns: None,
    };
    assert!(manager.has_room(&consumed));
    let handled = manager.handle(consumed, &settings(), 3 * SECOND);
    assert_eq!(handled.message, None);
    assert_eq!(manager.metrics.hits, 1);
}

#[test]
fn polling_is_summarized() {
    let mut polling = PollingState::new(0);
    polling.set_pid_priority(0x05, PidPriority::Slow);
    polling.set_pid_priority(0x0d, PidPriority::Fast);
    let mut metrics = PollingMetrics::default();
    metrics.sync_metrics(&polling);
    metrics.record_change(PriorityChange::Promoted);
    metrics.record_change(PriorityChange::Added);
    metrics.record_requests(u32::MAX);
    metrics.record_requests(3);
    assert_eq!(metrics.dongle_requests_total, 2);
    let mut rate = RequestRate::new(0);
    assert_eq!(rate.count(5, SECOND - 1), None);
    assert_eq!(rate.count(6, SECOND), Some(11));
    metrics.dongle_requests_per_sec = 11;
    assert_eq!(
        metrics.summary(),
        [
            "Polling: 2 fast, 1 slow PIDs | 11/sec | +1 -0 x0",
            "  Fast: 010C, 010D",
            "  Slow: 0105",
        ]
    );
}

fn supported() -> SupportedPidsCache {
    let mut cache = SupportedPidsCache::default();
    cache.record(0, Ok(Obd2Buffer::of(b"4100BE3FA813\r\r>")));
    cache.ready = true;
    cache
}

#[test]
fn clients_are_answered_by_the_proxy() {
    let mut typed = CommandBuffer::new();
    for byte in b" 010C\n" {
        assert!(typed.accept(*byte).is_none());
    }
    let raw = typed.accept(b'\r').unwrap();
    assert_eq!(command_text(&raw).as_deref(), Some("010C"));
    assert_eq!(command_text(b"  "), None);

    let mut state = ClientState::default();
    let not_ready = SupportedPidsCache::default();
    let (_, action) = process_command("010C", b"010C", &mut state, &not_ready);
    assert!(matches!(
        action,
        CommandAction::Reply(reply) if reply.bytes() == b"\r\nUNABLE TO CONNECT\r\n>"
    ));
    let ready = supported();
    let (log, action) = process_command("010c", b"010c", &mut state, &ready);
    assert!(matches!(log, CommandLog::Obd2(text) if text == "010C"));
    let (pid, command) = match action {
        CommandAction::LookUp(pid, command) => (pid, command),
        _ => panic!("looked up"),
    };
    assert_eq!(pid, 0x0c);
    let reply = finish_look_up(pid, command, &Ok(response(&[&[0x1a, 0xf8]])), &mut state);
    assert_eq!(reply.bytes(), b"\r\n41 0C 1A F8\r\n>");
    // The last command is repeated.
    let (_, action) = process_command("1", b"1", &mut state, &ready);
    assert!(matches!(action, CommandAction::LookUp(0x0c, _)));
    let failed = Err(DongleError::Timeout);
    let reply = finish_look_up(0x0c, "010C".to_string(), &failed, &mut state);
    assert_eq!(reply.bytes(), b"\r\nNO DATA\r\n>");
}

#[test]
fn capability_queries_are_answered_from_the_cache() {
    let ready = supported();
    let mut state = ClientState::default();
    let (_, action) = process_command("0100", b"0100", &mut state, &ready);
    assert!(matches!(
        action,
        CommandAction::Reply(reply) if reply.bytes() == b"41 00 BE 3F A8 13\r\r>"
    ));
    let (_, action) = process_command("0120", b"0120", &mut state, &ready);
    assert!(matches!(
        action,
        CommandAction::Reply(reply) if reply.bytes() == b"\r\nUNABLE TO CONNECT\r\n>"
    ));
    let (_, action) = process_command("0902", b"0902", &mut state, &ready);
    assert!(matches!(
        action,
        CommandAction::Reply(reply) if reply.bytes() == b"\r\n?\r\n>"
    ));
    let (_, action) = process_command("1", b"1", &mut ClientState::default(), &ready);
    assert!(matches!(
        action,
        CommandAction::Reply(reply) if reply.bytes() == b"\r\n?\r\n>"
    ));
    let cut = "0\u{e9}1";
    let (_, action) = process_command(cut, cut.as_bytes(), &mut state, &ready);
    assert!(matches!(
        action,
        CommandAction::Reply(reply) if reply.bytes() == b"\r\n?\r\n>"
    ));
    let (log, _) = process_command("ati", b"ati", &mut state, &ready);
    assert!(matches!(log, CommandLog::At(text) if text == "ATI"));
}
