use s7_event_monitor::comms::{
    must_abort, ExitOutcome, ServerCommand, ServerConfig, ServerEffect, ServerEntry,
    ServerError, ServerManager, ServerStatus, ServerStatusInfo,
};

fn id(n: u8) -> [u8; 32] {
    [n; 32]
}

fn entry(n: u8) -> ServerEntry {
    ServerEntry {
        id: id(n),
        name: format!("server {}", n),
        ip_address: String::from("127.0.0.1"),
        port: 2000 + n as u16,
        autostart: false,
    }
}

fn manager(count: u8) -> ServerManager {
    ServerManager::new(ServerConfig { server: (0..count).map(entry).collect() })
}

fn ids(manager: &ServerManager) -> Vec<u8> {
    manager.server_status.server.iter().map(|s| s.server_id[0]).collect()
}

fn config_ids(manager: &ServerManager) -> Vec<u8> {
    manager.config.server.iter().map(|e| e.id[0]).collect()
}

fn assert_consistent(manager: &ServerManager) {
    assert!(manager.is_consistent());
    assert_eq!(manager.config.server.len(), manager.server_status.server.len());
    for (position, status) in manager.server_status.server.iter().enumerate() {
        assert_eq!(status.idx, position);
        assert_eq!(status.server_id, manager.config.server[position].id);
        assert_eq!(status.is_running, manager.handles.contains(&position));
        assert_eq!(status.is_running, manager.is_running(position));
    }
    for (k, handle) in manager.handles.iter().enumerate() {
        assert!(*handle < manager.server_status.server.len());
        assert!(!manager.handles[..k].contains(handle));
    }
}

fn stopped(status: ServerStatusInfo) -> ServerStatusInfo {
    ServerStatusInfo {
        new_data: true,
        is_running: false,
        is_connected: false,
        is_alive: false,
        ..status
    }
}

#[test]
fn new_supervisor_has_a_status_for_each_entry() {
    let manager = manager(3);
    assert_eq!(manager.server_count(), 3);
    assert!(manager.handles.is_empty());
    for i in 0..3usize {
        assert_eq!(
            manager.server_status.server[i],
            ServerStatusInfo::fresh(i, id(i as u8), false)
        );
        assert!(!manager.is_running(i));
    }
    assert_consistent(&manager);
    assert_eq!(self::manager(0).server_count(), 0);
}

#[test]
fn start_spawns_and_publishes() {
    let mut manager = manager(3);
    let before = manager.server_status.server[1];
    let effects = manager.start_server(1);
    let running = ServerStatusInfo { is_running: true, ..before };
    assert_eq!(
        effects,
        vec![ServerEffect::Spawn { index: 1, status: before }, ServerEffect::Emit(running)]
    );
    assert!(manager.is_running(1));
    assert!(!manager.is_running(0));
    assert_eq!(manager.server_status.server[1], running);
    assert_eq!(manager.handles, vec![1]);
    assert_consistent(&manager);
}

#[test]
fn start_of_a_running_server_does_nothing() {
    let mut manager = manager(2);
    manager.start_server(0);
    let status = manager.server_status.server.clone();
    assert!(manager.start_server(0).is_empty());
    assert_eq!(manager.server_status.server, status);
    assert_eq!(manager.handles, vec![0]);
}

#[test]
fn start_of_a_missing_server_does_nothing() {
    let mut manager = manager(2);
    assert!(manager.start_server(2).is_empty());
    assert!(manager.start_server(usize::MAX).is_empty());
    assert!(manager.handles.is_empty());
    assert_consistent(&manager);
}

#[test]
fn stop_of_a_server_that_is_not_running_is_an_error_without_effect() {
    let mut manager = manager(3);
    manager.start_server(2);
    let status = manager.server_status.server.clone();
    let handles = manager.handles.clone();
    assert_eq!(manager.stop_server(0), Err(ServerError::NotRunning));
    assert_eq!(manager.stop_server(3), Err(ServerError::NotRunning));
    assert_eq!(manager.stop_server(usize::MAX), Err(ServerError::NotRunning));
    assert_eq!(manager.server_status.server, status);
    assert_eq!(manager.handles, handles);
    assert_eq!(config_ids(&manager), vec![0, 1, 2]);
    assert_eq!(ServerError::NotRunning.message(), "Server not running");
}

#[test]
fn stop_marks_the_server_stopped_and_asks_for_its_shutdown() {
    let mut manager = manager(3);
    manager.start_server(1);
    manager.server_status.server[1].is_connected = true;
    manager.server_status.server[1].is_alive = true;
    manager.server_status.server[1].last_packet_time = 99;
    let before = manager.server_status.server[1];
    let effects = manager.stop_server(1).unwrap();
    assert_eq!(
        effects,
        vec![
            ServerEffect::Shutdown { index: 1, server_id: id(1), grace_secs: 5 },
            ServerEffect::Emit(stopped(before)),
        ]
    );
    let after = manager.server_status.server[1];
    assert!(!after.is_running);
    assert!(!after.is_connected);
    assert!(!after.is_alive);
    assert!(after.new_data);
    assert_eq!(after.last_packet_time, 99);
    assert!(!manager.is_running(1));
    assert_consistent(&manager);
    assert_eq!(manager.stop_server(1), Err(ServerError::NotRunning));
}

#[test]
fn a_listener_is_dropped_by_force_only_when_it_outlasts_the_grace_period() {
    assert!(must_abort(ExitOutcome::TimedOut));
    assert!(!must_abort(ExitOutcome::Graceful));
    assert!(!must_abort(ExitOutcome::JoinError));
}

#[test]
fn stop_all_stops_every_running_server_in_order() {
    let mut manager = manager(4);
    manager.start_server(2);
    manager.start_server(0);
    let two = manager.server_status.server[2];
    let zero = manager.server_status.server[0];
    let idle = manager.server_status.server[1];
    let effects = manager.stop_all_servers();
    assert_eq!(
        effects,
        vec![
            ServerEffect::Shutdown { index: 2, server_id: id(2), grace_secs: 5 },
            ServerEffect::Emit(stopped(two)),
            ServerEffect::Shutdown { index: 0, server_id: id(0), grace_secs: 5 },
            ServerEffect::Emit(stopped(zero)),
        ]
    );
    assert!(manager.handles.is_empty());
    assert_eq!(manager.server_status.server[1], idle);
    for i in 0..4 {
        assert!(!manager.server_status.server[i].is_running);
    }
    assert_consistent(&manager);
    assert!(manager.stop_all_servers().is_empty());
}

#[test]
fn added_server_goes_behind_the_others() {
    let mut manager = manager(2);
    manager.start_server(1);
    let effects = manager.add_server(entry(9));
    let added = ServerStatusInfo::fresh(2, id(9), true);
    assert_eq!(effects, vec![ServerEffect::Emit(added)]);
    assert_eq!(manager.server_count(), 3);
    assert_eq!(manager.server_status.server[2], added);
    assert_eq!(manager.config.server[2].name, "server 9");
    assert_eq!(manager.config.server[2].port, 2009);
    assert_eq!(config_ids(&manager), vec![0, 1, 9]);
    assert_eq!(manager.handles, vec![1]);
    assert_consistent(&manager);
}

#[test]
fn first_server_can_be_added_to_an_empty_list() {
    let mut manager = manager(0);
    manager.add_server(entry(5));
    assert_eq!(ids(&manager), vec![5]);
    assert_eq!(manager.server_status.server[0].idx, 0);
    assert_consistent(&manager);
}

#[test]
fn removal_reindexes_the_statuses_behind() {
    for k in 0..3usize {
        let mut manager = manager(3);
        let effects = manager.remove_server(k).unwrap();
        let expected: Vec<u8> = (0..3u8).filter(|n| *n as usize != k).collect();
        assert_eq!(ids(&manager), expected);
        assert_eq!(config_ids(&manager), expected);
        let positions: Vec<usize> = manager.server_status.server.iter().map(|s| s.idx).collect();
        assert_eq!(positions, vec![0, 1]);
        for (position, status) in manager.server_status.server.iter().enumerate() {
            assert_eq!(status.new_data, position >= k);
        }
        let moved: Vec<ServerEffect> = manager.server_status.server[k..]
            .iter()
            .map(|s| ServerEffect::Emit(*s))
            .collect();
        assert_eq!(effects, moved);
        assert_consistent(&manager);
    }
}

#[test]
fn removal_stops_a_running_server_first() {
    let mut manager = manager(3);
    manager.start_server(1);
    let running = manager.server_status.server[1];
    let effects = manager.remove_server(1).unwrap();
    assert_eq!(effects.len(), 3);
    assert_eq!(effects[0], ServerEffect::Shutdown { index: 1, server_id: id(1), grace_secs: 5 });
    assert_eq!(effects[1], ServerEffect::Emit(stopped(running)));
    assert_eq!(
        effects[2],
        ServerEffect::Emit(ServerStatusInfo { idx: 1, new_data: true, ..ServerStatusInfo::fresh(2, id(2), false) })
    );
    assert_eq!(ids(&manager), vec![0, 2]);
    assert!(manager.handles.is_empty());
    assert_consistent(&manager);
}

#[test]
fn removal_rekeys_the_live_listeners() {
    let mut manager = manager(5);
    manager.start_server(4);
    manager.start_server(0);
    manager.start_server(2);
    manager.remove_server(1).unwrap();
    assert_eq!(manager.handles, vec![3, 0, 1]);
    assert_eq!(ids(&manager), vec![0, 2, 3, 4]);
    assert!(manager.is_running(0));
    assert!(manager.is_running(1));
    assert!(!manager.is_running(2));
    assert!(manager.is_running(3));
    assert_consistent(&manager);
    manager.remove_server(3).unwrap();
    assert_eq!(manager.handles, vec![0, 1]);
    assert_eq!(ids(&manager), vec![0, 2, 3]);
    assert_consistent(&manager);
}

#[test]
fn removal_of_a_missing_server_is_an_error_without_effect() {
    let mut manager = manager(3);
    manager.start_server(0);
    let status = manager.server_status.server.clone();
    assert_eq!(manager.remove_server(3), Err(ServerError::IndexOutOfBounds));
    assert_eq!(manager.remove_server(usize::MAX), Err(ServerError::IndexOutOfBounds));
    assert_eq!(manager.server_status.server, status);
    assert_eq!(config_ids(&manager), vec![0, 1, 2]);
    assert_eq!(manager.handles, vec![0]);
    assert_eq!(ServerError::IndexOutOfBounds.message(), "Server index out of bounds");
}

#[test]
fn removal_of_the_only_server_leaves_nothing() {
    let mut manager = manager(1);
    manager.start_server(0);
    let effects = manager.remove_server(0).unwrap();
    assert_eq!(effects.len(), 2);
    assert_eq!(manager.server_count(), 0);
    assert!(manager.config.server.is_empty());
    assert!(manager.handles.is_empty());
}

#[test]
fn inconsistent_states_are_told_apart() {
    let sound = manager(3);
    assert!(sound.is_consistent());

    let mut short = manager(3);
    short.server_status.server.pop();
    assert!(!short.is_consistent());

    let mut misplaced = manager(3);
    misplaced.server_status.server[1].idx = 2;
    assert!(!misplaced.is_consistent());

    let mut renamed = manager(3);
    renamed.server_status.server[2].server_id = id(9);
    assert!(!renamed.is_consistent());

    let mut stale = manager(3);
    stale.handles.push(3);
    assert!(!stale.is_consistent());

    let mut unmarked = manager(3);
    unmarked.handles.push(1);
    assert!(!unmarked.is_consistent());

    let mut doubled = manager(3);
    doubled.start_server(1);
    assert!(doubled.is_consistent());
    doubled.handles.push(1);
    assert!(!doubled.is_consistent());

    let mut orphaned = manager(3);
    orphaned.server_status.server[0].is_running = true;
    assert!(!orphaned.is_consistent());
    orphaned.handles.push(0);
    assert!(orphaned.is_consistent());
}

#[test]
fn sync_leaves_lists_of_equal_length_alone() {
    let mut manager = manager(3);
    manager.start_server(1);
    let status = manager.server_status.server.clone();
    assert!(manager.sync_with_config().is_empty());
    assert_eq!(manager.server_status.server, status);
}

#[test]
fn sync_rebuilds_the_statuses_from_the_entries() {
    let mut manager = ServerManager {
        config: ServerConfig { server: vec![entry(4), entry(5), entry(6)] },
        handles: Vec::new(),
        server_status: ServerStatus { server: vec![ServerStatusInfo::fresh(7, id(0), false)] },
    };
    let effects = manager.sync_with_config();
    let expected: Vec<ServerStatusInfo> =
        (0..3usize).map(|i| ServerStatusInfo::fresh(i, id(4 + i as u8), true)).collect();
    assert_eq!(manager.server_status.server, expected);
    let emitted: Vec<ServerEffect> = expected.iter().map(|s| ServerEffect::Emit(*s)).collect();
    assert_eq!(effects, emitted);
    assert_consistent(&manager);
}

#[test]
fn commands_change_the_state_as_the_calls_do() {
    let mut by_command = manager(3);
    let mut by_call = manager(3);

    assert_eq!(by_command.process_command(&ServerCommand::Start(1)), by_call.start_server(1));
    assert_eq!(
        by_command.process_command(&ServerCommand::AddServer(entry(7))),
        by_call.add_server(entry(7))
    );
    assert_eq!(by_command.process_command(&ServerCommand::Start(3)), by_call.start_server(3));
    assert_eq!(
        by_command.process_command(&ServerCommand::RemoveServer(0)),
        by_call.remove_server(0).unwrap()
    );
    assert_eq!(
        by_command.process_command(&ServerCommand::Stop(0)),
        by_call.stop_server(0).unwrap()
    );
    assert_eq!(by_command.process_command(&ServerCommand::StopAll), by_call.stop_all_servers());
    assert_eq!(by_command.server_status.server, by_call.server_status.server);
    assert_eq!(by_command.handles, by_call.handles);
    assert_eq!(config_ids(&by_command), config_ids(&by_call));
    assert_consistent(&by_command);
}

#[test]
fn refused_commands_ask_for_nothing() {
    let mut manager = manager(2);
    assert!(manager.process_command(&ServerCommand::Stop(0)).is_empty());
    assert!(manager.process_command(&ServerCommand::Stop(9)).is_empty());
    assert!(manager.process_command(&ServerCommand::RemoveServer(2)).is_empty());
    assert!(manager.process_command(&ServerCommand::Start(2)).is_empty());
    assert!(manager.process_command(&ServerCommand::StopAll).is_empty());
    assert_eq!(ids(&manager), vec![0, 1]);
    assert_consistent(&manager);
}

#[test]
fn commands_are_taken_one_at_a_time_in_order() {
    let commands = vec![
        ServerCommand::Start(0),
        ServerCommand::Start(2),
        ServerCommand::AddServer(entry(8)),
        ServerCommand::RemoveServer(1),
        ServerCommand::Stop(0),
        ServerCommand::Start(2),
        ServerCommand::StopAll,
        ServerCommand::RemoveServer(0),
    ];
    let mut batch = manager(3);
    let effects = batch.process_commands(&commands);

    let mut stepwise = manager(3);
    let mut expected = Vec::new();
    for command in &commands {
        expected.extend(stepwise.process_command(command));
        assert_consistent(&stepwise);
    }
    assert_eq!(effects, expected);
    assert_eq!(batch.server_status.server, stepwise.server_status.server);
    assert_eq!(batch.handles, stepwise.handles);
    assert_eq!(ids(&batch), vec![2, 8]);
    assert_eq!(config_ids(&batch), vec![2, 8]);
    assert!(batch.handles.is_empty());
    assert_consistent(&batch);
    assert!(manager(1).process_commands(&Vec::new()).is_empty());
}

#[test]
fn identifiers_stay_with_their_servers() {
    let mut manager = manager(4);
    manager.start_server(3);
    manager.remove_server(0).unwrap();
    manager.add_server(entry(9));
    manager.remove_server(1).unwrap();
    assert_eq!(ids(&manager), vec![1, 3, 9]);
    assert_eq!(config_ids(&manager), vec![1, 3, 9]);
    assert!(manager.is_running(1));
    assert_eq!(manager.server_status.server[1].server_id, id(3));
    assert_consistent(&manager);
}
