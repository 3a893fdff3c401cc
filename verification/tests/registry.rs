use rudis::ae::{LoopState, SingleThreadEventLoop};
use rudis::client::{Client, ClientManager, QueryStep};
use rudis::error::ConnectionError;
use rudis::eventloop::event_manager::{
    AcceptStep, ClientAction, EventManager, IoEvent, IoFailure, PollFailure, ACCEPTOR,
};
use rudis::eventloop::flags::{
    is_all_event, is_call_after_sleep, is_call_before_sleep, is_dont_wait, is_file_event,
    is_time_event, AE_ALL_EVENTS, AE_CALL_AFTER_SLEEP, AE_CALL_BEFORE_SLEEP, AE_DONT_WAIT,
    AE_FILE_EVENTS, AE_TIME_EVENTS,
};
use rudis::lifecycle::Constructive;
use rudis::server::{RedisServer, DEFAULT_PORT};

fn address(port: u16) -> String {
    format!("127.0.0.1:{}", port)
}

fn manager() -> EventManager {
    EventManager::new(RedisServer::default())
}

#[test]
fn create_then_get_returns_that_client() {
    let mut registry = ClientManager::default();
    registry.create_client(1, address(4000));
    let client = registry.get_client(1).unwrap();
    assert_eq!(client.client_id(), 1);
    assert_eq!(client.address(), "127.0.0.1:4000");
    assert!(registry.contains(1));
}

#[test]
fn create_under_an_occupied_id_is_rejected() {
    let mut registry = ClientManager::default();
    assert!(registry.create_client(1, address(4000)));
    assert!(!registry.create_client(1, address(4999)));
    assert_eq!(registry.get_client(1).unwrap().address(), "127.0.0.1:4000");
    registry.remove_client(1);
    assert!(registry.create_client(1, address(4999)));
    assert_eq!(registry.get_client(1).unwrap().address(), "127.0.0.1:4999");
}

#[test]
fn remove_then_get_returns_not_found() {
    let mut registry = ClientManager::default();
    registry.create_client(1, address(4000));
    registry.remove_client(1);
    assert!(registry.get_client(1).is_none());
    assert!(!registry.contains(1));
}

#[test]
fn remove_of_an_absent_id_is_a_no_op() {
    let mut registry = ClientManager::default();
    registry.remove_client(9);
    registry.create_client(2, address(4001));
    registry.remove_client(9);
    registry.remove_client(9);
    assert!(registry.contains(2));
}

#[test]
fn get_of_an_absent_id_is_not_found() {
    let registry = ClientManager::default();
    assert!(registry.get_client(0).is_none());
    assert!(registry.get_client(1).is_none());
}

#[test]
fn clients_stand_each_under_its_own_id() {
    let mut registry = ClientManager::default();
    registry.create_client(1, address(1));
    registry.create_client(2, address(2));
    registry.create_client(7, address(7));
    assert_eq!(registry.get_client(2).unwrap().address(), "127.0.0.1:2");
    registry.remove_client(2);
    assert_eq!(registry.get_client(1).unwrap().address(), "127.0.0.1:1");
    assert_eq!(registry.get_client(7).unwrap().client_id(), 7);
    assert!(registry.get_client(2).is_none());
}

#[test]
fn take_and_put_keep_the_client() {
    let mut registry = ClientManager::default();
    registry.create_client(3, address(3));
    let client = registry.take_client(3).unwrap();
    assert!(!registry.contains(3));
    assert!(registry.take_client(3).is_none());
    registry.put_client(client);
    assert_eq!(registry.get_client(3).unwrap().address(), "127.0.0.1:3");
}

#[test]
fn clear_takes_every_client_out() {
    let mut registry = ClientManager::default();
    registry.create_client(1, address(1));
    registry.create_client(2, address(2));
    registry.clear();
    assert!(!registry.contains(1));
    assert!(!registry.contains(2));
}

#[test]
fn a_client_answers_a_ping() {
    let mut client = Client::new(5, address(5));
    assert!(matches!(client.read_from_query(None), Ok(QueryStep::WantRead)));
    match client.read_from_query(Some(b"*1\r\n$4\r\nPING\r\n")) {
        Ok(QueryStep::Reply(bytes)) => assert_eq!(bytes, b"+PONG\r\n"),
        _ => panic!("expected a reply"),
    }
    assert_eq!(client.client_id(), 5);
}

#[test]
fn a_client_fails_on_a_frame_that_is_no_command() {
    let mut client = Client::new(5, address(5));
    assert!(matches!(
        client.read_from_query(Some(b"+PING\r\n")),
        Err(ConnectionError::Protocol(_))
    ));
    let mut other = Client::new(6, address(6));
    assert!(matches!(
        other.read_from_query(Some(b"*0\r\n")),
        Err(ConnectionError::Protocol(_))
    ));
}

#[test]
fn a_client_closes_cleanly_between_frames() {
    let mut client = Client::new(5, address(5));
    assert!(matches!(client.read_from_query(Some(b"")), Ok(QueryStep::Closed)));
}

#[test]
fn the_default_server_listens_on_the_default_port() {
    let server = RedisServer::default();
    assert_eq!(server.config().port, DEFAULT_PORT);
    assert_eq!(DEFAULT_PORT, 6379);
    assert!(server.client_manager().get_client(1).is_none());
    assert_eq!(RedisServer::with_port(7000).config().port, 7000);
}

#[test]
fn the_listener_token_means_accept() {
    assert_eq!(ACCEPTOR, 0);
    assert!(EventManager::is_accept_event(0));
    assert!(!EventManager::is_accept_event(1));
    assert_eq!(EventManager::classify(0, true, false, false), IoEvent::Accept);
    assert_eq!(EventManager::classify(0, false, true, true), IoEvent::Accept);
}

#[test]
fn a_client_token_is_read_before_it_is_closed() {
    assert_eq!(EventManager::classify(4, true, false, false), IoEvent::Read(4));
    assert_eq!(EventManager::classify(4, true, true, false), IoEvent::Read(4));
    assert_eq!(EventManager::classify(4, false, true, false), IoEvent::Close(4));
    assert_eq!(EventManager::classify(4, false, false, true), IoEvent::Close(4));
    assert_eq!(EventManager::classify(4, false, false, false), IoEvent::Ignore);
}

#[test]
fn an_interrupted_wait_resumes_and_any_other_failure_is_fatal() {
    assert_eq!(EventManager::poll_failed(true), PollFailure::Resume);
    assert_eq!(EventManager::poll_failed(false), PollFailure::Fatal);
}

#[test]
fn accepted_clients_get_rising_ids_above_the_listener() {
    let mut events = manager();
    assert_eq!(events.accept_new_client(address(1)), Some(1));
    assert_eq!(events.accept_new_client(address(2)), Some(2));
    events.remove_client(1);
    assert_eq!(events.accept_new_client(address(3)), Some(3));
    assert!(events.client_manager().get_client(1).is_none());
    assert_eq!(events.client_manager().get_client(3).unwrap().address(), "127.0.0.1:3");
}

#[test]
fn a_notification_for_a_removed_client_is_skipped() {
    let mut events = manager();
    assert!(matches!(events.read_for_client(1, None), ClientAction::Skip));
    let id = events.accept_new_client(address(1)).unwrap();
    events.remove_client(id);
    assert!(matches!(events.read_for_client(id, None), ClientAction::Skip));
    assert!(matches!(events.read_for_client(id, Some(b"x")), ClientAction::Skip));
    events.remove_client(id);
}

#[test]
fn ping_end_to_end_with_a_second_client_that_breaks_off() {
    let mut events = manager();
    let first = events.accept_new_client(address(5001)).unwrap();
    let second = events.accept_new_client(address(5002)).unwrap();
    assert_ne!(first, second);

    assert!(matches!(events.read_for_client(second, None), ClientAction::Read));
    assert!(matches!(
        events.read_for_client(second, Some(b"*1\r\n$4\r\nPI")),
        ClientAction::Read
    ));

    assert!(matches!(events.read_for_client(first, None), ClientAction::Read));
    match events.read_for_client(first, Some(b"*1\r\n$4\r\nPING\r\n")) {
        ClientAction::Reply(bytes) => assert_eq!(bytes, b"+PONG\r\n"),
        _ => panic!("expected a reply"),
    }

    assert!(matches!(events.read_for_client(second, Some(b"")), ClientAction::Disconnect));
    assert!(events.client_manager().get_client(second).is_none());
    assert!(events.client_manager().get_client(first).is_some());

    assert!(matches!(events.read_for_client(first, None), ClientAction::Read));
    match events.read_for_client(first, Some(b"*2\r\n$4\r\nPING\r\n$2\r\nhi\r\n")) {
        ClientAction::Reply(bytes) => assert_eq!(bytes, b"$2\r\nhi\r\n"),
        _ => panic!("expected a reply"),
    }
    assert!(matches!(events.read_for_client(second, None), ClientAction::Skip));
}

#[test]
fn a_malformed_frame_drops_that_client_only() {
    let mut events = manager();
    let good = events.accept_new_client(address(1)).unwrap();
    let bad = events.accept_new_client(address(2)).unwrap();
    assert!(matches!(events.read_for_client(bad, Some(b"?\r\n")), ClientAction::Disconnect));
    assert!(events.client_manager().get_client(bad).is_none());
    match events.read_for_client(good, Some(b"*1\r\n$3\r\nfoo\r\n")) {
        ClientAction::Reply(bytes) => assert_eq!(bytes, b"-unknown command 'foo'\r\n"),
        _ => panic!("expected a reply"),
    }
    assert!(events.client_manager().get_client(good).is_some());
}

#[test]
fn a_clean_close_removes_the_client() {
    let mut events = manager();
    let id = events.accept_new_client(address(1)).unwrap();
    assert!(matches!(events.read_for_client(id, Some(b"")), ClientAction::Disconnect));
    assert!(events.client_manager().get_client(id).is_none());
}

#[test]
fn an_unknown_command_does_not_disconnect() {
    let mut events = manager();
    let id = events.accept_new_client(address(1)).unwrap();
    match events.read_for_client(id, Some(b"*2\r\n$3\r\nGET\r\n$1\r\nk\r\n")) {
        ClientAction::Reply(bytes) => assert_eq!(bytes, b"-unknown command 'get'\r\n"),
        _ => panic!("expected a reply"),
    }
    match events.read_for_client(id, Some(b"*1\r\n$4\r\nping\r\n")) {
        ClientAction::Reply(bytes) => assert_eq!(bytes, b"+PONG\r\n"),
        _ => panic!("expected a reply"),
    }
}

#[test]
fn pipelined_commands_are_answered_one_per_step() {
    let mut events = manager();
    let id = events.accept_new_client(address(1)).unwrap();
    let two = b"*1\r\n$4\r\nPING\r\n*2\r\n$4\r\nPING\r\n$1\r\nx\r\n";
    match events.read_for_client(id, Some(two)) {
        ClientAction::Reply(bytes) => assert_eq!(bytes, b"+PONG\r\n"),
        _ => panic!("expected a reply"),
    }
    match events.read_for_client(id, None) {
        ClientAction::Reply(bytes) => assert_eq!(bytes, b"$1\r\nx\r\n"),
        _ => panic!("expected a reply"),
    }
    assert!(matches!(events.read_for_client(id, None), ClientAction::Read));
}

#[test]
fn the_loop_goes_from_initialized_to_running_to_stopped() {
    let mut event_loop = SingleThreadEventLoop::for_server(RedisServer::default());
    assert_eq!(event_loop.state(), LoopState::Initialized);
    assert!(!event_loop.is_running());
    assert!(event_loop.start());
    assert_eq!(event_loop.state(), LoopState::Running);
    assert!(event_loop.is_running());
    assert!(!event_loop.start());
    event_loop.stop();
    assert_eq!(event_loop.state(), LoopState::Stopped);
    assert!(!event_loop.start());
    assert_eq!(event_loop.state(), LoopState::Stopped);
}

#[test]
fn a_constructed_loop_is_not_started() {
    let event_loop = <SingleThreadEventLoop as Constructive>::new();
    assert_eq!(event_loop.state(), LoopState::Initialized);
    assert!(event_loop.event_manager().client_manager().get_client(1).is_none());
}

#[test]
fn clearing_the_event_manager_keeps_the_id_generator() {
    let mut events = manager();
    assert_eq!(events.accept_new_client(address(1)), Some(1));
    assert_eq!(events.accept_new_client(address(2)), Some(2));
    events.clear();
    assert!(events.client_manager().get_client(1).is_none());
    assert_eq!(events.accept_new_client(address(3)), Some(3));
}

#[test]
fn flags_are_read_bit_by_bit() {
    assert_eq!(AE_FILE_EVENTS, 1);
    assert_eq!(AE_TIME_EVENTS, 2);
    assert_eq!(AE_ALL_EVENTS, 3);
    assert_eq!(AE_DONT_WAIT, 4);
    assert_eq!(AE_CALL_BEFORE_SLEEP, 8);
    assert_eq!(AE_CALL_AFTER_SLEEP, 16);
    assert!(is_file_event(1));
    assert!(!is_file_event(2));
    assert!(is_time_event(2));
    assert!(!is_time_event(1));
    assert!(is_all_event(1));
    assert!(is_all_event(2));
    assert!(is_all_event(3));
    assert!(!is_all_event(4));
    assert!(is_dont_wait(4));
    assert!(!is_dont_wait(3));
    assert!(is_call_before_sleep(8));
    assert!(!is_call_before_sleep(16));
    assert!(is_call_after_sleep(16));
    assert!(!is_call_after_sleep(8));
    assert!(!is_file_event(0));
    assert!(is_file_event(-1));
    assert!(is_call_after_sleep(AE_FILE_EVENTS | AE_CALL_AFTER_SLEEP));
}

#[test]
fn an_interrupted_read_is_tried_again() {
    let mut events = manager();
    let id = events.accept_new_client(address(1)).unwrap();
    assert!(matches!(events.read_failed(id, IoFailure::Interrupted), ClientAction::Read));
    assert!(events.client_manager().get_client(id).is_some());
}

#[test]
fn a_socket_with_no_more_for_now_is_left_alone() {
    let mut events = manager();
    let id = events.accept_new_client(address(1)).unwrap();
    assert!(matches!(events.read_for_client(id, Some(b"*1\r\n$4\r\nPI")), ClientAction::Read));
    assert!(matches!(events.read_failed(id, IoFailure::WouldBlock), ClientAction::Wait));
    match events.read_for_client(id, Some(b"NG\r\n")) {
        ClientAction::Reply(bytes) => assert_eq!(bytes, b"+PONG\r\n"),
        _ => panic!("expected a reply"),
    }
}

#[test]
fn a_failed_read_removes_the_client() {
    let mut events = manager();
    let id = events.accept_new_client(address(1)).unwrap();
    let other = events.accept_new_client(address(2)).unwrap();
    assert!(matches!(events.read_failed(id, IoFailure::Other), ClientAction::Disconnect));
    assert!(events.client_manager().get_client(id).is_none());
    assert!(events.client_manager().get_client(other).is_some());
    assert!(matches!(events.read_failed(id, IoFailure::Other), ClientAction::Skip));
    assert!(matches!(events.read_failed(id, IoFailure::Interrupted), ClientAction::Skip));
}

#[test]
fn a_failed_socket_removes_the_client() {
    let mut events = manager();
    let id = events.accept_new_client(address(1)).unwrap();
    assert!(matches!(events.socket_failed(id), ClientAction::Disconnect));
    assert!(events.client_manager().get_client(id).is_none());
    assert!(matches!(events.socket_failed(id), ClientAction::Skip));
}

#[test]
fn the_accept_burst_ends_when_accepting_would_wait() {
    assert_eq!(EventManager::after_accept(Ok(())), AcceptStep::Again);
    assert_eq!(EventManager::after_accept(Err(IoFailure::Interrupted)), AcceptStep::Again);
    assert_eq!(EventManager::after_accept(Err(IoFailure::WouldBlock)), AcceptStep::Done);
    assert_eq!(EventManager::after_accept(Err(IoFailure::Other)), AcceptStep::Done);
}

#[test]
fn a_loop_that_does_not_run_takes_no_client() {
    let mut event_loop = SingleThreadEventLoop::for_server(RedisServer::default());
    assert_eq!(event_loop.accept_new_client(address(1)), None);
    assert!(event_loop.start());
    let id = event_loop.accept_new_client(address(1)).unwrap();
    assert_eq!(id, 1);
    match event_loop.read_for_client(id, Some(b"*1\r\n$4\r\nPING\r\n")) {
        ClientAction::Reply(bytes) => assert_eq!(bytes, b"+PONG\r\n"),
        _ => panic!("expected a reply"),
    }
    assert!(matches!(event_loop.read_failed(id, IoFailure::WouldBlock), ClientAction::Wait));
    event_loop.stop();
    assert!(event_loop.event_manager().client_manager().get_client(id).is_none());
    assert!(matches!(event_loop.read_for_client(id, None), ClientAction::Skip));
    assert!(matches!(event_loop.socket_failed(id), ClientAction::Skip));
    assert_eq!(event_loop.accept_new_client(address(2)), None);
}
