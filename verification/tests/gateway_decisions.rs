use sshx_server::gateway::{
    admission, Admission, Gateway, GatewayAction, GatewayEvent, GatewayPhase, MISSING_SESSION,
};
use sshx_server::protocol::{ServerMessage, WsClient, WsServer, WsWinsize};
use sshx_server::session::Session;

fn frame(frame: WsClient) -> GatewayEvent {
    GatewayEvent::Frame(frame)
}

#[test]
fn new_gateway_is_running() {
    let gateway = Gateway::new();
    assert_eq!(gateway.phase(), GatewayPhase::Running);
    assert!(gateway.is_running());
    assert!(!gateway.is_subscribed(1));
}

#[test]
fn unknown_session_is_refused_with_4404() {
    assert_eq!(admission(true), Admission::Serve);
    assert_eq!(MISSING_SESSION, 4404);
    assert_eq!(
        admission(false),
        Admission::Refuse {
            code: 4404,
            reason: "could not find the requested session".to_string(),
        }
    );
}

#[test]
fn handshake_sends_nothing_but_the_list() {
    let mut session = Session::new();
    let mut gateway = Gateway::new();
    let shells = session.shells();
    let actions = gateway.handle(&mut session, GatewayEvent::Shells(shells));
    assert_eq!(actions, vec![GatewayAction::Send(WsServer::Shells(Vec::new()))]);
    let actions = gateway.handle(&mut session, GatewayEvent::Disconnected);
    assert!(actions.is_empty());
    assert_eq!(gateway.phase(), GatewayPhase::Draining);
    assert!(!session.is_terminated());
    gateway.finish();
    assert_eq!(gateway.phase(), GatewayPhase::Terminal);
}

#[test]
fn shutdown_sends_terminated_and_closes() {
    let mut session = Session::new();
    let mut gateway = Gateway::new();
    session.shutdown();
    let actions = gateway.handle(&mut session, GatewayEvent::Shutdown);
    assert_eq!(
        actions,
        vec![GatewayAction::Send(WsServer::Terminated()), GatewayAction::Close]
    );
    assert_eq!(gateway.phase(), GatewayPhase::Draining);
    assert!(!gateway.is_running());
}

#[test]
fn draining_gateway_does_nothing() {
    let mut session = Session::new();
    let mut gateway = Gateway::new();
    gateway.handle(&mut session, GatewayEvent::Shutdown);
    assert!(gateway.handle(&mut session, GatewayEvent::Shutdown).is_empty());
    assert!(gateway.handle(&mut session, frame(WsClient::Create())).is_empty());
    assert!(gateway
        .handle(&mut session, frame(WsClient::Subscribe(1, 0)))
        .is_empty());
    assert!(!gateway.is_subscribed(1));
    assert_eq!(session.next_id(), 1);
    assert_eq!(gateway.phase(), GatewayPhase::Draining);
}

#[test]
fn finish_leaves_a_running_gateway_alone() {
    let mut gateway = Gateway::new();
    gateway.finish();
    assert_eq!(gateway.phase(), GatewayPhase::Running);
}

#[test]
fn chunks_are_forwarded() {
    let mut session = Session::new();
    let mut gateway = Gateway::new();
    let chunks = vec![(3, "ls\r\n".to_string())];
    let actions = gateway.handle(&mut session, GatewayEvent::Chunks(2, chunks.clone()));
    assert_eq!(actions, vec![GatewayAction::Send(WsServer::Chunks(2, chunks))]);
}

#[test]
fn create_takes_a_new_id_and_asks_the_agent() {
    let mut session = Session::new();
    let mut gateway = Gateway::new();
    let actions = gateway.handle(&mut session, frame(WsClient::Create()));
    assert_eq!(actions, vec![GatewayAction::Enqueue(ServerMessage::CreateShell(1))]);
    let actions = gateway.handle(&mut session, frame(WsClient::Create()));
    assert_eq!(actions, vec![GatewayAction::Enqueue(ServerMessage::CreateShell(2))]);
    assert!(session.shells().is_empty());
    assert_eq!(session.next_id(), 3);
}

#[test]
fn close_asks_the_agent_and_leaves_the_session_alone() {
    let mut session = Session::new();
    session.add_shell(1).unwrap();
    let mut gateway = Gateway::new();
    let actions = gateway.handle(&mut session, frame(WsClient::Close(1)));
    assert_eq!(actions, vec![GatewayAction::Enqueue(ServerMessage::CloseShell(1))]);
    assert_eq!(session.shells().len(), 1);
}

#[test]
fn data_is_passed_to_the_agent() {
    let mut session = Session::new();
    session.add_shell(1).unwrap();
    let mut gateway = Gateway::new();
    let actions = gateway.handle(&mut session, frame(WsClient::Data(1, b"ls\r\n".to_vec())));
    assert_eq!(
        actions,
        vec![GatewayAction::Enqueue(ServerMessage::Input { id: 1, data: b"ls\r\n".to_vec() })]
    );
    assert_eq!(session.peek_shell(1, 0).unwrap().seqnum, 0);
}

#[test]
fn move_with_a_size_resizes_the_terminal() {
    let mut session = Session::new();
    session.add_shell(1).unwrap();
    session.add_shell(2).unwrap();
    let mut gateway = Gateway::new();
    let size = WsWinsize { x: 10, y: 20, rows: 30, cols: 120 };
    let actions = gateway.handle(&mut session, frame(WsClient::Move(1, Some(size))));
    assert_eq!(
        actions,
        vec![GatewayAction::Enqueue(ServerMessage::Resize { id: 1, rows: 30, cols: 120 })]
    );
    assert_eq!(session.shells(), vec![(2, WsWinsize::default()), (1, size)]);
}

#[test]
fn move_without_a_size_only_brings_to_front() {
    let mut session = Session::new();
    session.add_shell(1).unwrap();
    session.add_shell(2).unwrap();
    let mut gateway = Gateway::new();
    let actions = gateway.handle(&mut session, frame(WsClient::Move(1, None)));
    assert!(actions.is_empty());
    let ids: Vec<u32> = session.shells().iter().map(|entry| entry.0).collect();
    assert_eq!(ids, vec![2, 1]);
}

#[test]
fn failed_move_is_reported_to_the_client() {
    let mut session = Session::new();
    session.add_shell(1).unwrap();
    session.close_shell(1).unwrap();
    let mut gateway = Gateway::new();
    let actions = gateway.handle(&mut session, frame(WsClient::Move(7, None)));
    assert_eq!(
        actions,
        vec![GatewayAction::Send(WsServer::Error(
            "cannot update shell with id=7, does not exist".to_string()
        ))]
    );
    let size = WsWinsize { x: 0, y: 0, rows: 5, cols: 5 };
    let actions = gateway.handle(&mut session, frame(WsClient::Move(1, Some(size))));
    assert_eq!(
        actions,
        vec![GatewayAction::Send(WsServer::Error(
            "cannot update shell with id=1, already closed".to_string()
        ))]
    );
    assert!(gateway.is_running());
}

#[test]
fn second_subscribe_is_ignored() {
    let mut session = Session::new();
    session.add_shell(1).unwrap();
    let mut gateway = Gateway::new();
    let actions = gateway.handle(&mut session, frame(WsClient::Subscribe(1, 0)));
    assert_eq!(actions, vec![GatewayAction::Subscribe { id: 1, start: 0 }]);
    assert!(gateway.is_subscribed(1));
    let actions = gateway.handle(&mut session, frame(WsClient::Subscribe(1, 0)));
    assert!(actions.is_empty());
    let actions = gateway.handle(&mut session, frame(WsClient::Subscribe(1, 5)));
    assert!(actions.is_empty());
    let actions = gateway.handle(&mut session, frame(WsClient::Subscribe(2, 5)));
    assert_eq!(actions, vec![GatewayAction::Subscribe { id: 2, start: 5 }]);
}

#[test]
fn frames_refresh_the_last_access() {
    let mut session = Session::new();
    let mut gateway = Gateway::new();
    let at = tokio::time::Instant::now() + std::time::Duration::from_secs(60);
    gateway.handle_at(&mut session, frame(WsClient::Close(1)), at);
    assert_eq!(session.updated(), at);

    let later = at + std::time::Duration::from_secs(60);
    gateway.handle_at(&mut session, GatewayEvent::Shells(Vec::new()), later);
    gateway.handle_at(&mut session, GatewayEvent::Chunks(1, Vec::new()), later);
    assert_eq!(session.updated(), at);

    gateway.handle_at(&mut session, GatewayEvent::Disconnected, later);
    gateway.handle_at(&mut session, frame(WsClient::Create()), later);
    assert_eq!(session.updated(), at);
}
