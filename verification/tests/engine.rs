use peer_engine::dispatch::ConnectionFault;
use peer_engine::dispatch::Delivery;
use peer_engine::dispatch::Supervisor;
use peer_engine::envelope::Config;
use peer_engine::envelope::FrameError;
use peer_engine::envelope::MessageEnvelope;
use peer_engine::envelope::encode;
use peer_engine::envelope::decode;
use peer_engine::greeting::HandshakeInfo;
use peer_engine::greeting::encode_handshake_payload;
use peer_engine::handler::DomainEvent;
use peer_engine::handler::FeatureHandler;
use peer_engine::handler::HandlerError;
use peer_engine::handler::HandlerResponse;
use peer_engine::handler::OutboundRequest;
use peer_engine::handshake::ConnectionState;
use peer_engine::handshake::ProtocolViolation;

/// A test handler: fails on demand, otherwise echoes what it saw as a
/// domain event and optionally asks for one outbound message.
struct EchoHandler {
    fail: bool,
    reply: Option<(Vec<u8>, Vec<u8>)>,
}

impl EchoHandler {
    fn ok() -> EchoHandler {
        EchoHandler { fail: false, reply: None }
    }

    fn failing() -> EchoHandler {
        EchoHandler { fail: true, reply: None }
    }
}

impl FeatureHandler for EchoHandler {
    fn on_message(
        &mut self,
        command: &Vec<u8>,
        payload: &Vec<u8>,
    ) -> Result<HandlerResponse, HandlerError> {
        if self.fail {
            return Err(HandlerError { code: 13 });
        }
        let outbound = self
            .reply
            .clone()
            .map(|(command, payload)| OutboundRequest { command, payload });
        let mut data = command.clone();
        data.extend_from_slice(payload);
        Ok(HandlerResponse { outbound, event: Some(DomainEvent { data }) })
    }
}

fn test_config() -> Config {
    Config {
        magic: [0xe3, 0xe1, 0xf3, 0xe8],
        version_floor: 70015,
        max_payload_len: 1024,
    }
}

fn local_info(protocol_version: i32) -> HandshakeInfo {
    HandshakeInfo {
        protocol_version,
        services: 0,
        timestamp: 1_558_000_000,
        receiver_address: vec![0u8; 26],
        sender_address: vec![1u8; 26],
        nonce: 42,
        agent: b"/peer-engine/".to_vec(),
        chain_height: 100,
    }
}

fn env_of(cfg: &Config, command: &[u8], payload: Vec<u8>) -> MessageEnvelope {
    let frame = encode(cfg, &command.to_vec(), &payload);
    let (env, _) = decode(cfg, &frame).unwrap().unwrap();
    env
}

fn greeting_env(cfg: &Config, protocol_version: i32) -> MessageEnvelope {
    let payload = encode_handshake_payload(&local_info(protocol_version));
    env_of(cfg, b"version", payload)
}

fn ack_env(cfg: &Config) -> MessageEnvelope {
    env_of(cfg, b"verack", Vec::new())
}

#[test]
fn handshake_completes_greeting_then_ack() {
    let cfg = test_config();
    let mut sup: Supervisor<EchoHandler> = Supervisor::new(cfg);
    assert_eq!(sup.state(), ConnectionState::Connecting);
    sup.start(&local_info(70015));
    assert_eq!(sup.state(), ConnectionState::VersionSent);
    let queued = sup.take_outbound();
    assert_eq!(queued.len(), 1);
    let (greeting, _) = decode(&cfg, &queued[0]).unwrap().unwrap();
    assert_eq!(greeting.command, b"version".to_vec());

    let report = sup.on_frame_decoded(&greeting_env(&cfg, 70015));
    assert!(report.handled);
    assert!(report.fault.is_none());
    assert!(!report.became_ready);
    assert_eq!(sup.state(), ConnectionState::AwaitingVerack);
    let queued = sup.take_outbound();
    assert_eq!(queued.len(), 1);
    let (ack, _) = decode(&cfg, &queued[0]).unwrap().unwrap();
    assert_eq!(ack.command, b"verack".to_vec());
    assert!(ack.payload.is_empty());

    let report = sup.on_frame_decoded(&ack_env(&cfg));
    assert!(report.handled);
    assert!(report.fault.is_none());
    assert!(report.became_ready);
    assert_eq!(sup.state(), ConnectionState::Ready);
}

#[test]
fn ack_before_greeting_fails_the_connection() {
    let cfg = test_config();
    let mut sup: Supervisor<EchoHandler> = Supervisor::new(cfg);
    sup.start(&local_info(70015));
    let report = sup.on_frame_decoded(&ack_env(&cfg));
    assert!(matches!(
        report.fault,
        Some(ConnectionFault::Protocol(ProtocolViolation::AckBeforeGreeting))
    ));
    assert_eq!(sup.state(), ConnectionState::Failed);
    // A failed connection ignores everything that follows.
    let late = sup.on_frame_decoded(&greeting_env(&cfg, 70015));
    assert!(!late.handled);
    assert_eq!(sup.state(), ConnectionState::Failed);
}

#[test]
fn greeting_below_version_floor_fails_without_ack() {
    let cfg = test_config();
    let mut sup: Supervisor<EchoHandler> = Supervisor::new(cfg);
    sup.start(&local_info(70015));
    let report = sup.on_frame_decoded(&greeting_env(&cfg, 70014));
    assert!(matches!(
        report.fault,
        Some(ConnectionFault::Protocol(ProtocolViolation::UnsupportedProtocolVersion))
    ));
    assert_eq!(sup.state(), ConnectionState::Failed);
    // Nothing is left to flush: no acknowledgement was queued.
    assert!(sup.take_outbound().is_empty());
}

#[test]
fn duplicate_greeting_before_completion_fails() {
    let cfg = test_config();
    let mut sup: Supervisor<EchoHandler> = Supervisor::new(cfg);
    sup.start(&local_info(70015));
    sup.on_frame_decoded(&greeting_env(&cfg, 70015));
    let report = sup.on_frame_decoded(&greeting_env(&cfg, 70015));
    assert!(matches!(
        report.fault,
        Some(ConnectionFault::Protocol(ProtocolViolation::DuplicateGreeting))
    ));
    assert_eq!(sup.state(), ConnectionState::Failed);
}

#[test]
fn duplicate_greeting_after_ready_is_ignored() {
    let cfg = test_config();
    let mut sup: Supervisor<EchoHandler> = Supervisor::new(cfg);
    sup.start(&local_info(70015));
    sup.on_frame_decoded(&greeting_env(&cfg, 70015));
    sup.on_frame_decoded(&ack_env(&cfg));
    assert_eq!(sup.state(), ConnectionState::Ready);
    let report = sup.on_frame_decoded(&greeting_env(&cfg, 70015));
    assert!(report.handled);
    assert!(report.fault.is_none());
    assert_eq!(sup.state(), ConnectionState::Ready);
}

#[test]
fn truncated_greeting_payload_is_fatal() {
    let cfg = test_config();
    let mut sup: Supervisor<EchoHandler> = Supervisor::new(cfg);
    sup.start(&local_info(70015));
    let report = sup.on_frame_decoded(&env_of(&cfg, b"version", vec![1, 2, 3]));
    assert!(matches!(
        report.fault,
        Some(ConnectionFault::Frame(FrameError::TruncatedPayload))
    ));
    assert_eq!(sup.state(), ConnectionState::Failed);
}

#[test]
fn non_handshake_traffic_before_ready_is_a_violation() {
    let cfg = test_config();
    let mut sup: Supervisor<EchoHandler> = Supervisor::new(cfg);
    sup.start(&local_info(70015));
    let report = sup.on_frame_decoded(&env_of(&cfg, b"tick", Vec::new()));
    assert!(matches!(
        report.fault,
        Some(ConnectionFault::Protocol(ProtocolViolation::MessageBeforeReady))
    ));
    assert_eq!(sup.state(), ConnectionState::Failed);
}

fn ready_supervisor(cfg: &Config, handlers: Vec<EchoHandler>) -> Supervisor<EchoHandler> {
    let mut sup: Supervisor<EchoHandler> = Supervisor::new(*cfg);
    for handler in handlers {
        sup.add_handler(handler);
    }
    sup.start(&local_info(70015));
    sup.on_frame_decoded(&greeting_env(cfg, 70015));
    sup.on_frame_decoded(&ack_env(cfg));
    assert_eq!(sup.state(), ConnectionState::Ready);
    sup
}

#[test]
fn subscribers_run_in_registration_order_and_failures_are_isolated() {
    let cfg = test_config();
    let mut sup = ready_supervisor(&cfg, vec![EchoHandler::failing(), EchoHandler::ok()]);
    let tick = b"tick".to_vec();
    sup.subscribe(&tick, 0);
    sup.subscribe(&tick, 1);
    let report = sup.on_frame_decoded(&env_of(&cfg, b"tick", vec![7, 8]));
    assert!(report.fault.is_none());
    assert_eq!(
        report.deliveries,
        vec![
            Delivery { subscriber: 0, accepted: false },
            Delivery { subscriber: 1, accepted: true },
        ]
    );
    // Only the surviving handler produced an event, and it saw the payload.
    assert_eq!(report.domain_events.len(), 1);
    assert_eq!(report.domain_events[0].data, b"tick\x07\x08".to_vec());
    // The connection outlives the handler failure.
    assert_eq!(sup.state(), ConnectionState::Ready);
}

#[test]
fn registration_order_is_subscription_order_not_index_order() {
    let cfg = test_config();
    let mut sup = ready_supervisor(&cfg, vec![EchoHandler::ok(), EchoHandler::ok()]);
    let tick = b"tick".to_vec();
    sup.subscribe(&tick, 1);
    sup.subscribe(&tick, 0);
    let report = sup.on_frame_decoded(&env_of(&cfg, b"tick", Vec::new()));
    assert_eq!(
        report.deliveries,
        vec![
            Delivery { subscriber: 1, accepted: true },
            Delivery { subscriber: 0, accepted: true },
        ]
    );
}

#[test]
fn unsubscribed_message_types_are_silently_dropped() {
    let cfg = test_config();
    let mut sup = ready_supervisor(&cfg, vec![EchoHandler::ok()]);
    let tick = b"tick".to_vec();
    sup.subscribe(&tick, 0);
    let report = sup.on_frame_decoded(&env_of(&cfg, b"unknown", vec![1]));
    assert!(report.handled);
    assert!(report.fault.is_none());
    assert!(report.deliveries.is_empty());
    assert!(report.domain_events.is_empty());
    assert_eq!(sup.state(), ConnectionState::Ready);
}

#[test]
fn duplicate_subscription_is_a_noop() {
    let cfg = test_config();
    let mut sup = ready_supervisor(&cfg, vec![EchoHandler::ok()]);
    let tick = b"tick".to_vec();
    sup.subscribe(&tick, 0);
    sup.subscribe(&tick, 0);
    let report = sup.on_frame_decoded(&env_of(&cfg, b"tick", Vec::new()));
    assert_eq!(report.deliveries, vec![Delivery { subscriber: 0, accepted: true }]);
}

#[test]
fn both_ack_subscribers_see_the_same_payload_once() {
    let cfg = test_config();
    let mut sup: Supervisor<EchoHandler> = Supervisor::new(cfg);
    sup.add_handler(EchoHandler::ok());
    sup.add_handler(EchoHandler::ok());
    let ack = b"verack".to_vec();
    sup.subscribe(&ack, 0);
    sup.subscribe(&ack, 1);
    sup.start(&local_info(70015));
    let report = sup.on_frame_decoded(&greeting_env(&cfg, 70015));
    assert!(report.deliveries.is_empty());
    let report = sup.on_frame_decoded(&ack_env(&cfg));
    assert!(report.became_ready);
    assert_eq!(
        report.deliveries,
        vec![
            Delivery { subscriber: 0, accepted: true },
            Delivery { subscriber: 1, accepted: true },
        ]
    );
    assert_eq!(report.domain_events.len(), 2);
    assert_eq!(report.domain_events[0].data, b"verack".to_vec());
    assert_eq!(report.domain_events[1].data, b"verack".to_vec());
}

#[test]
fn handler_outbound_requests_are_framed_and_queued_in_order() {
    let cfg = test_config();
    let mut sup: Supervisor<EchoHandler> = Supervisor::new(cfg);
    sup.add_handler(EchoHandler {
        fail: false,
        reply: Some((b"pong".to_vec(), vec![9])),
    });
    let ack = b"verack".to_vec();
    sup.subscribe(&ack, 0);
    sup.start(&local_info(70015));
    sup.on_frame_decoded(&greeting_env(&cfg, 70015));
    sup.on_frame_decoded(&ack_env(&cfg));
    let queued = sup.take_outbound();
    let commands: Vec<Vec<u8>> = queued
        .iter()
        .map(|frame| decode(&cfg, frame).unwrap().unwrap().0.command)
        .collect();
    assert_eq!(
        commands,
        vec![b"version".to_vec(), b"verack".to_vec(), b"pong".to_vec()]
    );
}

#[test]
fn send_queues_frames_first_in_first_out() {
    let cfg = test_config();
    let mut sup: Supervisor<EchoHandler> = Supervisor::new(cfg);
    sup.send(&b"first".to_vec(), &vec![1]).unwrap();
    sup.send(&b"second".to_vec(), &vec![2]).unwrap();
    let queued = sup.take_outbound();
    assert_eq!(queued.len(), 2);
    let (env1, _) = decode(&cfg, &queued[0]).unwrap().unwrap();
    let (env2, _) = decode(&cfg, &queued[1]).unwrap().unwrap();
    assert_eq!(env1.command, b"first".to_vec());
    assert_eq!(env2.command, b"second".to_vec());
}

#[test]
fn send_rejects_bad_commands_and_oversized_payloads() {
    let cfg = Config { max_payload_len: 4, ..test_config() };
    let mut sup: Supervisor<EchoHandler> = Supervisor::new(cfg);
    assert!(matches!(
        sup.send(&Vec::new(), &Vec::new()),
        Err(FrameError::MalformedCommand)
    ));
    assert!(matches!(
        sup.send(&b"x\0y".to_vec(), &Vec::new()),
        Err(FrameError::MalformedCommand)
    ));
    assert!(matches!(
        sup.send(&b"big".to_vec(), &vec![0u8; 5]),
        Err(FrameError::OversizedMessage)
    ));
    assert!(sup.take_outbound().is_empty());
}

#[test]
fn close_discards_queue_subscriptions_and_traffic() {
    let cfg = test_config();
    let mut sup = ready_supervisor(&cfg, vec![EchoHandler::ok()]);
    let tick = b"tick".to_vec();
    sup.subscribe(&tick, 0);
    sup.send(&b"late".to_vec(), &Vec::new()).unwrap();
    sup.close();
    assert_eq!(sup.state(), ConnectionState::Closed);
    assert!(sup.take_outbound().is_empty());
    let report = sup.on_frame_decoded(&env_of(&cfg, b"tick", Vec::new()));
    assert!(!report.handled);
    assert!(report.deliveries.is_empty());
}

#[test]
fn send_on_a_dead_connection_is_discarded() {
    let cfg = test_config();
    let mut sup: Supervisor<EchoHandler> = Supervisor::new(cfg);
    sup.close();
    assert!(sup.send(&b"ping".to_vec(), &Vec::new()).is_ok());
    assert!(sup.take_outbound().is_empty());
}
