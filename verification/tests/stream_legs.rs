//! The stream legs.

use phantom_transport::errors::CoreError;
use phantom_transport::legs::kcp::{
    KcpDelay, KcpError, KcpLeg, KcpLegConfig, KcpMode, KCP_MAX_FRAME_BYTES,
};
use phantom_transport::legs::prefixed::{prefix_message, PrefixReader, PrefixStep, RECV_CHUNK};
use phantom_transport::legs::tcp::{smooth, LegError, TcpLeg};
use phantom_transport::legs::wasi::{
    ip_socket_address_from_std, IpAddressFamily, IpSocketAddress, SocketAddress, WasiLeg,
    MAX_FRAME_BYTES,
};
use phantom_transport::legs::websocket::{Handling, OpenSignal, WebSocketLeg};

#[test]
fn test_tcp_leg_creation() {
    let leg = TcpLeg::new();
    assert!(!leg.is_available());
    assert_eq!(leg.loss_percent(), 0);
}

#[test]
fn tcp_messages_round_trip_in_pieces() {
    let mut leg = TcpLeg::connected(30);
    let mut wire = leg.send(b"one").unwrap();
    wire.extend(leg.send(b"").unwrap());
    wire.extend(leg.send(b"three").unwrap());
    let mut got = Vec::new();
    for b in wire {
        leg.feed(&[b]).unwrap();
        while let Some(m) = leg.recv().unwrap() {
            got.push(m);
        }
    }
    assert_eq!(got, vec![b"one".to_vec(), b"".to_vec(), b"three".to_vec()]);
}

#[test]
fn tcp_errors() {
    let mut leg = TcpLeg::new();
    assert_eq!(leg.send(b"x"), Err(LegError::NotConnected));
    assert_eq!(leg.recv(), Err(LegError::NotConnected));
    let mut leg = TcpLeg::from_stream();
    assert_eq!(leg.rtt_ms(), 100);
    assert_eq!(leg.feed(b""), Err(LegError::ConnectionClosed));
    leg.feed(&10_485_761u32.to_be_bytes()).unwrap();
    assert_eq!(leg.recv(), Err(LegError::MessageTooLarge));
    leg.close();
    assert_eq!(leg.recv(), Err(LegError::NotConnected));
    assert_eq!(LegError::NotConnected.to_text(), "TCP not connected");
    assert_eq!(LegError::ConnectionClosed.to_text(), "Connection closed");
    assert_eq!(LegError::MessageTooLarge.to_text(), "Message too large");
}

#[test]
fn round_trip_estimate_is_smoothed() {
    let mut leg = TcpLeg::connected(80);
    leg.update_rtt(160);
    assert_eq!(leg.rtt_ms(), 90);
    assert_eq!(smooth(u32::MAX, u32::MAX), u32::MAX);
    assert_eq!(smooth(50, 100), 56);
}

#[test]
fn reader_asks_for_chunks() {
    let mut r = PrefixReader::new(1_000_000);
    assert_eq!(r.wanted(), 4);
    r.feed(&100_000u32.to_be_bytes());
    assert_eq!(r.wanted(), RECV_CHUNK);
    r.feed(&vec![1u8; RECV_CHUNK]);
    assert_eq!(r.wanted(), 100_000 - RECV_CHUNK);
    assert!(matches!(r.next_message(), PrefixStep::NeedMore));
    r.feed(&vec![2u8; 100_000 - RECV_CHUNK]);
    assert_eq!(r.wanted(), 0);
    match r.next_message() {
        PrefixStep::Message(m) => assert_eq!(m.len(), 100_000),
        _ => panic!("a message"),
    }
    assert_eq!(prefix_message(b"ab"), vec![0, 0, 0, 2, b'a', b'b']);
}

#[test]
fn test_kcp_leg_creation() {
    let leg = KcpLeg::new();
    assert!(!leg.is_available());
    assert_eq!(leg.rtt_ms(), 50);
}

#[test]
fn test_kcp_rtt_update() {
    let mut leg = KcpLeg::new();
    leg.update_rtt(100);
    assert!(leg.rtt_ms() > 50);
    assert_eq!(leg.rtt_ms(), 56);
}

#[test]
fn test_kcp_mode_config() {
    let config = KcpLegConfig {
        mode: KcpMode::Turbo,
        ..Default::default()
    };
    let leg = KcpLeg::with_config(config);
    assert!(!leg.is_available());
    assert_eq!(leg.config().mode, KcpMode::Turbo);
    assert_eq!(leg.config().mtu, 1400);
}

#[test]
fn kcp_modes_set_the_delays() {
    let base = KcpDelay {
        nodelay: false,
        interval: 40,
        resend: 0,
        no_congestion_control: false,
    };
    assert_eq!(KcpMode::Normal.apply(base), base);
    let fast = KcpMode::Fast.apply(base);
    assert_eq!((fast.nodelay, fast.interval, fast.resend), (true, 8, 2));
    assert!(!fast.no_congestion_control);
    let turbo = KcpMode::Turbo.apply(base);
    assert_eq!((turbo.nodelay, turbo.interval, turbo.resend), (true, 4, 1));
    assert!(turbo.no_congestion_control);
    assert_eq!(KcpMode::default(), KcpMode::Normal);
}

#[test]
fn kcp_counts_bytes() {
    let mut leg = KcpLeg::connected(KcpLegConfig::default(), 10);
    let wire = leg.send(b"hello").unwrap();
    assert_eq!(leg.sent(5, 90), 9);
    assert_eq!(leg.bytes_sent(), 9);
    assert_eq!(leg.rtt_ms(), 20);
    leg.feed(&wire);
    assert_eq!(leg.wanted(), 0);
    assert_eq!(leg.recv(), Ok(Some(b"hello".to_vec())));
    assert_eq!(leg.recv(), Ok(None));
    assert_eq!(leg.bytes_received(), 9);
    leg.update_loss(250);
    assert_eq!(leg.loss_percent(), 100);
    leg.feed(&(KCP_MAX_FRAME_BYTES as u32 + 1).to_be_bytes());
    assert_eq!(leg.recv(), Err(KcpError::MessageTooLarge));
    leg.feed(&wire);
    assert_eq!(leg.recv(), Ok(Some(b"hello".to_vec())), "the refused prefix is consumed");
    leg.feed(&wire[..6]);
    assert_eq!(leg.timed_out(), KcpError::TimedOut);
    assert_eq!(leg.wanted(), 4, "what came of the message is lost");
    leg.close();
    assert_eq!(leg.send(b"x"), Err(KcpError::NotConnected));
    assert_eq!(KcpError::NotConnected.to_text(), "KCP not connected");
    assert_eq!(KcpError::TimedOut.to_text(), "KCP read timed out");
    assert!(KcpLeg::from_stream(KcpLegConfig::default()).is_available());
}

#[test]
fn ipv4_addr_conversion_round_trips() {
    let addr = SocketAddress::V4 {
        octets: [127, 0, 0, 1],
        port: 4242,
    };
    let (family, ip) = ip_socket_address_from_std(addr);
    assert!(matches!(family, IpAddressFamily::Ipv4));
    let IpSocketAddress::Ipv4(v4) = ip else {
        panic!("expected ipv4 variant");
    };
    assert_eq!(v4.port, 4242);
    assert_eq!(v4.address, (127, 0, 0, 1));
}

#[test]
fn ipv6_addr_conversion_round_trips() {
    let addr = SocketAddress::V6 {
        segments: [0, 0, 0, 0, 0, 0, 0, 1],
        port: 4242,
        flow_info: 0,
        scope_id: 0,
    };
    let (family, ip) = ip_socket_address_from_std(addr);
    assert!(matches!(family, IpAddressFamily::Ipv6));
    let IpSocketAddress::Ipv6(v6) = ip else {
        panic!("expected ipv6 variant");
    };
    assert_eq!(v6.port, 4242);
    assert_eq!(v6.address, (0, 0, 0, 0, 0, 0, 0, 1));
}

fn text_of<T>(r: Result<T, CoreError>) -> String {
    match r {
        Err(CoreError::NetworkError(m)) => m,
        _ => panic!("a network error"),
    }
}

#[test]
fn wasi_leg_frames_and_caps() {
    let mut leg = WasiLeg::connected();
    let wire = leg.send_bytes(b"abc").unwrap();
    assert_eq!(leg.wanted(), 4);
    leg.feed(&wire).unwrap();
    assert_eq!(leg.recv_bytes().unwrap(), Some(b"abc".to_vec()));
    assert!(leg.recv_bytes().unwrap().is_none());
    let big = vec![0u8; MAX_FRAME_BYTES + 1];
    assert_eq!(
        text_of(leg.send_bytes(&big)),
        "frame too large: 4194305 > 4194304"
    );
    assert_eq!(
        text_of(leg.feed(b"")),
        "peer closed the WASI TCP stream (EOF)"
    );
    leg.feed(&4_194_305u32.to_be_bytes()).unwrap();
    assert_eq!(
        text_of(leg.recv_bytes()),
        "oversized frame from peer: 4194305 > 4194304"
    );
    // The refused prefix is consumed, and a closing peer loses what came of a message.
    leg.feed(&wire).unwrap();
    assert_eq!(leg.recv_bytes().unwrap(), Some(b"abc".to_vec()));
    leg.feed(&wire[..5]).unwrap();
    assert!(leg.feed(b"").is_err());
    leg.feed(&wire).unwrap();
    assert_eq!(leg.recv_bytes().unwrap(), Some(b"abc".to_vec()));
}

#[test]
fn websocket_signals_the_first_outcome_only() {
    let mut leg = WebSocketLeg::connecting();
    assert!(matches!(leg.on_open(), OpenSignal::Opened));
    assert!(matches!(leg.on_open(), OpenSignal::Silent));
    assert!(!leg.is_closed());
    assert!(matches!(leg.on_message(Some(vec![1])), Handling::Pass(_)));
    assert!(matches!(leg.on_message(None), Handling::Drop));
    assert!(matches!(leg.on_close(1000, "bye"), OpenSignal::Silent));
    assert!(leg.is_closed());
    assert!(matches!(leg.on_message(Some(vec![1])), Handling::Drop));
    assert!(matches!(leg.to_socket(vec![1]), Handling::Stop));
    assert_eq!(text_of(leg.send_bytes(true)), "WebSocket closed");
}

#[test]
fn websocket_failures_have_texts() {
    let mut leg = WebSocketLeg::connecting();
    let signal = leg.on_error("refused");
    assert_eq!(text_of(WebSocketLeg::opened(Some(signal))), "WebSocket error: refused");
    let mut leg = WebSocketLeg::connecting();
    let signal = leg.on_close(1006, "gone");
    assert_eq!(
        text_of(WebSocketLeg::opened(Some(signal))),
        "WebSocket close: code=1006 reason=gone"
    );
    assert_eq!(text_of(WebSocketLeg::opened(None)), "WebSocket open signal lost");
    let mut leg = WebSocketLeg::connecting();
    assert!(WebSocketLeg::opened(Some(leg.on_open())).is_ok());
    assert!(leg.send_bytes(true).is_ok());
    assert_eq!(text_of(leg.send_bytes(false)), "WebSocket send queue closed");
    assert_eq!(leg.recv_bytes(Some(vec![7])).unwrap(), vec![7]);
    assert_eq!(text_of(leg.recv_bytes(None)), "WebSocket closed");
    assert!(matches!(leg.to_socket(vec![1]), Handling::Pass(_)));
    assert!(matches!(leg.on_send_failed(), Handling::Stop));
    assert!(leg.is_closed());
    assert_eq!(text_of(leg.recv_bytes(Some(vec![7]))), "WebSocket closed");
    let mut leg = WebSocketLeg::connecting();
    leg.close();
    assert!(leg.is_closed());
}
