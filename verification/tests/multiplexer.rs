//! Stream demultiplexing.

use phantom_transport::multiplexer::{Route, StreamDemultiplexer, StreamMessage};

#[test]
fn test_demux_open_and_route() {
    let mut demux = StreamDemultiplexer::new();

    let handle = demux.open_stream(16);
    let sid = handle.stream_id;

    assert!(demux.has_stream(sid));
    assert_eq!(demux.active_stream_count(), 1);

    let data = b"hello stream".to_vec();
    let routed = demux.route_data(sid, data.clone());
    assert_eq!(
        routed,
        Route::Stream {
            channel: 16,
            message: StreamMessage::Data(data)
        }
    );
}

#[test]
fn test_demux_control_channel() {
    let demux = StreamDemultiplexer::new();
    let data = b"control msg".to_vec();
    assert_eq!(demux.route_data(0, data.clone()), Route::Control(data));
    assert_eq!(demux.route_ack(0, 1), Route::Dropped);
    assert_eq!(demux.route_close(0), Route::Dropped);
}

#[test]
fn test_demux_unknown_stream() {
    let demux = StreamDemultiplexer::new();
    assert_eq!(demux.route_data(999, b"lost".to_vec()), Route::Dropped);
}

#[test]
fn test_demux_close_stream() {
    let mut demux = StreamDemultiplexer::new();

    let handle = demux.open_stream(16);
    let sid = handle.stream_id;
    assert!(demux.has_stream(sid));

    demux.close_stream(sid);
    assert!(!demux.has_stream(sid));
    assert_eq!(demux.active_stream_count(), 0);
}

#[test]
fn test_demux_multiple_streams() {
    let mut demux = StreamDemultiplexer::new();

    let h1 = demux.open_stream(16);
    let h2 = demux.open_stream(17);
    let h3 = demux.open_stream(18);

    assert_ne!(h1.stream_id, h2.stream_id);
    assert_ne!(h2.stream_id, h3.stream_id);
    assert_eq!(demux.active_stream_count(), 3);
    assert_eq!(h1.stream_id, 2);
}

#[test]
fn registered_stream_moves_the_next_id() {
    let mut demux = StreamDemultiplexer::new();
    let h = demux.register_stream(40, 5);
    assert_eq!((h.stream_id, h.channel), (40, 5));
    assert_eq!(demux.open_stream(6).stream_id, 41);
    demux.register_stream(10, 7);
    assert_eq!(demux.open_stream(8).stream_id, 42);
    assert_eq!(
        demux.route_ack(40, 9),
        Route::Stream {
            channel: 5,
            message: StreamMessage::Ack(9)
        }
    );
    assert_eq!(
        demux.route_close(10),
        Route::Stream {
            channel: 7,
            message: StreamMessage::Close
        }
    );
}
