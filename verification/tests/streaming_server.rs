use synthia::streaming::{
    build_display_list, check_capture_platform, choose_display, client_step, displays_or_error,
    encode_frame, handshake_decision, is_allowed_origin, ClientAction, ClientEvent, DisplayTarget,
    HandshakeDecision, StreamError, StreamingState,
};
use synthia::AppError;

fn read_u16_le(bytes: &[u8], at: usize) -> u32 {
    bytes[at] as u32 + 256 * bytes[at + 1] as u32
}

#[test]
fn test_stream_lifecycle() {
    let mut state = StreamingState::default();
    assert!(state.prepare_start(9100, 75, 10).is_ok());
    let status = state.install(9100, 10, 75, None);
    assert!(status.active);
    assert_eq!(status.port, 9100);
    assert_eq!(status.fps, 10);
    assert_eq!(status.quality, 75);
    assert_eq!(status.clients, 0);
    assert_eq!(status.display_id, None);

    let read = state.status(3);
    assert!(read.active);
    assert_eq!(read.port, 9100);
    assert_eq!(read.fps, 10);
    assert_eq!(read.quality, 75);
    assert_eq!(read.clients, 3);

    assert!(state.stop().is_ok());
    let after = state.status(0);
    assert!(!after.active);
    assert_eq!(after.port, 0);
    assert_eq!(after.fps, 0);
    assert_eq!(after.quality, 0);
    assert_eq!(after.clients, 0);
    assert_eq!(after.display_id, None);
}

#[test]
fn test_second_start_fails() {
    let mut state = StreamingState::default();
    state.install(9101, 5, 50, Some(7));

    let err = state.prepare_start(9102, 80, 15).unwrap_err();
    assert!(matches!(err, StreamError::AlreadyRunning));
    assert_eq!(err.message(), "Stream already running. Stop it first.");

    let status = state.status(0);
    assert!(status.active);
    assert_eq!(status.port, 9101);
    assert_eq!(status.fps, 5);
    assert_eq!(status.quality, 50);
    assert_eq!(status.display_id, Some(7));
}

#[test]
fn test_stop_without_stream() {
    let mut state = StreamingState::default();
    let err = state.stop().unwrap_err();
    assert!(matches!(err, StreamError::NoStream));
    assert_eq!(err.message(), "No stream is running");
}

#[test]
fn test_validation_boundaries() {
    let state = StreamingState::default();

    for quality in [1, 100] {
        assert!(state.prepare_start(9100, quality, 10).is_ok());
    }
    for quality in [0, 101] {
        let err = state.prepare_start(9100, quality, 10).unwrap_err();
        assert!(matches!(err, StreamError::InvalidQuality(q) if q == quality));
    }
    assert_eq!(
        state.prepare_start(9100, 0, 10).unwrap_err().message(),
        "Quality must be 1-100, got: 0"
    );
    assert_eq!(
        state.prepare_start(9100, 101, 10).unwrap_err().message(),
        "Quality must be 1-100, got: 101"
    );

    for fps in [1, 30] {
        assert!(state.prepare_start(9100, 75, fps).is_ok());
    }
    for fps in [0, 31] {
        let err = state.prepare_start(9100, 75, fps).unwrap_err();
        assert!(matches!(err, StreamError::InvalidFps(f) if f == fps));
    }
    assert_eq!(
        state.prepare_start(9100, 75, 31).unwrap_err().message(),
        "FPS must be 1-30, got: 31"
    );

    for port in [9100, 9199] {
        assert!(state.prepare_start(port, 75, 10).is_ok());
    }
    for port in [9099, 9200] {
        let err = state.prepare_start(port, 75, 10).unwrap_err();
        assert!(matches!(err, StreamError::InvalidPort(p) if p == port));
    }
    assert_eq!(
        state.prepare_start(9099, 75, 10).unwrap_err().message(),
        "Streaming port must be 9100-9199, got: 9099"
    );

    // quality is validated before fps, fps before port
    assert!(matches!(
        state.prepare_start(9000, 0, 0).unwrap_err(),
        StreamError::InvalidQuality(0)
    ));
    assert!(matches!(
        state.prepare_start(9000, 50, 0).unwrap_err(),
        StreamError::InvalidFps(0)
    ));
}

#[test]
fn test_platform_gate() {
    assert!(check_capture_platform(true, true).is_ok());
    let err = check_capture_platform(false, true).unwrap_err();
    assert_eq!(err.message(), "Screen capture not supported on this platform");
    let err = check_capture_platform(true, false).unwrap_err();
    assert_eq!(
        err.message(),
        "Screen capture permission not granted. Please allow in System Settings and restart."
    );
}

#[test]
fn test_frame_encode_small() {
    let data: Vec<u8> = vec![
        1, 2, 3, 4, // pixel (0,0) BGRA
        5, 6, 7, 8, // pixel (0,1)
        9, 10, 11, 12, // pixel (1,0)
        13, 14, 15, 16, // pixel (1,1)
    ];
    let frame = encode_frame(2, 2, &data).unwrap();
    assert_eq!(
        frame,
        vec![
            2, 0, 2, 0, // width=2, height=2, little endian
            3, 2, 1, 4, // RGBA of (0,0)
            7, 6, 5, 8, // RGBA of (0,1)
            11, 10, 9, 12, // RGBA of (1,0)
            15, 14, 13, 16, // RGBA of (1,1)
        ]
    );
    let w = read_u16_le(&frame, 0);
    let h = read_u16_le(&frame, 2);
    assert_eq!(frame.len() as u32, 4 + w * h * 4);
}

#[test]
fn test_frame_encode_downscales_wide_frames() {
    let width = 1920usize;
    let height = 2usize;
    let mut data = vec![0u8; width * height * 4];
    for (i, b) in data.iter_mut().enumerate() {
        *b = (i % 251) as u8;
    }
    let frame = encode_frame(width as u32, height as u32, &data).unwrap();

    let w = read_u16_le(&frame, 0);
    let h = read_u16_le(&frame, 2);
    assert_eq!(w, 960);
    assert_eq!(h, 1);
    assert!(w <= 960);
    assert_eq!(frame.len() as u32, 4 + w * h * 4);

    // pixel (0,0) samples source pixel (0,0); pixel (0,1) samples (0,2)
    assert_eq!(frame[4], data[2]);
    assert_eq!(frame[5], data[1]);
    assert_eq!(frame[6], data[0]);
    assert_eq!(frame[7], data[3]);
    assert_eq!(frame[8], data[10]);
    assert_eq!(frame[9], data[9]);
    assert_eq!(frame[10], data[8]);
    assert_eq!(frame[11], data[11]);
}

#[test]
fn test_frame_encode_rejects_bad_frames() {
    assert!(encode_frame(0, 10, &vec![0u8; 400]).is_none());
    assert!(encode_frame(10, 0, &vec![0u8; 400]).is_none());
    assert!(encode_frame(10, 10, &vec![0u8; 399]).is_none());
    assert!(encode_frame(10, 10, &vec![0u8; 400]).is_some());
}

#[test]
fn test_origin_allowlist() {
    assert!(is_allowed_origin("tauri://localhost"));
    assert!(is_allowed_origin("https://tauri.localhost"));
    assert!(is_allowed_origin("http://localhost:1420"));
    assert!(!is_allowed_origin("http://evil.example"));
    assert!(!is_allowed_origin("tauri://localhost/extra"));
    assert!(!is_allowed_origin(""));
}

#[test]
fn test_origin_rejection_decision() {
    assert_eq!(handshake_decision("http://attacker.test"), HandshakeDecision::Forbidden);
    assert_eq!(handshake_decision(""), HandshakeDecision::Forbidden);
    assert_eq!(handshake_decision("tauri://localhost"), HandshakeDecision::Accept);
}

#[test]
fn test_client_step_decisions() {
    assert!(matches!(client_step(ClientEvent::FrameChanged(Vec::new())), ClientAction::Idle));
    match client_step(ClientEvent::FrameChanged(vec![1, 2, 3])) {
        ClientAction::SendFrame(f) => assert_eq!(f, vec![1, 2, 3]),
        _ => panic!("a fresh frame must be sent"),
    }
    assert!(matches!(client_step(ClientEvent::FrameChannelClosed), ClientAction::Disconnect));
    assert!(matches!(client_step(ClientEvent::MessageReceived), ClientAction::Idle));
    assert!(matches!(client_step(ClientEvent::MessageStreamEnded), ClientAction::Disconnect));
    assert!(matches!(client_step(ClientEvent::ShutdownChanged(true)), ClientAction::Disconnect));
    assert!(matches!(client_step(ClientEvent::ShutdownChanged(false)), ClientAction::Idle));
}

#[test]
fn test_display_list() {
    let targets = vec![
        DisplayTarget { id: 1, title: String::from("Built-in") },
        DisplayTarget { id: 2, title: String::from("External") },
    ];
    let displays = build_display_list(&targets, 2);
    assert_eq!(displays.len(), 2);
    assert_eq!(displays[0].id, 1);
    assert_eq!(displays[0].title, "Built-in");
    assert!(!displays[0].is_primary);
    assert_eq!(displays[1].id, 2);
    assert!(displays[1].is_primary);

    let err = displays_or_error(false, &targets, 2).unwrap_err();
    assert!(matches!(err, StreamError::NotSupported));
    assert!(displays_or_error(true, &targets, 2).is_ok());
}

#[test]
fn test_choose_display() {
    let ids = vec![1, 2, 5];
    assert_eq!(choose_display(None, &ids, 2), Some(2));
    assert_eq!(choose_display(Some(5), &ids, 2), Some(5));
    assert_eq!(choose_display(Some(9), &ids, 2), None);
}

#[test]
fn test_app_error_messages() {
    assert_eq!(
        AppError::Validation(String::from("bad input")).message(),
        "Validation error: bad input"
    );
    assert_eq!(AppError::Internal(String::from("oops")).message(), "Internal error: oops");
}
