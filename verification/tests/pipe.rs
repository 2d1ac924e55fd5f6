use makepad_platform::studio_pipe::{
    connect_with_retry, decode_frames, encode_frame, frame_header, init_studio_pipe_from_env,
    recv_timeout, send_binary, studio_pipe_endpoint, studio_pipe_mode, ConnectError, ConnectStep,
    FrameHeader, Inbox, PipePlatform, PipeRecv, StreamEnd, StudioPipe,
};

#[test]
fn a_frame_has_its_length_in_front() {
    assert_eq!(encode_frame(&vec![7, 8, 9]), vec![3, 0, 0, 0, 7, 8, 9]);
    assert_eq!(encode_frame(&vec![]), vec![0, 0, 0, 0]);
    assert_eq!(frame_header(0, 0, 0, 0), FrameHeader::KeepAlive);
    assert_eq!(frame_header(2, 1, 0, 0), FrameHeader::Payload(258));
    assert_eq!(frame_header(0, 0, 0, 4), FrameHeader::Payload(64 * 1024 * 1024));
    assert_eq!(frame_header(1, 0, 0, 4), FrameHeader::TooLarge(64 * 1024 * 1024 + 1));
    assert_eq!(frame_header(255, 255, 255, 255), FrameHeader::TooLarge(u32::MAX));
}

#[test]
fn what_is_written_is_read() {
    let payloads: Vec<Vec<u8>> = vec![vec![1], vec![2; 300], vec![0, 0, 0, 0]];
    let mut stream = Vec::new();
    for p in &payloads {
        stream.extend(encode_frame(p));
        stream.extend(encode_frame(&vec![]));
    }
    let frames = decode_frames(&stream);
    assert_eq!(frames.payloads, payloads);
    assert_eq!(frames.end, StreamEnd::Closed);
    stream.extend([5, 0, 0, 0, 1, 2]);
    assert_eq!(decode_frames(&stream).payloads, payloads);
    assert_eq!(decode_frames(&stream).end, StreamEnd::Closed);
    let mut bad = encode_frame(&vec![9]);
    bad.extend([0, 0, 0, 5, 1, 2, 3]);
    let frames = decode_frames(&bad);
    assert_eq!(frames.payloads, vec![vec![9]]);
    assert_eq!(frames.end, StreamEnd::TooLarge(5 * 16777216));
}

#[test]
fn an_endpoint_is_named_by_its_setting() {
    assert_eq!(studio_pipe_endpoint(None), None);
    assert_eq!(studio_pipe_endpoint(Some("  \t")), None);
    assert_eq!(studio_pipe_endpoint(Some(" /tmp/x y ")), Some("/tmp/x y".to_string()));
}

#[test]
fn a_pipe_that_is_not_connected_is_not_used() {
    let mut pipe = StudioPipe::default();
    assert!(!init_studio_pipe_from_env(&mut pipe, false));
    assert!(!studio_pipe_mode(&pipe));
    assert_eq!(send_binary(&pipe, &vec![1]), None);
    assert!(matches!(recv_timeout(&pipe, &mut Inbox::new()), PipeRecv::Closed));
    assert!(init_studio_pipe_from_env(&mut pipe, true));
    assert!(studio_pipe_mode(&pipe));
    assert_eq!(send_binary(&pipe, &vec![1]), Some(vec![1, 0, 0, 0, 1]));
    pipe.write_failed();
    assert_eq!(send_binary(&pipe, &vec![1]), None);
    assert!(studio_pipe_mode(&pipe) && !pipe.connected);
}

#[test]
fn receiving_tells_what_came() {
    let mut pipe = StudioPipe::default();
    init_studio_pipe_from_env(&mut pipe, true);
    let mut inbox = Inbox::new();
    assert!(!inbox.is_settled());
    assert!(matches!(recv_timeout(&pipe, &mut inbox), PipeRecv::Timeout));
    inbox.arrive(vec![4, 5]);
    inbox.arrive(vec![6]);
    assert!(inbox.is_settled());
    inbox.close();
    for want in [vec![4, 5], vec![6]] {
        match recv_timeout(&pipe, &mut inbox) {
            PipeRecv::Msg(m) => assert_eq!(m, want),
            _ => panic!("no message"),
        }
    }
    assert!(inbox.is_settled());
    assert!(matches!(recv_timeout(&pipe, &mut inbox), PipeRecv::Closed));
    inbox.arrive(vec![7]);
    assert!(matches!(recv_timeout(&pipe, &mut inbox), PipeRecv::Closed));
}

#[test]
fn connecting_is_tried_for_ten_seconds() {
    let try_unix = |e, ms| connect_with_retry(PipePlatform::Unix, e, ms);
    assert_eq!(try_unix(ConnectError::NotFound, 0), ConnectStep::Retry);
    assert_eq!(try_unix(ConnectError::ConnectionRefused, 9_999), ConnectStep::Retry);
    assert_eq!(try_unix(ConnectError::Interrupted, 10_000), ConnectStep::GiveUp);
    assert_eq!(try_unix(ConnectError::PermissionDenied, 0), ConnectStep::GiveUp);
    let try_windows = |e| connect_with_retry(PipePlatform::Windows, e, 0);
    assert_eq!(try_windows(ConnectError::NotFound), ConnectStep::Retry);
    assert_eq!(try_windows(ConnectError::PermissionDenied), ConnectStep::Retry);
    assert_eq!(try_windows(ConnectError::ConnectionRefused), ConnectStep::GiveUp);
    assert_eq!(
        connect_with_retry(PipePlatform::Neither, ConnectError::NotFound, 0),
        ConnectStep::GiveUp
    );
    assert_eq!(try_unix(ConnectError::Unsupported, 0), ConnectStep::GiveUp);
    assert_eq!(try_unix(ConnectError::Other, 0), ConnectStep::GiveUp);
}
