use runner_link::protocol::codec::{
    decode_header, decode, encode, AllowedDeserialize, AllowedSerialize,
    CorruptedDataError, DecodeError, EncodeError, InsufficientBufferError, MESSAGE_BUFFER_LEN,
};
use runner_link::protocol::create_service::{CreateServiceRequest, CreateServiceResponse};
use runner_link::protocol::establish::{
    RunnerRegister, RunnersRegisterRequest, RunnersRegisterResponse,
};
use runner_link::protocol::stream_service::{Output, OutputType, ServiceEvent};
use std::io::Read;

/// Receives one frame from an in-memory stream, read by read as a caller does.
fn receive<T: AllowedDeserialize>(stream: &mut &[u8], buf: &mut [u8]) -> Result<T, DecodeError> {
    let mut header = [0u8; 8];
    let read = stream.read_exact(&mut header).map(|_| header);
    let size = decode_header(read, buf.len())?;
    let read = stream.read_exact(&mut buf[..size]).map(|_| ());
    decode(read.map(|_| &buf[..size]))
}

fn sample_request() -> CreateServiceRequest {
    CreateServiceRequest {
        service_name: "svc".to_string(),
        git_url: "https://example.org/r.git".to_string(),
        git_tag: "v1.2.3".to_string(),
        exec_command: "run".to_string(),
        exec_args: vec!["--fast".to_string(), "".to_string(), "héllo".to_string()],
    }
}

fn payload_of<T: AllowedSerialize>(value: &T) -> Vec<u8> {
    let mut buf = vec![0u8; 4096];
    let n = value.serialize(&mut buf).unwrap();
    buf[..n].to_vec()
}

#[test]
fn encode_writes_big_endian_length_then_payload() {
    let mut out = vec![0xAAu8];
    let mut buf = [0u8; 16];
    encode(&mut out, &ServiceEvent::Exit(7), &mut buf).unwrap();
    assert_eq!(out, vec![0xAA, 0, 0, 0, 0, 0, 0, 0, 8, 0, 0, 0, 0, 7, 0, 0, 0]);
    assert_eq!(&buf[..8], &[0, 0, 0, 0, 7, 0, 0, 0]);
}

#[test]
fn encode_header_of_a_longer_payload() {
    let req = CreateServiceRequest {
        service_name: "a".repeat(300),
        git_url: String::new(),
        git_tag: String::new(),
        exec_command: String::new(),
        exec_args: vec![],
    };
    let mut out = Vec::new();
    let mut buf = [0u8; MESSAGE_BUFFER_LEN];
    encode(&mut out, &req, &mut buf).unwrap();
    // 8 + 300 + 8 + 8 + 8 + 8 = 340 = 0x0154
    assert_eq!(&out[..8], &[0, 0, 0, 0, 0, 0, 1, 0x54]);
    assert_eq!(out.len(), 8 + 340);
}

#[test]
fn round_trip_request() {
    let req = sample_request();
    let mut out = Vec::new();
    let mut buf = [0u8; MESSAGE_BUFFER_LEN];
    encode(&mut out, &req, &mut buf).unwrap();
    let mut stream: &[u8] = &out;
    let back: CreateServiceRequest = receive(&mut stream, &mut buf).unwrap();
    assert_eq!(back.service_name, req.service_name);
    assert_eq!(back.git_url, req.git_url);
    assert_eq!(back.git_tag, req.git_tag);
    assert_eq!(back.exec_command, req.exec_command);
    assert_eq!(back.exec_args, req.exec_args);
    assert!(stream.is_empty());
}

#[test]
fn round_trip_responses() {
    let mut buf = [0u8; MESSAGE_BUFFER_LEN];
    let mut out = Vec::new();
    encode(&mut out, &CreateServiceResponse::Okay, &mut buf).unwrap();
    encode(&mut out, &CreateServiceResponse::No, &mut buf).unwrap();
    encode(&mut out, &RunnersRegisterResponse::No, &mut buf).unwrap();
    encode(&mut out, &RunnersRegisterResponse::Okay, &mut buf).unwrap();
    let mut stream: &[u8] = &out;
    let a: CreateServiceResponse = receive(&mut stream, &mut buf).unwrap();
    let b: CreateServiceResponse = receive(&mut stream, &mut buf).unwrap();
    let c: RunnersRegisterResponse = receive(&mut stream, &mut buf).unwrap();
    let d: RunnersRegisterResponse = receive(&mut stream, &mut buf).unwrap();
    assert!(matches!(a, CreateServiceResponse::Okay));
    assert!(matches!(b, CreateServiceResponse::No));
    assert!(matches!(c, RunnersRegisterResponse::No));
    assert!(matches!(d, RunnersRegisterResponse::Okay));
}

#[test]
fn round_trip_registration() {
    let req = RunnersRegisterRequest {
        runners: vec![
            RunnerRegister { name: "a".to_string() },
            RunnerRegister { name: "b".to_string() },
        ],
    };
    let mut out = Vec::new();
    let mut buf = [0u8; MESSAGE_BUFFER_LEN];
    encode(&mut out, &req, &mut buf).unwrap();
    let mut stream: &[u8] = &out;
    let back: RunnersRegisterRequest = receive(&mut stream, &mut buf).unwrap();
    let names: Vec<&str> = back.runners.iter().map(|r| r.name.as_str()).collect();
    assert_eq!(names, vec!["a", "b"]);
}

#[test]
fn round_trip_events() {
    let events = vec![
        ServiceEvent::Exit(0),
        ServiceEvent::Exit(u32::MAX),
        ServiceEvent::Exit(0x0102_0304),
        ServiceEvent::Output(Output { ty: OutputType::Stdout, size: 0 }),
        ServiceEvent::Output(Output { ty: OutputType::Stderr, size: u16::MAX }),
        ServiceEvent::Output(Output { ty: OutputType::Stderr, size: 0x0102 }),
    ];
    let mut buf = [0u8; MESSAGE_BUFFER_LEN];
    for event in events {
        let mut out = Vec::new();
        encode(&mut out, &event, &mut buf).unwrap();
        let mut stream: &[u8] = &out;
        let back: ServiceEvent = receive(&mut stream, &mut buf).unwrap();
        match (event, back) {
            (ServiceEvent::Exit(a), ServiceEvent::Exit(b)) => assert_eq!(a, b),
            (ServiceEvent::Output(a), ServiceEvent::Output(b)) => {
                assert_eq!(a.ty, b.ty);
                assert_eq!(a.size, b.size);
            }
            (a, b) => panic!("{a:?} came back as {b:?}"),
        }
    }
}

#[test]
fn buffer_of_exactly_the_payload_size_succeeds() {
    let req = sample_request();
    let size = payload_of(&req).len();
    let mut buf = vec![0u8; size];
    let mut out = Vec::new();
    assert!(encode(&mut out, &req, &mut buf).is_ok());
    assert_eq!(out.len(), 8 + size);
    assert_eq!(buf, payload_of(&req));
}

#[test]
fn buffer_one_byte_short_is_insufficient() {
    let req = sample_request();
    let size = payload_of(&req).len();
    let mut buf = vec![0u8; size - 1];
    let mut out = vec![1u8, 2, 3];
    let r = encode(&mut out, &req, &mut buf);
    assert!(matches!(r, Err(EncodeError::InsufficientBufferError(InsufficientBufferError))));
    assert_eq!(out, vec![1u8, 2, 3]);
    assert_eq!(buf.len(), size - 1);
}

#[test]
fn every_short_buffer_is_insufficient_for_an_event() {
    let event = ServiceEvent::Output(Output { ty: OutputType::Stderr, size: 3 });
    for capacity in 0..10 {
        let mut buf = vec![0u8; capacity];
        let mut out = Vec::new();
        let r = encode(&mut out, &event, &mut buf);
        assert!(matches!(r, Err(EncodeError::InsufficientBufferError(_))), "capacity {capacity}");
        assert!(out.is_empty());
    }
    let mut buf = vec![0u8; 10];
    let mut out = Vec::new();
    assert!(encode(&mut out, &event, &mut buf).is_ok());
}

#[test]
fn empty_buffer_holds_no_message() {
    let mut buf: [u8; 0] = [];
    let mut out = Vec::new();
    let r = encode(&mut out, &CreateServiceResponse::Okay, &mut buf);
    assert!(matches!(r, Err(EncodeError::InsufficientBufferError(_))));
}

#[test]
fn truncated_header_is_a_reader_error() {
    let mut buf = [0u8; MESSAGE_BUFFER_LEN];
    let bytes = [0u8, 0, 0, 0, 0, 0, 0];
    let mut stream: &[u8] = &bytes;
    let r: Result<ServiceEvent, DecodeError> = receive(&mut stream, &mut buf);
    match r {
        Err(DecodeError::Reader(e)) => assert_eq!(e.kind(), std::io::ErrorKind::UnexpectedEof),
        other => panic!("{other:?}"),
    }
}

#[test]
fn truncated_payload_is_a_reader_error() {
    let mut out = Vec::new();
    let mut buf = [0u8; MESSAGE_BUFFER_LEN];
    encode(&mut out, &sample_request(), &mut buf).unwrap();
    for cut in 8..out.len() {
        let mut stream: &[u8] = &out[..cut];
        let r: Result<CreateServiceRequest, DecodeError> = receive(&mut stream, &mut buf);
        match r {
            Err(DecodeError::Reader(e)) => {
                assert_eq!(e.kind(), std::io::ErrorKind::UnexpectedEof)
            }
            other => panic!("cut at {cut}: {other:?}"),
        }
    }
}

#[test]
fn reader_error_is_handed_on_unchanged() {
    let e = std::io::Error::new(std::io::ErrorKind::ConnectionReset, "gone");
    match decode_header(Err(e), 1024) {
        Err(DecodeError::Reader(e)) => {
            assert_eq!(e.kind(), std::io::ErrorKind::ConnectionReset);
            assert_eq!(e.to_string(), "gone");
        }
        other => panic!("{other:?}"),
    }
    let e = std::io::Error::new(std::io::ErrorKind::TimedOut, "late");
    let r: Result<ServiceEvent, DecodeError> = decode(Err(e));
    match r {
        Err(DecodeError::Reader(e)) => {
            assert_eq!(e.kind(), std::io::ErrorKind::TimedOut);
            assert_eq!(e.to_string(), "late");
        }
        other => panic!("{other:?}"),
    }
}

#[test]
fn header_gives_the_length_most_significant_byte_first() {
    assert_eq!(decode_header(Ok([0, 0, 0, 0, 0, 0, 0, 0]), 0).unwrap(), 0);
    assert_eq!(decode_header(Ok([0, 0, 0, 0, 0, 0, 0, 9]), 9).unwrap(), 9);
    assert_eq!(decode_header(Ok([0, 0, 0, 0, 0, 0, 4, 0]), 1024).unwrap(), 1024);
    assert_eq!(decode_header(Ok([0, 0, 0, 0, 0, 1, 2, 3]), usize::MAX).unwrap(), 0x010203);
}

#[test]
fn header_beyond_the_buffer_is_insufficient_buffer() {
    let r = decode_header(Ok([0, 0, 0, 0, 0, 0, 4, 1]), 1024);
    assert!(matches!(r, Err(DecodeError::InsufficientBufferError(InsufficientBufferError))));
    let r = decode_header(Ok([0, 0, 0, 0, 0, 0, 0, 1]), 0);
    assert!(matches!(r, Err(DecodeError::InsufficientBufferError(_))));
    let r = decode_header(Ok([1, 0, 0, 0, 0, 0, 0, 0]), 1024);
    if usize::BITS >= 64 {
        assert!(matches!(r, Err(DecodeError::InsufficientBufferError(_))));
    } else {
        assert!(matches!(r, Err(DecodeError::CorruptedData(CorruptedDataError))));
    }
}

#[test]
fn oversized_frame_is_told_from_tampered_payload() {
    let mut buf = [0u8; 8];
    // A well-formed event of ten payload bytes, for a receiver that holds eight.
    let mut out = Vec::new();
    let mut big = [0u8; 16];
    encode(
        &mut out,
        &ServiceEvent::Output(Output { ty: OutputType::Stdout, size: 5 }),
        &mut big,
    )
    .unwrap();
    let mut stream: &[u8] = &out;
    let r: Result<ServiceEvent, DecodeError> = receive(&mut stream, &mut buf);
    assert!(matches!(r, Err(DecodeError::InsufficientBufferError(_))));
    // The same length of payload as an exit event, with a variant that does not exist.
    let tampered = [0u8, 0, 0, 0, 0, 0, 0, 8, 9, 0, 0, 0, 0, 0, 0, 0];
    let mut stream: &[u8] = &tampered;
    let r: Result<ServiceEvent, DecodeError> = receive(&mut stream, &mut buf);
    assert!(matches!(r, Err(DecodeError::CorruptedData(CorruptedDataError))));
}

#[test]
fn malformed_payloads_are_corrupted_data() {
    fn event(payload: &[u8]) -> Result<ServiceEvent, DecodeError> {
        decode(Ok(payload))
    }
    assert!(matches!(event(&[]), Err(DecodeError::CorruptedData(_))));
    assert!(matches!(event(&[0, 0, 0]), Err(DecodeError::CorruptedData(_))));
    assert!(matches!(event(&[0, 0, 0, 0, 1, 2, 3]), Err(DecodeError::CorruptedData(_))));
    assert!(matches!(event(&[2, 0, 0, 0, 0, 0, 0, 0]), Err(DecodeError::CorruptedData(_))));
    assert!(matches!(event(&[1, 0, 0, 0, 2, 0, 0, 0, 0, 0]), Err(DecodeError::CorruptedData(_))));
    assert!(matches!(event(&[1, 0, 0, 0, 1, 0, 0, 0, 0]), Err(DecodeError::CorruptedData(_))));
    assert!(matches!(event(&[1, 0, 0, 1, 0, 0, 0, 0, 0, 0]), Err(DecodeError::CorruptedData(_))));
    let r: Result<CreateServiceResponse, DecodeError> = decode(Ok(&[2, 0, 0, 0]));
    assert!(matches!(r, Err(DecodeError::CorruptedData(_))));
    let r: Result<RunnersRegisterResponse, DecodeError> = decode(Ok(&[0, 1, 0, 0]));
    assert!(matches!(r, Err(DecodeError::CorruptedData(_))));
    // One name announced, none there.
    let r: Result<RunnersRegisterRequest, DecodeError> =
        decode(Ok(&[1, 0, 0, 0, 0, 0, 0, 0]));
    assert!(matches!(r, Err(DecodeError::CorruptedData(_))));
    // A name of two bytes announced, one there.
    let r: Result<RunnersRegisterRequest, DecodeError> =
        decode(Ok(&[1, 0, 0, 0, 0, 0, 0, 0, 2, 0, 0, 0, 0, 0, 0, 0, b'a']));
    assert!(matches!(r, Err(DecodeError::CorruptedData(_))));
    // A name that is not UTF-8.
    let r: Result<RunnersRegisterRequest, DecodeError> =
        decode(Ok(&[1, 0, 0, 0, 0, 0, 0, 0, 1, 0, 0, 0, 0, 0, 0, 0, 0xFF]));
    assert!(matches!(r, Err(DecodeError::CorruptedData(_))));
    // A count of names that no input can hold.
    let r: Result<RunnersRegisterRequest, DecodeError> =
        decode(Ok(&[0xFF, 0xFF, 0xFF, 0xFF, 0xFF, 0xFF, 0xFF, 0xFF]));
    assert!(matches!(r, Err(DecodeError::CorruptedData(_))));
    // A byte count that no input can hold.
    let r: Result<CreateServiceRequest, DecodeError> =
        decode(Ok(&[0xFF, 0xFF, 0xFF, 0xFF, 0xFF, 0xFF, 0xFF, 0xFF, b'a']));
    assert!(matches!(r, Err(DecodeError::CorruptedData(_))));
}

#[test]
fn bytes_after_the_value_are_ignored() {
    let r: ServiceEvent = decode(Ok(&[0, 0, 0, 0, 5, 0, 0, 0, 1, 2, 3])).unwrap();
    assert!(matches!(r, ServiceEvent::Exit(5)));
    let r: CreateServiceResponse = decode(Ok(&[1, 0, 0, 0, 9])).unwrap();
    assert!(matches!(r, CreateServiceResponse::No));
    let r: RunnersRegisterRequest =
        decode(Ok(&[0, 0, 0, 0, 0, 0, 0, 0, 7, 7])).unwrap();
    assert!(r.runners.is_empty());
}

#[test]
fn payload_layouts() {
    assert_eq!(payload_of(&ServiceEvent::Exit(0)), vec![0, 0, 0, 0, 0, 0, 0, 0]);
    assert_eq!(payload_of(&ServiceEvent::Exit(0x0102_0304)), vec![0, 0, 0, 0, 4, 3, 2, 1]);
    assert_eq!(
        payload_of(&ServiceEvent::Output(Output { ty: OutputType::Stderr, size: 0x0102 })),
        vec![1, 0, 0, 0, 1, 0, 0, 0, 2, 1]
    );
    assert_eq!(
        payload_of(&ServiceEvent::Output(Output { ty: OutputType::Stdout, size: 5 })),
        vec![1, 0, 0, 0, 0, 0, 0, 0, 5, 0]
    );
    assert_eq!(payload_of(&CreateServiceResponse::Okay), vec![0, 0, 0, 0]);
    assert_eq!(payload_of(&CreateServiceResponse::No), vec![1, 0, 0, 0]);
    assert_eq!(payload_of(&RunnersRegisterResponse::Okay), vec![0, 0, 0, 0]);
    assert_eq!(payload_of(&RunnersRegisterResponse::No), vec![1, 0, 0, 0]);
    let req = RunnersRegisterRequest {
        runners: vec![
            RunnerRegister { name: "a".to_string() },
            RunnerRegister { name: "bc".to_string() },
        ],
    };
    assert_eq!(
        payload_of(&req),
        vec![
            2, 0, 0, 0, 0, 0, 0, 0, 1, 0, 0, 0, 0, 0, 0, 0, b'a', 2, 0, 0, 0, 0, 0, 0, 0, b'b',
            b'c'
        ]
    );
    let req = CreateServiceRequest {
        service_name: "s".to_string(),
        git_url: "".to_string(),
        git_tag: "é".to_string(),
        exec_command: "c".to_string(),
        exec_args: vec!["x".to_string()],
    };
    assert_eq!(
        payload_of(&req),
        vec![
            1, 0, 0, 0, 0, 0, 0, 0, b's', 0, 0, 0, 0, 0, 0, 0, 0, 2, 0, 0, 0, 0, 0, 0, 0, 0xC3,
            0xA9, 1, 0, 0, 0, 0, 0, 0, 0, b'c', 1, 0, 0, 0, 0, 0, 0, 0, 1, 0, 0, 0, 0, 0, 0, 0,
            b'x'
        ]
    );
}

#[test]
fn payloads_are_what_bincode_writes_for_the_fields() {
    let req = sample_request();
    let fields = (
        &req.service_name,
        &req.git_url,
        &req.git_tag,
        &req.exec_command,
        &req.exec_args,
    );
    assert_eq!(payload_of(&req), bincode::serialize(&fields).unwrap());
    let names = vec!["a".to_string(), "b".to_string()];
    let reg = RunnersRegisterRequest {
        runners: names.iter().map(|n| RunnerRegister { name: n.clone() }).collect(),
    };
    assert_eq!(payload_of(&reg), bincode::serialize(&names).unwrap());
    assert_eq!(
        payload_of(&ServiceEvent::Exit(77)),
        bincode::serialize(&(0u32, 77u32)).unwrap()
    );
    assert_eq!(
        payload_of(&ServiceEvent::Output(Output { ty: OutputType::Stderr, size: 300 })),
        bincode::serialize(&(1u32, 1u32, 300u16)).unwrap()
    );
    let back: (String, String, String, String, Vec<String>) =
        bincode::deserialize(&payload_of(&req)).unwrap();
    assert_eq!(back.4, req.exec_args);
}

#[test]
fn serialize_reports_the_length_and_keeps_the_rest_of_the_buffer() {
    let mut buf = [0xEEu8; 12];
    let n = ServiceEvent::Exit(1).serialize(&mut buf).unwrap();
    assert_eq!(n, 8);
    assert_eq!(buf, [0, 0, 0, 0, 1, 0, 0, 0, 0xEE, 0xEE, 0xEE, 0xEE]);
    let mut small = [0u8; 7];
    assert!(ServiceEvent::Exit(1).serialize(&mut small).is_err());
}

#[test]
fn decode_error_becomes_invalid_data() {
    let e = DecodeError::CorruptedData(CorruptedDataError).into_io_error();
    assert_eq!(e.kind(), std::io::ErrorKind::InvalidData);
    assert_eq!(e.to_string(), "Corrupted data");
    let e = DecodeError::InsufficientBufferError(InsufficientBufferError).into_io_error();
    assert_eq!(e.kind(), std::io::ErrorKind::InvalidData);
    assert_eq!(e.to_string(), "Corrupted data");
}

#[test]
fn decode_reader_error_stays_itself() {
    let inner = std::io::Error::new(std::io::ErrorKind::BrokenPipe, "pipe");
    let e = DecodeError::Reader(inner).into_io_error();
    assert_eq!(e.kind(), std::io::ErrorKind::BrokenPipe);
    assert_eq!(e.to_string(), "pipe");
}

#[test]
fn encode_writer_error_stays_itself() {
    let inner = std::io::Error::new(std::io::ErrorKind::WriteZero, "full");
    let e = EncodeError::Writer(inner).panic_or_into_io_error();
    assert_eq!(e.kind(), std::io::ErrorKind::WriteZero);
    assert_eq!(e.to_string(), "full");
}

#[test]
fn two_frames_in_a_row_are_received_one_by_one() {
    let mut out = Vec::new();
    let mut buf = [0u8; MESSAGE_BUFFER_LEN];
    encode(&mut out, &sample_request(), &mut buf).unwrap();
    encode(&mut out, &CreateServiceResponse::No, &mut buf).unwrap();
    let mut stream: &[u8] = &out;
    let first: CreateServiceRequest = receive(&mut stream, &mut buf).unwrap();
    let second: CreateServiceResponse = receive(&mut stream, &mut buf).unwrap();
    assert_eq!(first.service_name, "svc");
    assert!(matches!(second, CreateServiceResponse::No));
    assert!(stream.is_empty());
}
