use sim7000::tcp::{
    close_request_text, send_request_text, Arrival, ReadExact, TcpError, TcpMessage, TcpStream,
};

fn chunk(bytes: &[u8]) -> heapless::Vec<u8, 365> {
    heapless::Vec::from_slice(bytes).unwrap()
}

fn open_stream_holding(ordinal: usize, bytes: &[u8]) -> TcpStream {
    TcpStream { ordinal, closed: false, buffer: chunk(bytes) }
}

#[test]
fn new_stream_is_open_and_empty() {
    let stream = TcpStream::new(5);
    assert_eq!(stream.ordinal, 5);
    assert!(!stream.closed);
    assert!(stream.buffer.is_empty());
}

#[test]
fn ping_pong_then_closed() {
    let mut stream = TcpStream::new(2);
    let request = stream.send_tcp(4).unwrap();
    assert_eq!(request.as_str(), "AT+CIPSEND=2,4\r");
    assert_eq!(TcpStream::send_response(b"> "), Some(Ok(())));
    assert_eq!(stream.send_event(TcpMessage::SendSuccess), Ok(()));
    assert!(!stream.closed);

    let mut buf = [0u8; 8];
    assert_eq!(stream.read(&mut buf, None), None);
    assert_eq!(stream.read(&mut buf, Some(Arrival::Chunk(chunk(b"PONG")))), Some(4));
    assert_eq!(&buf, b"PONG\0\0\0\0");
    assert!(stream.buffer.is_empty());

    assert_eq!(stream.read(&mut buf, None), None);
    assert_eq!(stream.read(&mut buf, Some(Arrival::Event(TcpMessage::Closed))), Some(0));
    assert!(stream.closed);
    assert_eq!(&buf, b"PONG\0\0\0\0");
}

#[test]
fn send_request_names_ordinal_and_length() {
    assert_eq!(send_request_text(0, 0).as_str(), "AT+CIPSEND=0,0\r");
    assert_eq!(send_request_text(7, 365).as_str(), "AT+CIPSEND=7,365\r");
    assert_eq!(send_request_text(10, 1000).as_str(), "AT+CIPSEND=10,1000\r");
    assert_eq!(send_request_text(123, 45678).as_str(), "AT+CIPSEND=123,45678\r");
    assert_eq!(send_request_text(9, 10).as_str(), "AT+CIPSEND=9,10\r");
    assert_eq!(send_request_text(99, 100).as_str(), "AT+CIPSEND=99,100\r");
}

#[test]
fn send_request_holds_the_largest_numbers() {
    let text = send_request_text(usize::MAX, usize::MAX);
    assert_eq!(text.as_str(), format!("AT+CIPSEND={},{}\r", usize::MAX, usize::MAX));
    let text = send_request_text(1, 12345678901234567890);
    assert_eq!(text.as_str(), "AT+CIPSEND=1,12345678901234567890\r");
}

#[test]
fn close_request_names_ordinal() {
    assert_eq!(close_request_text(0).as_str(), "AT+CIPCLOSE=0\r");
    assert_eq!(close_request_text(42).as_str(), "AT+CIPCLOSE=42\r");
    assert_eq!(close_request_text(usize::MAX).as_str(), format!("AT+CIPCLOSE={}\r", usize::MAX));
}

#[test]
fn write_all_asks_for_the_number_of_bytes() {
    let stream = TcpStream::new(3);
    assert_eq!(stream.write_all(b"hello world").unwrap().as_str(), "AT+CIPSEND=3,11\r");
    assert_eq!(stream.flush(), Ok(()));
}

#[test]
fn prompt_and_error_lines_decide_other_lines_do_not() {
    assert_eq!(TcpStream::send_response(b"> "), Some(Ok(())));
    assert_eq!(TcpStream::send_response(b"ERROR"), Some(Err(TcpError::SendFail)));
    assert_eq!(TcpStream::send_response(b"OK"), None);
    assert_eq!(TcpStream::send_response(b""), None);
    assert_eq!(TcpStream::send_response(b">"), None);
    assert_eq!(TcpStream::send_response(b"> \r"), None);
    assert_eq!(TcpStream::send_response(b">  "), None);
    assert_eq!(TcpStream::send_response(b"ERROR "), None);
    assert_eq!(TcpStream::send_response(b"error"), None);
    assert_eq!(TcpStream::send_response(b"+CSQ: 20,0"), None);
}

#[test]
fn send_events_end_the_send() {
    let mut stream = TcpStream::new(1);
    assert_eq!(stream.send_event(TcpMessage::SendSuccess), Ok(()));
    assert!(!stream.closed);
    assert_eq!(stream.send_event(TcpMessage::SendFail), Err(TcpError::SendFail));
    assert!(!stream.closed);
    assert_eq!(stream.send_event(TcpMessage::Closed), Err(TcpError::Closed));
    assert!(stream.closed);
}

#[test]
fn send_may_be_tried_again_after_a_failure() {
    let mut stream = TcpStream::new(1);
    assert!(stream.send_tcp(3).is_ok());
    assert_eq!(TcpStream::send_response(b"ERROR"), Some(Err(TcpError::SendFail)));
    assert_eq!(stream.send_tcp(3).unwrap().as_str(), "AT+CIPSEND=1,3\r");
}

#[test]
fn closed_stream_sends_and_reads_nothing() {
    let mut stream = TcpStream { ordinal: 4, closed: true, buffer: chunk(b"left over") };
    assert_eq!(stream.send_tcp(10).unwrap_err(), TcpError::Closed);
    assert_eq!(stream.write_all(b"abc").unwrap_err(), TcpError::Closed);
    let mut buf = [7u8; 4];
    assert_eq!(stream.read(&mut buf, None), Some(0));
    assert_eq!(stream.read(&mut buf, None), Some(0));
    assert_eq!(buf, [7u8; 4]);
    assert_eq!(stream.buffer.as_slice(), b"left over");
    assert!(stream.closed);
    assert!(matches!(stream.read_exact(&mut buf, 0, None), ReadExact::Done(Err(TcpError::Closed))));
    assert_eq!(buf, [7u8; 4]);
}

#[test]
fn close_on_closed_stream_asks_for_nothing() {
    let stream = TcpStream { ordinal: 0, closed: true, buffer: heapless::Vec::new() };
    assert!(stream.close().is_none());
    assert!(stream.close().is_none());
}

#[test]
fn close_waits_for_the_closed_event() {
    let mut stream = TcpStream::new(6);
    assert_eq!(stream.close().unwrap().as_str(), "AT+CIPCLOSE=6\r");
    assert!(!stream.close_event(TcpMessage::SendSuccess));
    assert!(!stream.close_event(TcpMessage::Connected));
    assert!(!stream.close_event(TcpMessage::ConnectionFailed));
    assert!(!stream.close_event(TcpMessage::SendFail));
    assert!(!stream.closed);
    assert!(stream.close_event(TcpMessage::Closed));
    assert!(stream.closed);
    assert!(stream.close().is_none());
    assert_eq!(stream.send_tcp(1).unwrap_err(), TcpError::Closed);
    let mut buf = [0u8; 2];
    assert_eq!(stream.read(&mut buf, None), Some(0));
}

#[test]
fn small_reads_split_a_chunk_in_order() {
    let mut stream = TcpStream::new(0);
    let mut buf = [0u8; 3];
    assert_eq!(stream.read(&mut buf, None), None);
    assert_eq!(stream.read(&mut buf, Some(Arrival::Chunk(chunk(b"abcdefgh")))), Some(3));
    assert_eq!(&buf, b"abc");
    assert_eq!(stream.buffer.as_slice(), b"defgh");
    assert_eq!(stream.read(&mut buf, None), Some(3));
    assert_eq!(&buf, b"def");
    assert_eq!(stream.buffer.as_slice(), b"gh");
    assert_eq!(stream.read(&mut buf, None), Some(2));
    assert_eq!(&buf, b"ghf");
    assert!(stream.buffer.is_empty());
    assert_eq!(stream.read(&mut buf, None), None);
}

#[test]
fn read_of_exactly_the_chunk_leaves_nothing() {
    let mut stream = open_stream_holding(0, b"wxyz");
    let mut buf = [0u8; 4];
    assert_eq!(stream.read(&mut buf, None), Some(4));
    assert_eq!(&buf, b"wxyz");
    assert!(stream.buffer.is_empty());
}

#[test]
fn reads_of_any_size_reassemble_the_chunks() {
    let chunks: [&[u8]; 4] = [b"The quick ", b"brown fox", b" ", b"jumps over the lazy dog"];
    let whole: Vec<u8> = chunks.concat();
    for size in 1..=40usize {
        let mut stream = TcpStream::new(1);
        let mut next = 0;
        let mut got: Vec<u8> = Vec::new();
        let mut buf = vec![0u8; size];
        while got.len() < whole.len() {
            let n = match stream.read(&mut buf, None) {
                Some(n) => n,
                None => {
                    let arrival = Arrival::Chunk(chunk(chunks[next]));
                    next += 1;
                    stream.read(&mut buf, Some(arrival)).unwrap()
                }
            };
            assert!(n >= 1 && n <= size);
            got.extend_from_slice(&buf[..n]);
        }
        assert_eq!(got, whole);
        assert_eq!(next, chunks.len());
        assert!(stream.buffer.is_empty());
    }
}

#[test]
fn other_events_do_not_end_a_read() {
    let mut stream = TcpStream::new(0);
    let mut buf = [0u8; 4];
    assert_eq!(stream.read(&mut buf, None), None);
    assert_eq!(stream.read(&mut buf, Some(Arrival::Event(TcpMessage::SendSuccess))), None);
    assert_eq!(stream.read(&mut buf, Some(Arrival::Event(TcpMessage::Connected))), None);
    assert_eq!(stream.read(&mut buf, Some(Arrival::Event(TcpMessage::SendFail))), None);
    assert_eq!(stream.read(&mut buf, Some(Arrival::Event(TcpMessage::ConnectionFailed))), None);
    assert!(!stream.closed);
    assert_eq!(stream.read(&mut buf, Some(Arrival::Chunk(chunk(b"ok")))), Some(2));
    assert_eq!(&buf[..2], b"ok");
}

#[test]
fn empty_chunk_and_empty_buffer_hand_out_nothing() {
    let mut stream = TcpStream::new(0);
    let mut buf = [9u8; 4];
    assert_eq!(stream.read(&mut buf, None), None);
    assert_eq!(stream.read(&mut buf, Some(Arrival::Chunk(chunk(b"")))), Some(0));
    assert!(!stream.closed);
    assert_eq!(buf, [9u8; 4]);

    let mut none: [u8; 0] = [];
    assert_eq!(stream.read(&mut none, None), None);
    assert_eq!(stream.read(&mut none, Some(Arrival::Chunk(chunk(b"kept")))), Some(0));
    assert_eq!(stream.buffer.as_slice(), b"kept");
    assert_eq!(stream.read(&mut none, None), Some(0));
    assert_eq!(stream.buffer.as_slice(), b"kept");
}

#[test]
fn inner_read_writes_behind_what_is_in_place() {
    let mut stream = open_stream_holding(0, b"12345");
    let mut buf = *b"abcdefgh";
    assert_eq!(stream.inner_read(&mut buf, 2, None), Some(5));
    assert_eq!(&buf, b"ab12345h");
    let mut stream = open_stream_holding(0, b"12345");
    let mut buf = *b"abcdefgh";
    assert_eq!(stream.inner_read(&mut buf, 6, None), Some(2));
    assert_eq!(&buf, b"abcdef12");
    assert_eq!(stream.buffer.as_slice(), b"345");
    assert_eq!(stream.inner_read(&mut buf, 8, None), Some(0));
    assert_eq!(stream.buffer.as_slice(), b"345");
}

#[test]
fn full_chunk_passes_through_whole() {
    let bytes: Vec<u8> = (0..365u32).map(|i| (i % 251) as u8).collect();
    let mut stream = TcpStream::new(0);
    let mut buf = vec![0u8; 400];
    assert_eq!(stream.read(&mut buf, None), None);
    assert_eq!(stream.read(&mut buf, Some(Arrival::Chunk(chunk(&bytes)))), Some(365));
    assert_eq!(&buf[..365], &bytes[..]);
    assert!(buf[365..].iter().all(|b| *b == 0));

    let mut buf = vec![0u8; 364];
    assert_eq!(stream.read(&mut buf, Some(Arrival::Chunk(chunk(&bytes)))), Some(364));
    assert_eq!(&buf[..], &bytes[..364]);
    assert_eq!(stream.buffer.as_slice(), &bytes[364..]);
}

#[test]
fn read_exact_fills_the_buffer_over_several_chunks() {
    let mut stream = TcpStream::new(0);
    let mut buf = [0u8; 10];
    let step = stream.read_exact(&mut buf, 0, None);
    assert!(matches!(step, ReadExact::Wait(0)));
    let step = stream.read_exact(&mut buf, 0, Some(Arrival::Chunk(chunk(b"abcd"))));
    assert!(matches!(step, ReadExact::Wait(4)));
    let step = stream.read_exact(&mut buf, 4, Some(Arrival::Event(TcpMessage::SendSuccess)));
    assert!(matches!(step, ReadExact::Wait(4)));
    let step = stream.read_exact(&mut buf, 4, Some(Arrival::Chunk(chunk(b"efghijklm"))));
    assert!(matches!(step, ReadExact::Done(Ok(()))));
    assert_eq!(&buf, b"abcdefghij");
    assert_eq!(stream.buffer.as_slice(), b"klm");

    let mut more = [0u8; 3];
    assert!(matches!(stream.read_exact(&mut more, 0, None), ReadExact::Done(Ok(()))));
    assert_eq!(&more, b"klm");
    assert!(stream.buffer.is_empty());
}

#[test]
fn read_exact_takes_buffered_bytes_before_it_waits() {
    let mut stream = open_stream_holding(0, b"xy");
    let mut buf = [0u8; 5];
    assert!(matches!(stream.read_exact(&mut buf, 0, None), ReadExact::Wait(2)));
    assert_eq!(&buf[..2], b"xy");
    let step = stream.inner_read_exact(&mut buf, 2, Some(Arrival::Chunk(chunk(b"z12345"))));
    assert!(matches!(step, ReadExact::Done(Ok(()))));
    assert_eq!(&buf, b"xyz12");
    assert_eq!(stream.buffer.as_slice(), b"345");
}

#[test]
fn read_exact_into_nothing_is_done_at_once() {
    let mut stream = TcpStream::new(0);
    let mut none: [u8; 0] = [];
    assert!(matches!(stream.read_exact(&mut none, 0, None), ReadExact::Done(Ok(()))));
}

#[test]
fn read_exact_keeps_partial_data_when_the_stream_closes() {
    let mut stream = TcpStream::new(0);
    let mut buf = [0u8; 8];
    assert!(matches!(stream.read_exact(&mut buf, 0, None), ReadExact::Wait(0)));
    let step = stream.read_exact(&mut buf, 0, Some(Arrival::Chunk(chunk(b"par"))));
    assert!(matches!(step, ReadExact::Wait(3)));
    let step = stream.read_exact(&mut buf, 3, Some(Arrival::Event(TcpMessage::Closed)));
    assert!(matches!(step, ReadExact::Done(Err(TcpError::Closed))));
    assert_eq!(&buf, b"par\0\0\0\0\0");
    assert!(stream.closed);
}

#[test]
fn read_exact_fails_when_a_read_hands_out_nothing() {
    let mut stream = TcpStream::new(0);
    let mut buf = [0u8; 4];
    assert!(matches!(stream.read_exact(&mut buf, 0, None), ReadExact::Wait(0)));
    let step = stream.read_exact(&mut buf, 0, Some(Arrival::Chunk(chunk(b""))));
    assert!(matches!(step, ReadExact::Done(Err(TcpError::Closed))));
    assert!(!stream.closed);
}

#[test]
fn messages_and_errors_compare_by_variant() {
    assert_eq!(TcpMessage::Closed, TcpMessage::Closed);
    assert_ne!(TcpMessage::SendFail, TcpMessage::SendSuccess);
    assert_ne!(TcpMessage::Connected, TcpMessage::ConnectionFailed);
    assert_ne!(TcpError::Timeout, TcpError::Closed);
    assert_eq!(format!("{:?}", TcpError::SendFail), "SendFail");
}
