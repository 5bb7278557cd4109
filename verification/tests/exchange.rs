use analysis_bridge::exchange::{
    Action, Event, Exchange, ExchangeError, Operation, Phase, RECOMMENDED_CHUNK_SIZE,
};

/// A transport that exists on paper only: it takes writes as scripted and
/// serves the reads from a list of chunks, then reports the end of the stream.
struct Script {
    /// How many bytes each write takes; once used up, writes take everything.
    write_sizes: Vec<usize>,
    /// What the reads return, one after the other.
    reads: Vec<Vec<u8>>,
}

struct Run {
    connects: usize,
    written: Vec<u8>,
    write_calls: usize,
    read_sizes: Vec<usize>,
    result: Result<Vec<u8>, ExchangeError>,
}

fn run(request: &[u8], chunk_size: usize, max_response_len: usize, script: Script) -> Run {
    let (mut machine, mut action) =
        Exchange::start(request.to_vec(), chunk_size, max_response_len).expect("chunk size");
    let mut write_sizes = script.write_sizes.into_iter();
    let mut reads = script.reads.into_iter();
    let mut run = Run {
        connects: 0,
        written: Vec::new(),
        write_calls: 0,
        read_sizes: Vec::new(),
        result: Ok(Vec::new()),
    };
    for _ in 0..10_000 {
        let event = match action {
            Action::Connect => {
                run.connects += 1;
                Event::Connected
            }
            Action::Write(bytes) => {
                assert!(!bytes.is_empty(), "asked to write nothing");
                let taken = write_sizes.next().unwrap_or(bytes.len()).min(bytes.len());
                run.written.extend_from_slice(&bytes[..taken]);
                run.write_calls += 1;
                Event::Written(taken)
            }
            Action::Read(n) => {
                run.read_sizes.push(n);
                Event::Received(reads.next().unwrap_or_default())
            }
            Action::Finish(result) => {
                assert_eq!(machine.phase(), Phase::Finished);
                assert_eq!(machine.buffered(), 0);
                run.result = result;
                return run;
            }
        };
        action = machine.step(event);
    }
    panic!("the exchange does not end");
}

fn chunks_of(stream: &[u8], size: usize) -> Vec<Vec<u8>> {
    stream.chunks(size).map(|chunk| chunk.to_vec()).collect()
}

fn receiving(chunk_size: usize, max_response_len: usize) -> Exchange {
    let (mut machine, action) =
        Exchange::start(b"q".to_vec(), chunk_size, max_response_len).expect("chunk size");
    assert_eq!(action, Action::Connect);
    assert_eq!(machine.step(Event::Connected), Action::Write(b"q".to_vec()));
    assert_eq!(machine.step(Event::Written(1)), Action::Write(b"EOF".to_vec()));
    assert_eq!(machine.step(Event::Written(3)), Action::Read(chunk_size));
    assert_eq!(machine.phase(), Phase::Receiving);
    machine
}

#[test]
fn recommended_chunk_size_is_4096() {
    assert_eq!(RECOMMENDED_CHUNK_SIZE, 4096);
}

#[test]
fn no_exchange_with_chunk_size_zero() {
    assert!(Exchange::start(b"{}".to_vec(), 0, 100).is_none());
    assert!(Exchange::start(Vec::new(), 0, 0).is_none());
    assert!(Exchange::start(b"{}".to_vec(), 1, 0).is_some());
}

#[test]
fn exchange_begins_by_connecting() {
    let (machine, action) = Exchange::start(b"{}".to_vec(), 4096, 100).expect("chunk size");
    assert_eq!(action, Action::Connect);
    assert_eq!(machine.phase(), Phase::Connecting);
    assert_eq!(machine.buffered(), 0);
}

#[test]
fn payload_then_marker_then_read() {
    let (mut machine, _) = Exchange::start(b"{\"a\":1}".to_vec(), 4096, 100).expect("chunk size");
    assert_eq!(machine.step(Event::Connected), Action::Write(b"{\"a\":1}".to_vec()));
    assert_eq!(machine.phase(), Phase::SendingPayload);
    assert_eq!(machine.step(Event::Written(7)), Action::Write(b"EOF".to_vec()));
    assert_eq!(machine.phase(), Phase::SendingTerminator);
    assert_eq!(machine.step(Event::Written(3)), Action::Read(4096));
    assert_eq!(machine.phase(), Phase::Receiving);
}

#[test]
fn empty_request_sends_the_marker_alone() {
    let (mut machine, _) = Exchange::start(Vec::new(), 16, 100).expect("chunk size");
    assert_eq!(machine.step(Event::Connected), Action::Write(b"EOF".to_vec()));
    assert_eq!(machine.phase(), Phase::SendingTerminator);
    assert_eq!(machine.step(Event::Written(3)), Action::Read(16));
}

#[test]
fn partial_writes_are_retried_until_all_is_out() {
    let (mut machine, _) = Exchange::start(b"abcdef".to_vec(), 8, 100).expect("chunk size");
    assert_eq!(machine.step(Event::Connected), Action::Write(b"abcdef".to_vec()));
    assert_eq!(machine.step(Event::Written(2)), Action::Write(b"cdef".to_vec()));
    assert_eq!(machine.phase(), Phase::SendingPayload);
    assert_eq!(machine.step(Event::Written(3)), Action::Write(b"f".to_vec()));
    assert_eq!(machine.step(Event::Written(1)), Action::Write(b"EOF".to_vec()));
    assert_eq!(machine.step(Event::Written(1)), Action::Write(b"OF".to_vec()));
    assert_eq!(machine.phase(), Phase::SendingTerminator);
    assert_eq!(machine.step(Event::Written(1)), Action::Write(b"F".to_vec()));
    assert_eq!(machine.step(Event::Written(1)), Action::Read(8));
    assert_eq!(machine.phase(), Phase::Receiving);
}

#[test]
fn whatever_the_write_sizes_the_frame_goes_out() {
    let request = b"{\"image\":\"a.png\",\"threshold\":12}";
    let mut expected = request.to_vec();
    expected.extend_from_slice(b"EOF");
    for first in 1..=request.len() {
        for second in 1..=3usize {
            let script = Script {
                write_sizes: vec![first, second, 1, 2, 5, 1, 1],
                reads: vec![b"okEOF".to_vec()],
            };
            let run = run(request, 64, 100, script);
            assert_eq!(run.connects, 1);
            assert_eq!(run.written, expected);
            assert_eq!(run.result, Ok(b"ok".to_vec()));
        }
    }
}

#[test]
fn a_write_that_takes_nothing_is_a_failure() {
    let (mut machine, _) = Exchange::start(b"abc".to_vec(), 8, 100).expect("chunk size");
    machine.step(Event::Connected);
    assert_eq!(
        machine.step(Event::Written(0)),
        Action::Finish(Err(ExchangeError::Transport(Operation::Write)))
    );
    assert_eq!(machine.phase(), Phase::Finished);
}

#[test]
fn a_write_that_takes_more_than_was_offered_is_unexpected() {
    let (mut machine, _) = Exchange::start(b"abc".to_vec(), 8, 100).expect("chunk size");
    machine.step(Event::Connected);
    assert_eq!(
        machine.step(Event::Written(4)),
        Action::Finish(Err(ExchangeError::UnexpectedEvent))
    );
    assert_eq!(machine.phase(), Phase::Finished);
}

#[test]
fn echo_returns_the_request() {
    let requests: [&[u8]; 6] = [
        b"",
        b"x",
        b"{\"cmd\":\"analyse\",\"path\":\"/tmp/a.png\"}",
        b"E",
        b"EO",
        b"OFEOEFFOEEO",
    ];
    for request in requests {
        let mut stream = request.to_vec();
        stream.extend_from_slice(b"EOF");
        for size in 1..=stream.len() {
            let script = Script { write_sizes: Vec::new(), reads: chunks_of(&stream, size) };
            let run = run(request, size, 1000, script);
            assert_eq!(run.written, stream);
            assert_eq!(run.result, Ok(request.to_vec()), "chunks of {}", size);
        }
    }
}

#[test]
fn echo_of_a_long_request_in_recommended_chunks() {
    let mut request = Vec::new();
    for i in 0..20_000u32 {
        request.push(b'a' + (i % 26) as u8);
    }
    let mut stream = request.clone();
    stream.extend_from_slice(b"EOF");
    let script = Script {
        write_sizes: vec![4096, 4096, 1],
        reads: chunks_of(&stream, RECOMMENDED_CHUNK_SIZE),
    };
    let run = run(&request, RECOMMENDED_CHUNK_SIZE, 1 << 20, script);
    assert_eq!(run.written, stream);
    assert_eq!(run.read_sizes, vec![RECOMMENDED_CHUNK_SIZE; 5]);
    assert_eq!(run.result, Ok(request));
}

#[test]
fn marker_split_across_two_reads_is_found() {
    let stream = b"{\"fibers\":3}EOFtrailing";
    for cut in 13..=14usize {
        let script = Script {
            write_sizes: Vec::new(),
            reads: vec![stream[..cut].to_vec(), stream[cut..].to_vec()],
        };
        let run = run(b"{}", 4096, 1000, script);
        assert_eq!(run.read_sizes.len(), 2);
        assert_eq!(run.result, Ok(b"{\"fibers\":3}".to_vec()));
    }
}

#[test]
fn marker_split_over_three_reads_of_one_byte() {
    let script = Script {
        write_sizes: Vec::new(),
        reads: vec![b"ab".to_vec(), b"E".to_vec(), b"O".to_vec(), b"F".to_vec(), b"zz".to_vec()],
    };
    let run = run(b"{}", 1, 1000, script);
    assert_eq!(run.read_sizes, vec![1, 1, 1, 1]);
    assert_eq!(run.result, Ok(b"ab".to_vec()));
}

#[test]
fn every_way_of_cutting_the_stream_gives_the_same_response() {
    let stream = b"EOxEOEEOFabcEOFdef";
    let bits = stream.len() - 1;
    for mask in 0u32..(1 << bits) {
        let mut reads = Vec::new();
        let mut chunk = Vec::new();
        for (i, byte) in stream.iter().enumerate() {
            chunk.push(*byte);
            if i == bits || mask & (1 << i) != 0 {
                reads.push(std::mem::take(&mut chunk));
            }
        }
        let run = run(b"{}", 4, 1000, Script { write_sizes: Vec::new(), reads });
        assert_eq!(run.result, Ok(b"EOxEOE".to_vec()), "mask {:#b}", mask);
    }
}

#[test]
fn what_follows_the_marker_is_discarded() {
    let script = Script { write_sizes: Vec::new(), reads: vec![b"answerEOFjunkEOFmore".to_vec()] };
    assert_eq!(run(b"{}", 4096, 1000, script).result, Ok(b"answer".to_vec()));
}

#[test]
fn marker_inside_the_payload_cuts_it_short() {
    let script = Script { write_sizes: Vec::new(), reads: vec![b"THEOFFICEEOF".to_vec()] };
    assert_eq!(run(b"{}", 4096, 1000, script).result, Ok(b"TH".to_vec()));
}

#[test]
fn close_without_marker_returns_every_byte() {
    let script = Script {
        write_sizes: Vec::new(),
        reads: vec![b"no ".to_vec(), b"marker ".to_vec(), b"here EO".to_vec()],
    };
    let run = run(b"{}", 16, 1000, script);
    assert_eq!(run.read_sizes.len(), 4);
    assert_eq!(run.result, Ok(b"no marker here EO".to_vec()));
}

#[test]
fn close_at_once_returns_nothing() {
    let run = run(b"{}", 16, 1000, Script { write_sizes: Vec::new(), reads: Vec::new() });
    assert_eq!(run.read_sizes, vec![16]);
    assert_eq!(run.result, Ok(Vec::new()));
}

#[test]
fn payload_of_exactly_the_maximum_is_accepted() {
    for size in 1..=8usize {
        let script = Script { write_sizes: Vec::new(), reads: chunks_of(b"12345EOF", size) };
        assert_eq!(run(b"{}", size, 5, script).result, Ok(b"12345".to_vec()), "chunks of {}", size);
    }
}

#[test]
fn payload_over_the_maximum_is_too_large() {
    for size in 1..=9usize {
        let script = Script { write_sizes: Vec::new(), reads: chunks_of(b"123456EOF", size) };
        assert_eq!(
            run(b"{}", size, 5, script).result,
            Err(ExchangeError::ResponseTooLarge),
            "chunks of {}",
            size
        );
    }
}

#[test]
fn reading_stops_once_the_payload_must_be_too_large() {
    let mut machine = receiving(4, 5);
    assert_eq!(machine.step(Event::Received(b"1234".to_vec())), Action::Read(4));
    assert_eq!(machine.buffered(), 4);
    assert_eq!(machine.step(Event::Received(b"567".to_vec())), Action::Read(4));
    assert_eq!(machine.buffered(), 7);
    assert_eq!(
        machine.step(Event::Received(b"8".to_vec())),
        Action::Finish(Err(ExchangeError::ResponseTooLarge))
    );
    assert_eq!(machine.buffered(), 0);
}

#[test]
fn bytes_that_may_begin_a_marker_do_not_count_yet() {
    let mut machine = receiving(8, 5);
    assert_eq!(machine.step(Event::Received(b"12345EO".to_vec())), Action::Read(8));
    assert_eq!(machine.step(Event::Received(b"F".to_vec())), Action::Finish(Ok(b"12345".to_vec())));
}

#[test]
fn close_with_more_than_the_maximum_is_too_large() {
    let mut machine = receiving(8, 5);
    assert_eq!(machine.step(Event::Received(b"12345E".to_vec())), Action::Read(8));
    assert_eq!(
        machine.step(Event::Received(Vec::new())),
        Action::Finish(Err(ExchangeError::ResponseTooLarge))
    );
}

#[test]
fn maximum_of_zero_accepts_the_empty_payload_only() {
    let script = Script { write_sizes: Vec::new(), reads: vec![b"EOF".to_vec()] };
    assert_eq!(run(b"{}", 8, 0, script).result, Ok(Vec::new()));
    let script = Script { write_sizes: Vec::new(), reads: vec![b"aEOF".to_vec()] };
    assert_eq!(run(b"a", 8, 0, script).result, Err(ExchangeError::ResponseTooLarge));
}

#[test]
fn largest_maximum_does_not_overflow() {
    let script = Script { write_sizes: Vec::new(), reads: vec![b"abc".to_vec(), b"dEOF".to_vec()] };
    assert_eq!(run(b"{}", 8, usize::MAX, script).result, Ok(b"abcd".to_vec()));
}

#[test]
fn failure_names_the_operation_that_was_pending() {
    let (mut machine, _) = Exchange::start(b"ab".to_vec(), 8, 100).expect("chunk size");
    assert_eq!(
        machine.step(Event::Failed),
        Action::Finish(Err(ExchangeError::Transport(Operation::Connect)))
    );

    let (mut machine, _) = Exchange::start(b"ab".to_vec(), 8, 100).expect("chunk size");
    machine.step(Event::Connected);
    assert_eq!(
        machine.step(Event::Failed),
        Action::Finish(Err(ExchangeError::Transport(Operation::Write)))
    );

    let (mut machine, _) = Exchange::start(b"ab".to_vec(), 8, 100).expect("chunk size");
    machine.step(Event::Connected);
    machine.step(Event::Written(2));
    assert_eq!(machine.phase(), Phase::SendingTerminator);
    assert_eq!(
        machine.step(Event::Failed),
        Action::Finish(Err(ExchangeError::Transport(Operation::Write)))
    );

    let mut machine = receiving(8, 100);
    machine.step(Event::Received(b"half".to_vec()));
    assert_eq!(
        machine.step(Event::Failed),
        Action::Finish(Err(ExchangeError::Transport(Operation::Read)))
    );
    assert_eq!(machine.phase(), Phase::Finished);
    assert_eq!(machine.buffered(), 0);
}

#[test]
fn timeout_ends_the_exchange_in_every_phase() {
    let (mut machine, _) = Exchange::start(b"ab".to_vec(), 8, 100).expect("chunk size");
    assert_eq!(machine.step(Event::TimedOut), Action::Finish(Err(ExchangeError::TransportTimeout)));

    let (mut machine, _) = Exchange::start(b"ab".to_vec(), 8, 100).expect("chunk size");
    machine.step(Event::Connected);
    assert_eq!(machine.step(Event::TimedOut), Action::Finish(Err(ExchangeError::TransportTimeout)));

    let mut machine = receiving(8, 100);
    machine.step(Event::Received(b"never ends".to_vec()));
    assert_eq!(machine.step(Event::TimedOut), Action::Finish(Err(ExchangeError::TransportTimeout)));
    assert_eq!(machine.phase(), Phase::Finished);
}

#[test]
fn cancellation_ends_the_exchange_in_every_phase() {
    let (mut machine, _) = Exchange::start(b"ab".to_vec(), 8, 100).expect("chunk size");
    assert_eq!(machine.step(Event::Cancelled), Action::Finish(Err(ExchangeError::Cancelled)));

    let (mut machine, _) = Exchange::start(b"ab".to_vec(), 8, 100).expect("chunk size");
    machine.step(Event::Connected);
    machine.step(Event::Written(2));
    assert_eq!(machine.step(Event::Cancelled), Action::Finish(Err(ExchangeError::Cancelled)));

    let mut machine = receiving(8, 100);
    assert_eq!(machine.step(Event::Cancelled), Action::Finish(Err(ExchangeError::Cancelled)));
    assert_eq!(machine.phase(), Phase::Finished);
}

#[test]
fn events_out_of_turn_end_the_exchange() {
    let unexpected = Action::Finish(Err(ExchangeError::UnexpectedEvent));

    let (mut machine, _) = Exchange::start(b"ab".to_vec(), 8, 100).expect("chunk size");
    assert_eq!(machine.step(Event::Written(2)), unexpected);
    assert_eq!(machine.phase(), Phase::Finished);

    let (mut machine, _) = Exchange::start(b"ab".to_vec(), 8, 100).expect("chunk size");
    assert_eq!(machine.step(Event::Received(b"okEOF".to_vec())), unexpected);

    let (mut machine, _) = Exchange::start(b"ab".to_vec(), 8, 100).expect("chunk size");
    machine.step(Event::Connected);
    assert_eq!(machine.step(Event::Connected), unexpected);

    let (mut machine, _) = Exchange::start(b"ab".to_vec(), 8, 100).expect("chunk size");
    machine.step(Event::Connected);
    assert_eq!(machine.step(Event::Received(b"okEOF".to_vec())), unexpected);

    let mut machine = receiving(8, 100);
    assert_eq!(machine.step(Event::Written(1)), unexpected);

    let mut machine = receiving(8, 100);
    assert_eq!(machine.step(Event::Connected), unexpected);
}

#[test]
fn a_finished_exchange_stays_finished() {
    let mut machine = receiving(8, 100);
    assert_eq!(machine.step(Event::Received(b"okEOF".to_vec())), Action::Finish(Ok(b"ok".to_vec())));
    let events = [
        Event::Connected,
        Event::Written(1),
        Event::Received(b"moreEOF".to_vec()),
        Event::Received(Vec::new()),
        Event::Failed,
        Event::TimedOut,
        Event::Cancelled,
    ];
    for event in events {
        assert_eq!(machine.step(event), Action::Finish(Err(ExchangeError::UnexpectedEvent)));
        assert_eq!(machine.phase(), Phase::Finished);
        assert_eq!(machine.buffered(), 0);
    }
}

#[test]
fn chunks_longer_than_asked_for_are_taken_whole() {
    let mut machine = receiving(2, 100);
    assert_eq!(
        machine.step(Event::Received(b"a long chunkEOF".to_vec())),
        Action::Finish(Ok(b"a long chunk".to_vec()))
    );
}
