use smoldot_core::multi_stream::{
    Added, Awaiting, Config, Event, InnerOutcome, InnerReadWrite, MultiStream, Opening,
    QueuePing, RespondInRequestError, Started, Step, SubstreamEvent, SubstreamFate, SubstreamId,
    SubstreamIdInner,
};
use smoldot_core::read_write::ReadWrite;

type Connection = MultiStream<&'static str, u8>;

fn config(seed: u8) -> Config {
    Config {
        randomness_seed: [seed; 32],
        substreams_capacity: 8,
        max_inbound_substreams: 8,
        max_protocol_name_len: 64,
        ping_protocol: String::from("/ipfs/ping/1.0.0"),
        ping_interval: 20,
        ping_timeout: 10,
        first_out_ping: 5,
    }
}

fn id(number: u32) -> SubstreamId {
    SubstreamId(SubstreamIdInner::MultiStream(number))
}

fn nothing_done() -> InnerOutcome<u8> {
    InnerOutcome {
        alive: true,
        read_bytes: 0,
        written: Vec::new(),
        write_closed: false,
        wake_up_after: None,
        event: None,
    }
}

/// A connection with the ping substream 100 open.
fn with_ping(seed: u8) -> Connection {
    let mut connection = Connection::webrtc(config(seed));
    let added = connection.add_substream(100, true);
    assert_eq!(added.fate, SubstreamFate::Continue);
    assert_eq!(added.opening, Some(Opening::PingOut));
    connection
}

#[test]
fn new_connection_wants_the_ping_substream() {
    let mut connection = Connection::webrtc(config(1));
    assert_eq!(connection.desired_outbound_substreams(), 1);
    assert_eq!(connection.pull_event(), None);
    assert_eq!(connection.ping_protocol(), "/ipfs/ping/1.0.0");
    assert!(connection.has_free_substream_number());
}

#[test]
fn pull_event_on_empty_queue_changes_nothing() {
    let mut connection = with_ping(1);
    assert_eq!(connection.desired_outbound_substreams(), 0);
    assert_eq!(connection.pull_event(), None);
    assert_eq!(connection.pull_event(), None);
    assert_eq!(connection.desired_outbound_substreams(), 0);
    assert_eq!(connection.inner_substream(id(0)), Some(100));
}

#[test]
fn outbound_substream_lowers_what_is_desired() {
    let mut connection = Connection::webrtc(config(1));
    let request = connection.add_request(String::from("/req"), Some(vec![1, 2]), 99, 1024, "rq");
    assert_eq!(request, id(0));
    let notifications =
        connection.open_notifications_substream(String::from("/notif"), 16, vec![3], 77, "nt");
    assert_eq!(notifications, id(1));
    assert_eq!(connection.desired_outbound_substreams(), 3);

    // The first outbound substream is the ping substream.
    let added = connection.add_substream(10, true);
    assert_eq!(added, Added { fate: SubstreamFate::Continue, opening: Some(Opening::PingOut) });
    assert_eq!(connection.desired_outbound_substreams(), 2);
    assert_eq!(connection.inner_substream(id(2)), Some(10));

    // Then the substreams come in the order in which they were asked for.
    let added = connection.add_substream(11, true);
    assert_eq!(
        added.opening,
        Some(Opening::RequestOut {
            protocol_name: String::from("/req"),
            timeout: 99,
            request: Some(vec![1, 2]),
            max_response_size: 1024,
        })
    );
    assert_eq!(connection.desired_outbound_substreams(), 1);
    assert_eq!(connection.inner_substream(id(0)), Some(11));
    assert_eq!(connection.user_data(id(0)), Some(&"rq"));

    let added = connection.add_substream(12, true);
    assert_eq!(
        added.opening,
        Some(Opening::NotificationsOut {
            timeout: 77,
            protocol_name: String::from("/notif"),
            handshake: vec![3],
            max_handshake_size: 16,
        })
    );
    assert_eq!(connection.desired_outbound_substreams(), 0);
    assert_eq!(connection.inner_substream(id(1)), Some(12));

    // Nothing is wanted any longer: the substream is not taken in.
    let added = connection.add_substream(13, true);
    assert_eq!(added, Added { fate: SubstreamFate::Reset, opening: None });
    assert_eq!(connection.desired_outbound_substreams(), 0);
    assert_eq!(connection.inner_substream(id(3)), None);
}

#[test]
fn inbound_substream_gets_the_next_number() {
    let mut connection = with_ping(1);
    let added = connection.add_substream(7, false);
    assert_eq!(
        added,
        Added {
            fate: SubstreamFate::Continue,
            opening: Some(Opening::Ingoing { max_protocol_name_len: 64 })
        }
    );
    assert_eq!(connection.inner_substream(id(1)), Some(7));
    assert_eq!(connection.inner_substream(id(0)), Some(100));
    assert_eq!(connection.inner_substream(id(2)), None);
    assert_eq!(connection.substream_id(7), Some(id(1)));
    assert_eq!(connection.substream_id(100), Some(id(0)));
    assert_eq!(connection.substream_id(1), None);
    assert_eq!(connection.inner_substream(SubstreamId(SubstreamIdInner::SingleStream(1))), None);
    assert_eq!(connection.user_data(id(1)), None);
    assert_eq!(connection.desired_outbound_substreams(), 0);
}

#[test]
fn accept_inbound_gives_user_data() {
    let mut connection = with_ping(1);
    connection.add_substream(7, false);
    assert_eq!(connection.accept_inbound(id(1), "in"), 7);
    assert_eq!(connection.user_data(id(1)), Some(&"in"));
    assert_eq!(connection.respond_in_request(id(1)), Ok(7));
    assert_eq!(
        connection.respond_in_request(SubstreamId(SubstreamIdInner::SingleStream(1))),
        Err(RespondInRequestError::SubstreamClosed)
    );
}

#[test]
fn ping_cycle() {
    let mut connection = with_ping(3);

    // Before the first ping is due.
    let mut rw = ReadWrite::new(0, Some(Vec::new()), Some(1024));
    let started = connection.substream_read_write(100, &mut rw);
    assert_eq!(started.queue_ping, None);
    assert_eq!(rw.wake_up_after, Some(5));
    assert_eq!(
        started.step,
        Step::ReadWrite(InnerReadWrite {
            now: 0,
            incoming_buffer: Some(Vec::new()),
            outgoing_capacity: Some(1014)
        })
    );
    assert_eq!(
        connection.substream_read_write_done(100, &mut rw, nothing_done()),
        Step::Done(SubstreamFate::Continue)
    );

    // The first ping is due.
    let mut rw = ReadWrite::new(5, Some(Vec::new()), Some(1024));
    let started = connection.substream_read_write(100, &mut rw);
    let first = started.queue_ping.unwrap();
    assert_eq!(first.timeout, 15);
    assert_eq!(rw.wake_up_after, Some(25));
    assert_eq!(
        connection.substream_read_write_done(100, &mut rw, nothing_done()),
        Step::Done(SubstreamFate::Continue)
    );

    // Not yet the second.
    let mut rw = ReadWrite::new(24, Some(Vec::new()), Some(1024));
    let started = connection.substream_read_write(100, &mut rw);
    assert_eq!(started.queue_ping, None);
    assert_eq!(rw.wake_up_after, Some(25));
    connection.substream_read_write_done(100, &mut rw, nothing_done());

    // The second ping is due, with another payload.
    let mut rw = ReadWrite::new(25, Some(Vec::new()), Some(1024));
    let started = connection.substream_read_write(100, &mut rw);
    let second = started.queue_ping.unwrap();
    assert_eq!(second.timeout, 35);
    assert_ne!(second.payload, first.payload);
    assert_eq!(rw.wake_up_after, Some(45));

    // The ping is answered.
    let outcome = InnerOutcome { event: Some(SubstreamEvent::PingOutSuccess), ..nothing_done() };
    assert_eq!(connection.substream_read_write_done(100, &mut rw, outcome), Step::Again);
    assert_eq!(connection.pull_event(), Some(Event::PingOutSuccess));

    // Failed pings are reported without their number.
    let started = connection.substream_read_write_resume(100, &mut rw);
    assert!(matches!(started, Step::ReadWrite(_)));
    let outcome = InnerOutcome {
        event: Some(SubstreamEvent::PingOutError { num_pings: 2 }),
        ..nothing_done()
    };
    assert_eq!(connection.substream_read_write_done(100, &mut rw, outcome), Step::Again);
    assert_eq!(connection.pull_event(), Some(Event::PingOutFailed));
    assert_eq!(connection.pull_event(), None);
}

#[test]
fn ping_payloads_depend_on_the_seed_alone() {
    let payloads = |seed: u8| -> Vec<QueuePing> {
        let mut connection = with_ping(seed);
        let mut out = Vec::new();
        for now in [5u64, 25, 45] {
            let mut rw = ReadWrite::new(now, Some(Vec::new()), Some(64));
            let started = connection.substream_read_write(100, &mut rw);
            out.push(started.queue_ping.unwrap());
            connection.substream_read_write_done(100, &mut rw, nothing_done());
        }
        out
    };
    assert_eq!(payloads(9), payloads(9));
    assert_ne!(payloads(9), payloads(10));
    let of_nine = payloads(9);
    assert_ne!(of_nine[0].payload, of_nine[1].payload);
    assert_ne!(of_nine[0].payload, [9u8; 32]);
}

#[test]
fn ping_due_tells_when_a_ping_is_sent() {
    let mut connection = with_ping(3);
    connection.add_substream(7, false);
    assert_eq!(connection.ping_due(100, 4), None);
    assert_eq!(connection.ping_due(100, 5), Some(true));
    assert_eq!(connection.ping_due(7, 5), None);
    assert_eq!(connection.ping_due(100, u64::MAX - 20), Some(true));
    assert_eq!(connection.ping_due(100, u64::MAX - 19), Some(false));
}

#[test]
fn wake_up_after_keeps_the_earlier_moment() {
    let mut connection = with_ping(3);
    let mut rw = ReadWrite::new(0, Some(Vec::new()), Some(1024));
    rw.wake_up_after(3);
    let started = connection.substream_read_write(100, &mut rw);
    assert_eq!(rw.wake_up_after, Some(3));
    assert!(matches!(started.step, Step::ReadWrite(_)));
    let outcome = InnerOutcome { wake_up_after: Some(2), ..nothing_done() };
    connection.substream_read_write_done(100, &mut rw, outcome);
    assert_eq!(rw.wake_up_after, Some(2));
}

#[test]
fn framed_echo() {
    let mut connection = with_ping(1);
    connection.add_substream(7, false);
    let inbound = vec![0x07u8, 0x08, 0x01, 0x12, 0x03, 0x61, 0x62, 0x63];
    let mut rw = ReadWrite::new(0, Some(inbound), Some(1024));

    let started = connection.substream_read_write(7, &mut rw);
    assert_eq!(started.queue_ping, None);
    assert_eq!(rw.wake_up_after, None);
    assert_eq!(rw.read_bytes, 8);
    assert_eq!(
        started.step,
        Step::ReadWrite(InnerReadWrite {
            now: 0,
            incoming_buffer: Some(b"abc".to_vec()),
            outgoing_capacity: Some(1014)
        })
    );

    // The state machine reads the message and writes nothing.
    let outcome = InnerOutcome { read_bytes: 3, ..nothing_done() };
    assert_eq!(connection.substream_read_write_done(7, &mut rw, outcome), Step::Again);
    assert_eq!(rw.written_bytes(), 0);

    // The envelope is discarded. Its flag asks for nothing.
    assert_eq!(
        connection.substream_read_write_resume(7, &mut rw),
        Step::ReadWrite(InnerReadWrite {
            now: 0,
            incoming_buffer: Some(Vec::new()),
            outgoing_capacity: Some(1014)
        })
    );
    assert_eq!(
        connection.substream_read_write_done(7, &mut rw, nothing_done()),
        Step::Done(SubstreamFate::Continue)
    );
    assert_eq!(rw.written_bytes(), 0);
    assert_eq!(connection.pull_event(), None);
}

#[test]
fn message_read_in_two_parts() {
    let mut connection = with_ping(1);
    connection.add_substream(7, false);
    let mut rw = ReadWrite::new(0, Some(vec![0x05, 0x12, 0x03, 0x61, 0x62, 0x63]), Some(64));
    let started = connection.substream_read_write(7, &mut rw);
    assert!(matches!(started.step, Step::ReadWrite(_)));
    let outcome = InnerOutcome { read_bytes: 1, ..nothing_done() };
    assert_eq!(connection.substream_read_write_done(7, &mut rw, outcome), Step::Again);
    assert_eq!(
        connection.substream_read_write_resume(7, &mut rw),
        Step::ReadWrite(InnerReadWrite {
            now: 0,
            incoming_buffer: Some(b"bc".to_vec()),
            outgoing_capacity: Some(54)
        })
    );
}

#[test]
fn what_is_written_goes_out_in_one_envelope() {
    let mut connection = with_ping(1);
    connection.add_substream(7, false);
    let mut rw = ReadWrite::new(0, Some(Vec::new()), Some(64));
    connection.substream_read_write(7, &mut rw);
    let outcome = InnerOutcome { written: b"hi".to_vec(), ..nothing_done() };
    assert_eq!(connection.substream_read_write_done(7, &mut rw, outcome), Step::Again);
    assert_eq!(rw.outgoing_buffer, Some(vec![0x04u8, 0x12, 0x02, 0x68, 0x69]));
    assert_eq!(rw.outgoing_buffer_available(), 59);

    // Closing the writing side sends the flag once.
    assert!(matches!(connection.substream_read_write_resume(7, &mut rw), Step::ReadWrite(_)));
    let outcome = InnerOutcome { write_closed: true, ..nothing_done() };
    assert_eq!(connection.substream_read_write_done(7, &mut rw, outcome), Step::Again);
    assert_eq!(
        rw.outgoing_buffer,
        Some(vec![0x04u8, 0x12, 0x02, 0x68, 0x69, 0x02, 0x08, 0x00])
    );
    assert_eq!(
        connection.substream_read_write_resume(7, &mut rw),
        Step::ReadWrite(InnerReadWrite {
            now: 0,
            incoming_buffer: Some(Vec::new()),
            outgoing_capacity: None
        })
    );
    let outcome = InnerOutcome { write_closed: true, ..nothing_done() };
    assert_eq!(
        connection.substream_read_write_done(7, &mut rw, outcome),
        Step::Done(SubstreamFate::Continue)
    );
    assert_eq!(rw.written_bytes(), 8);
}

#[test]
fn state_machine_that_is_gone_resets_the_substream() {
    let mut connection = with_ping(1);
    connection.add_substream(7, false);
    connection.accept_inbound(id(1), "in");
    let mut rw = ReadWrite::new(0, Some(Vec::new()), Some(64));
    connection.substream_read_write(7, &mut rw);
    let outcome = InnerOutcome {
        alive: false,
        event: Some(SubstreamEvent::InboundNegotiatedCancel),
        ..nothing_done()
    };
    assert_eq!(
        connection.substream_read_write_done(7, &mut rw, outcome),
        Step::Done(SubstreamFate::Reset)
    );
    assert_eq!(rw.outgoing_buffer, Some(vec![0x02u8, 0x08, 0x02]));
    assert_eq!(connection.inner_substream(id(1)), None);
    assert_eq!(
        connection.pull_event(),
        Some(Event::InboundAcceptedCancel { id: id(1), user_data: "in" })
    );
}

#[test]
fn reset_via_reset_stream() {
    let mut connection = with_ping(1);
    connection.add_request(String::from("/req"), None, 50, 10, "rq");
    connection.add_substream(7, true);
    assert_eq!(connection.inner_substream(id(1)), Some(7));

    let mut rw = ReadWrite::new(0, Some(vec![0x02, 0x08, 0x02]), Some(1024));
    let started = connection.substream_read_write(7, &mut rw);
    assert_eq!(started, Started { queue_ping: None, step: Step::Reset });
    assert_eq!(rw.read_bytes, 3);
    assert_eq!(rw.written_bytes(), 0);

    connection.reset_substream(
        7,
        Some(SubstreamEvent::Response { response: Err(4) }),
    );
    assert_eq!(connection.inner_substream(id(1)), None);
    assert_eq!(connection.inner_substream(id(0)), Some(100));
    assert_eq!(
        connection.pull_event(),
        Some(Event::Response { id: id(1), response: Err(4), user_data: "rq" })
    );
    assert_eq!(connection.pull_event(), None);
}

#[test]
fn fin_closes_the_reading_side() {
    let mut connection = with_ping(1);
    connection.add_substream(7, false);
    let mut rw = ReadWrite::new(0, Some(vec![0x02, 0x08, 0x00]), Some(1024));
    let started = connection.substream_read_write(7, &mut rw);
    assert_eq!(
        started.step,
        Step::ReadWrite(InnerReadWrite {
            now: 0,
            incoming_buffer: None,
            outgoing_capacity: Some(1014)
        })
    );
}

#[test]
fn what_is_no_envelope_resets_the_substream() {
    let mut connection = with_ping(1);
    connection.add_substream(7, false);
    // The first envelope is whole and asks for nothing; the second holds the flag twice.
    let inbound = vec![0x02, 0x08, 0x01, 0x04, 0x08, 0x01, 0x08, 0x01];
    let mut rw = ReadWrite::new(0, Some(inbound), Some(64));
    let started = connection.substream_read_write(7, &mut rw);
    assert_eq!(started.step, Step::Reset);
    assert_eq!(rw.read_bytes, 8);
    assert_eq!(rw.written_bytes(), 0);
    connection.reset_substream(7, None);
    assert_eq!(connection.inner_substream(id(1)), None);
    assert_eq!(connection.pull_event(), None);
}

#[test]
fn envelope_beyond_16_kib_resets_the_substream() {
    let mut connection = with_ping(1);
    connection.add_substream(7, false);
    // Announces a body of 16383 bytes: with its length, one byte too many.
    let mut rw = ReadWrite::new(0, Some(vec![0xff, 0x7f, 0x12]), Some(64));
    let started = connection.substream_read_write(7, &mut rw);
    assert_eq!(started.step, Step::Reset);

    // A body of 16382 bytes fits, and is waited for.
    let mut connection = with_ping(1);
    connection.add_substream(7, false);
    let mut rw = ReadWrite::new(0, Some(vec![0xfe, 0x7f, 0x12]), Some(64));
    let started = connection.substream_read_write(7, &mut rw);
    assert_eq!(
        started.step,
        Step::ReadWrite(InnerReadWrite {
            now: 0,
            incoming_buffer: Some(Vec::new()),
            outgoing_capacity: Some(54)
        })
    );
}

#[test]
fn read_buffer_takes_no_more_than_16_kib() {
    let mut connection = with_ping(1);
    connection.add_substream(7, false);
    let mut inbound = vec![0xfeu8, 0x7f, 0x12, 0xfb, 0x7f];
    inbound.extend(std::iter::repeat(1u8).take(20000));
    let mut rw = ReadWrite::new(0, Some(inbound), Some(64));
    let started = connection.substream_read_write(7, &mut rw);
    assert_eq!(rw.read_bytes, 16384);
    match started.step {
        Step::ReadWrite(call) => assert_eq!(call.incoming_buffer.unwrap().len(), 16379),
        other => panic!("{:?}", other),
    }
}

#[test]
fn less_than_six_bytes_to_write_stops_everything() {
    let mut connection = with_ping(1);
    connection.add_substream(7, false);
    let mut rw = ReadWrite::new(0, Some(vec![0x02, 0x08, 0x02]), Some(5));
    assert_eq!(rw.outgoing_buffer_available(), 5);
    let started = connection.substream_read_write(7, &mut rw);
    assert_eq!(started, Started { queue_ping: None, step: Step::Done(SubstreamFate::Continue) });
    assert_eq!(rw.written_bytes(), 0);
    assert_eq!(rw.read_bytes, 0);

    // With six bytes the substream is processed.
    let mut rw = ReadWrite::new(0, Some(vec![0x02, 0x08, 0x02]), Some(6));
    assert_eq!(connection.substream_read_write(7, &mut rw).step, Step::Reset);
}

#[test]
fn small_space_leaves_no_room_for_data() {
    let mut connection = with_ping(1);
    connection.add_substream(7, false);
    let mut rw = ReadWrite::new(0, Some(Vec::new()), Some(9));
    let started = connection.substream_read_write(7, &mut rw);
    assert_eq!(
        started.step,
        Step::ReadWrite(InnerReadWrite {
            now: 0,
            incoming_buffer: Some(Vec::new()),
            outgoing_capacity: Some(0)
        })
    );
    let mut rw_large = ReadWrite::new(0, Some(Vec::new()), Some(100_000));
    connection.substream_read_write_done(7, &mut rw, nothing_done());
    let started = connection.substream_read_write(7, &mut rw_large);
    assert_eq!(
        started.step,
        Step::ReadWrite(InnerReadWrite {
            now: 0,
            incoming_buffer: Some(Vec::new()),
            outgoing_capacity: Some(16374)
        })
    );
}

#[test]
fn four_queued_events_stop_everything() {
    let mut connection = with_ping(1);
    for transport in 1..=4u64 {
        connection.add_substream(transport, false);
        connection.reset_substream(
            transport,
            Some(SubstreamEvent::InboundError { error: 1, was_accepted: false }),
        );
    }
    connection.add_substream(7, false);
    let mut rw = ReadWrite::new(0, Some(vec![0x02, 0x08, 0x02]), Some(64));
    let started = connection.substream_read_write(7, &mut rw);
    assert_eq!(started.step, Step::Done(SubstreamFate::Continue));
    assert_eq!(rw.read_bytes, 0);

    assert_eq!(connection.pull_event(), Some(Event::InboundError(1)));
    let started = connection.substream_read_write(7, &mut rw);
    assert_eq!(started.step, Step::Reset);
}

#[test]
fn events_keep_their_order_and_their_payload() {
    let mut connection = with_ping(1);
    connection.add_substream(7, false);
    connection.accept_inbound(id(1), "in");
    let mut rw = ReadWrite::new(0, Some(Vec::new()), Some(64));
    let reports = vec![
        SubstreamEvent::InboundNegotiated(String::from("/proto")),
        SubstreamEvent::RequestIn { request: vec![1] },
        SubstreamEvent::NotificationsInOpen { handshake: vec![2] },
    ];
    connection.substream_read_write(7, &mut rw);
    for report in reports {
        let outcome = InnerOutcome { event: Some(report), ..nothing_done() };
        assert_eq!(connection.substream_read_write_done(7, &mut rw, outcome), Step::Again);
        assert!(matches!(connection.substream_read_write_resume(7, &mut rw), Step::ReadWrite(_)));
    }
    connection.substream_read_write_done(7, &mut rw, nothing_done());
    assert_eq!(
        connection.pull_event(),
        Some(Event::InboundNegotiated { id: id(1), protocol_name: String::from("/proto") })
    );
    assert_eq!(connection.pull_event(), Some(Event::RequestIn { id: id(1), request: vec![1] }));
    assert_eq!(
        connection.pull_event(),
        Some(Event::NotificationsInOpen { id: id(1), handshake: vec![2] })
    );
    assert_eq!(connection.user_data(id(1)), Some(&"in"));
}

#[test]
fn every_report_becomes_its_event() {
    let cases: Vec<(SubstreamEvent<u8>, Event<&'static str, u8>, bool)> = vec![
        (
            SubstreamEvent::InboundError { error: 3, was_accepted: false },
            Event::InboundError(3),
            false,
        ),
        (
            SubstreamEvent::InboundError { error: 3, was_accepted: true },
            Event::InboundAcceptedCancel { id: id(1), user_data: "in" },
            true,
        ),
        (
            SubstreamEvent::NotificationsInOpenCancel,
            Event::NotificationsInOpenCancel { id: id(1) },
            false,
        ),
        (
            SubstreamEvent::NotificationIn { notification: vec![5] },
            Event::NotificationIn { id: id(1), notification: vec![5] },
            false,
        ),
        (
            SubstreamEvent::NotificationsInClose { outcome: Err(6) },
            Event::NotificationsInClose { id: id(1), outcome: Err(6), user_data: "in" },
            true,
        ),
        (
            SubstreamEvent::NotificationsOutResult { result: Ok(()) },
            Event::NotificationsOutResult { id: id(1), result: Ok(()) },
            false,
        ),
        (
            SubstreamEvent::NotificationsOutResult { result: Err(7) },
            Event::NotificationsOutResult { id: id(1), result: Err((7, "in")) },
            true,
        ),
        (
            SubstreamEvent::NotificationsOutCloseDemanded,
            Event::NotificationsOutCloseDemanded { id: id(1) },
            false,
        ),
        (
            SubstreamEvent::NotificationsOutReset,
            Event::NotificationsOutReset { id: id(1), user_data: "in" },
            true,
        ),
        (
            SubstreamEvent::Response { response: Ok(vec![8]) },
            Event::Response { id: id(1), response: Ok(vec![8]), user_data: "in" },
            true,
        ),
    ];
    for (reported, expected, takes_user_data) in cases {
        let mut connection = with_ping(1);
        connection.add_substream(7, false);
        connection.accept_inbound(id(1), "in");
        let mut rw = ReadWrite::new(0, Some(Vec::new()), Some(64));
        connection.substream_read_write(7, &mut rw);
        let outcome = InnerOutcome { event: Some(reported), ..nothing_done() };
        connection.substream_read_write_done(7, &mut rw, outcome);
        assert_eq!(connection.pull_event(), Some(expected));
        assert_eq!(connection.user_data(id(1)).is_none(), takes_user_data);
    }
}

#[test]
fn resetting_the_ping_substream_asks_for_another() {
    let mut connection = with_ping(1);
    assert_eq!(connection.desired_outbound_substreams(), 0);
    connection.reset_substream(100, None);
    assert_eq!(connection.desired_outbound_substreams(), 1);
    assert_eq!(connection.inner_substream(id(0)), None);
    let added = connection.add_substream(101, true);
    assert_eq!(added.opening, Some(Opening::PingOut));
    assert_eq!(connection.inner_substream(id(1)), Some(101));
}

#[test]
fn awaiting_is_plain_data() {
    assert_ne!(Awaiting::Idle, Awaiting::Reset);
    assert_eq!(
        Awaiting::ReadWrite { offered: 1, progress: false },
        Awaiting::ReadWrite { offered: 1, progress: false }
    );
}

#[test]
fn user_data_of_an_open_substream_can_be_changed() {
    let mut connection = with_ping(1);
    connection.add_substream(7, false);
    connection.accept_inbound(id(1), "in");
    assert_eq!(connection.notifications_substream_user_data_mut(id(1), "changed"), Some("in"));
    assert_eq!(connection.user_data(id(1)), Some(&"changed"));
    assert_eq!(connection.inner_substream(id(1)), Some(7));
    assert_eq!(connection.substream_id(7), Some(id(1)));

    // The ping substream has no user data, and the substream number 9 is not open.
    assert_eq!(connection.notifications_substream_user_data_mut(id(0), "ping"), None);
    assert_eq!(connection.user_data(id(0)), None);
    assert_eq!(connection.notifications_substream_user_data_mut(id(9), "none"), None);
    assert_eq!(connection.user_data(id(9)), None);
    let single = SubstreamId(SubstreamIdInner::SingleStream(1));
    assert_eq!(connection.notifications_substream_user_data_mut(single, "none"), None);
    assert_eq!(connection.user_data(id(1)), Some(&"changed"));
}

#[test]
fn first_outbound_substream_is_the_ping_substream() {
    let mut connection = Connection::webrtc(config(1));
    assert_eq!(connection.ping_substream(), None);
    connection.add_substream(7, false);
    assert_eq!(connection.ping_substream(), None);
    connection.add_substream(100, true);
    assert_eq!(connection.ping_substream(), Some(100));
    connection.reset_substream(100, None);
    assert_eq!(connection.ping_substream(), None);
    assert_eq!(connection.desired_outbound_substreams(), 1);
}
