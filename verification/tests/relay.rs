//! Drives the relay core through the scenarios its laws speak of.

use bane_relay::codec::encode;
use bane_relay::relay::{PollResult, PushOutcome, RecvEvent, RecvOutcome, Relay, SendStep};
use bane_relay::{DecodeError, RecvMessage, SendMessage};

fn chat(text: &str, to: u64) -> SendMessage {
    SendMessage::Message { message: String::from(text), reciever: to }
}

#[test]
fn order_preserved_across_pushes_and_drains() {
    let mut relay = Relay::start(4, 4);
    let m1 = chat("one", 1);
    let m2 = chat("two", 2);
    let m3 = chat("three", 3);
    assert_eq!(relay.push_outbound(chat("one", 1)), PushOutcome::Accepted);
    assert_eq!(relay.push_outbound(chat("two", 2)), PushOutcome::Accepted);
    assert_eq!(relay.push_outbound(chat("three", 3)), PushOutcome::Accepted);
    assert_eq!(relay.send_step(), SendStep::Wrote(encode(&m1)));
    assert_eq!(relay.send_step(), SendStep::Wrote(encode(&m2)));
    assert_eq!(relay.send_step(), SendStep::Wrote(encode(&m3)));
    assert_eq!(relay.send_step(), SendStep::Idle);
}

#[test]
fn backpressure_suspends_without_dropping() {
    let mut relay = Relay::start(2, 2);
    assert_eq!(relay.push_outbound(chat("a", 1)), PushOutcome::Accepted);
    assert_eq!(relay.push_outbound(chat("b", 1)), PushOutcome::Accepted);
    // The queue is at capacity: the caller is held off, nothing is lost.
    assert_eq!(relay.push_outbound(chat("c", 1)), PushOutcome::Full);
    assert_eq!(relay.push_outbound(chat("c", 1)), PushOutcome::Full);
    // One drained slot lets the retried push through, behind the others.
    assert_eq!(relay.send_step(), SendStep::Wrote(encode(&chat("a", 1))));
    assert_eq!(relay.push_outbound(chat("c", 1)), PushOutcome::Accepted);
    assert_eq!(relay.send_step(), SendStep::Wrote(encode(&chat("b", 1))));
    assert_eq!(relay.send_step(), SendStep::Wrote(encode(&chat("c", 1))));
    assert_eq!(relay.send_step(), SendStep::Idle);
}

#[test]
fn malformed_frames_are_dropped_and_the_relay_lives_on() {
    let mut relay = Relay::start(2, 2);
    let bad1 = RecvEvent::Text(String::from("{\"sender\":1,\"message\":\"x\"}"));
    let bad2 = RecvEvent::Text(String::from("{\"type\":\"Carrier\",\"sender\":1}"));
    let bad3 = RecvEvent::Text(String::from("{\"type\":\"Message\",\"sender\":\"x\",\"message\":\"x\"}"));
    assert_eq!(
        relay.recv_step(bad1),
        RecvOutcome::Dropped(DecodeError::MissingDiscriminator)
    );
    assert_eq!(
        relay.recv_step(bad2),
        RecvOutcome::Dropped(DecodeError::UnknownDiscriminator)
    );
    assert_eq!(
        relay.recv_step(bad3),
        RecvOutcome::Dropped(DecodeError::WrongFieldType)
    );
    assert_eq!(relay.recv_step(RecvEvent::NotText), RecvOutcome::Dropped(DecodeError::NotText));
    // The next well-formed frame still goes through.
    let good = RecvEvent::Text(String::from("{\"type\":\"Message\",\"sender\":42,\"message\":\"hello\"}"));
    assert_eq!(relay.recv_step(good), RecvOutcome::Delivered);
    assert_eq!(
        relay.poll_inbound(),
        PollResult::Msg(RecvMessage::Message { sender: 42, message: String::from("hello") })
    );
    assert_eq!(relay.poll_inbound(), PollResult::Empty);
}

#[test]
fn inbound_queue_at_capacity_blocks_the_receive_loop() {
    let mut relay = Relay::start(2, 1);
    let frame = "{\"type\":\"Message\",\"sender\":1,\"message\":\"m\"}";
    assert_eq!(relay.recv_step(RecvEvent::Text(String::from(frame))), RecvOutcome::Delivered);
    assert_eq!(relay.recv_step(RecvEvent::Text(String::from(frame))), RecvOutcome::Blocked);
    assert!(matches!(relay.poll_inbound(), PollResult::Msg(_)));
    assert_eq!(relay.recv_step(RecvEvent::Text(String::from(frame))), RecvOutcome::Delivered);
}

#[test]
fn remote_closure_stops_both_loops_and_signals_the_caller() {
    let mut relay = Relay::start(2, 2);
    let good = RecvEvent::Text(String::from("{\"type\":\"Message\",\"sender\":9,\"message\":\"bye\"}"));
    assert_eq!(relay.recv_step(good), RecvOutcome::Delivered);
    assert_eq!(relay.recv_step(RecvEvent::Closed), RecvOutcome::Stopped);
    // The send loop observes the shared signal at its very next step.
    assert_eq!(relay.send_step(), SendStep::Stopped);
    // The caller can no longer send.
    assert_eq!(relay.push_outbound(chat("late", 9)), PushOutcome::Closed);
    // What was buffered is still handed out, then end of stream.
    assert_eq!(
        relay.poll_inbound(),
        PollResult::Msg(RecvMessage::Message { sender: 9, message: String::from("bye") })
    );
    assert_eq!(relay.poll_inbound(), PollResult::Closed);
    assert_eq!(relay.poll_inbound(), PollResult::Closed);
}

#[test]
fn read_failure_stops_both_loops() {
    let mut relay = Relay::start(2, 2);
    assert_eq!(relay.recv_step(RecvEvent::Failed), RecvOutcome::Stopped);
    assert_eq!(relay.send_step(), SendStep::Stopped);
    assert_eq!(relay.poll_inbound(), PollResult::Closed);
}

#[test]
fn write_failure_stops_the_receive_loop_too() {
    let mut relay = Relay::start(2, 2);
    relay.write_failed();
    assert_eq!(relay.push_outbound(chat("x", 1)), PushOutcome::Closed);
    let good = RecvEvent::Text(String::from("{\"type\":\"Message\",\"sender\":1,\"message\":\"m\"}"));
    assert_eq!(relay.recv_step(good), RecvOutcome::Stopped);
}

#[test]
fn caller_hangup_drains_then_closes() {
    let mut relay = Relay::start(4, 4);
    assert_eq!(relay.push_outbound(chat("last", 5)), PushOutcome::Accepted);
    relay.close_outbound();
    // What was queued still goes out, then the loop closes the connection.
    assert_eq!(relay.send_step(), SendStep::Wrote(encode(&chat("last", 5))));
    assert_eq!(relay.send_step(), SendStep::Stopped);
    assert_eq!(relay.send_step(), SendStep::Stopped);
    // The receive loop follows the shared signal.
    assert_eq!(relay.recv_step(RecvEvent::NotText), RecvOutcome::Stopped);
}

#[test]
fn relay_session_end_to_end() {
    // The example session: push a chat to 42, observe the exact wire frame,
    // feed the reply back, and poll it out.
    let mut relay = Relay::start(64, 64);
    assert_eq!(
        relay.push_outbound(chat("hi", 42)),
        PushOutcome::Accepted
    );
    assert_eq!(
        relay.send_step(),
        SendStep::Wrote(String::from("{\"type\":\"Message\",\"message\":\"hi\",\"reciever\":42}"))
    );
    let reply = RecvEvent::Text(String::from("{\"type\":\"Message\",\"sender\":42,\"message\":\"hello\"}"));
    assert_eq!(relay.recv_step(reply), RecvOutcome::Delivered);
    assert_eq!(
        relay.poll_inbound(),
        PollResult::Msg(RecvMessage::Message { sender: 42, message: String::from("hello") })
    );
}
