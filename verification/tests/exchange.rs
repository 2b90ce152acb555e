use mavlink_extras::exchange::{max_retries_text, ConnError, Exchange, Sending, Waited, Waiting};

type Step = Exchange<u8, &'static str>;

fn sending(step: Step) -> Sending {
    match step {
        Exchange::Send(sending) => sending,
        _ => panic!("the message is to be sent"),
    }
}

fn waiting(step: Step) -> Waiting {
    match step {
        Exchange::Wait(waiting) => waiting,
        _ => panic!("the answer is to be waited for"),
    }
}

fn still_waiting(step: Step) -> Waiting {
    match step {
        Exchange::KeepWaiting(waiting) => waiting,
        _ => panic!("the wait goes on"),
    }
}

#[test]
fn answer_ends_the_exchange() {
    let step = waiting(Sending::first().sent(Ok(())));
    let step = still_waiting(step.waited(Waited::Received(None)));
    let step = still_waiting(step.waited(Waited::Received(None)));
    let step: Step = step.waited(Waited::Received(Some(3)));
    assert!(matches!(step, Exchange::Done(Ok(3))));
}

#[test]
fn message_is_sent_again_five_times() {
    let mut sends = Sending::first();
    for confirmation in 0..5 {
        assert_eq!(sends.confirmation(), confirmation);
        sends = sending(waiting(sends.sent(Ok(()))).waited(Waited::TimedOut));
    }
    assert_eq!(sends.confirmation(), 5);
    let step: Step = sends.sent(Ok(()));
    assert!(matches!(step, Exchange::Done(Err(ConnError::MaxRetries))));
    assert_eq!(max_retries_text(), "maximum retries attempted");
}

#[test]
fn other_messages_do_not_bring_back_retries() {
    let step = waiting(Sending::first().sent(Ok(())));
    let step = still_waiting(step.waited(Waited::Received(None)));
    let again = sending(step.waited(Waited::TimedOut));
    assert_eq!(again.confirmation(), 1);
}

#[test]
fn closed_connection_ends_the_exchange() {
    let step: Step = waiting(Sending::first().sent(Ok(()))).waited(Waited::Closed);
    assert!(matches!(step, Exchange::Done(Err(ConnError::ConnectionAborted))));
}

#[test]
fn failed_send_ends_the_exchange() {
    let step: Step = Sending::first().sent(Err("broken"));
    assert!(matches!(step, Exchange::Done(Err(ConnError::Send("broken")))));
    let again = sending(waiting(Sending::first().sent(Ok(()))).waited(Waited::TimedOut));
    let step: Step = again.sent(Err("broken"));
    assert!(matches!(step, Exchange::Done(Err(ConnError::Send("broken")))));
}
