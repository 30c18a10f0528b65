use teensy_tft_rs::blocking::{run, Poll, Step};

#[test]
fn run_returns_ready_value() {
    assert_eq!(run(Poll::Ready(5u32)), Step::Return(5u32));
    assert_eq!(run(Poll::Ready("done")), Step::Return("done"));
}

#[test]
fn run_polls_again_while_pending() {
    assert_eq!(run(Poll::<u8>::Pending), Step::PollAgain);
}

#[test]
fn run_drives_a_countdown_to_completion() {
    let mut remaining = 3;
    let mut polls = 0;
    let value = loop {
        polls += 1;
        let polled = if remaining == 0 { Poll::Ready(42) } else { remaining -= 1; Poll::Pending };
        match run(polled) {
            Step::Return(v) => break v,
            Step::PollAgain => {}
        }
    };
    assert_eq!(value, 42);
    assert_eq!(polls, 4);
}
