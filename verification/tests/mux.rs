//! Multiplexer tests: id correlation under arbitrary interleaving, unmatched
//! results, duplicate ids, and resolution of pending handles at close.

use calc_utils::calculator::{Input, Multiplexer, Step};
use calc_utils::{MathRequest, MathResult, Operation, ProtocolError};

fn req(id: u32) -> MathRequest {
    MathRequest { id, operation: Operation::Addition, a: 1, b: 2 }
}

fn res(id: u32) -> MathResult {
    MathResult { id, res: 3 }
}

#[test]
fn submit_then_fulfill_matches_handle() {
    let mut mux: Multiplexer<u64> = Multiplexer::new();
    match mux.handle_input(Input::Request(req(1), 10)) {
        Step::Sent => {},
        _ => panic!("submission should be accepted"),
    }
    assert!(mux.is_pending(1));
    match mux.handle_input(Input::Result(res(1))) {
        Step::Fulfill(h, r) => {
            assert_eq!(h, 10);
            assert_eq!(r.id, 1);
        },
        _ => panic!("a pending id must be fulfilled"),
    }
    assert!(!mux.is_pending(1));
}

#[test]
fn results_in_any_order_reach_their_own_handles() {
    let mut mux: Multiplexer<u64> = Multiplexer::new();
    for id in [1u32, 2, 3, 4] {
        match mux.handle_input(Input::Request(req(id), 10 * id as u64)) {
            Step::Sent => {},
            _ => panic!("distinct ids must be accepted"),
        }
    }
    for id in [3u32, 1, 4, 2] {
        match mux.handle_input(Input::Result(res(id))) {
            Step::Fulfill(h, r) => {
                assert_eq!(r.id, id);
                assert_eq!(h, 10 * id as u64);
            },
            _ => panic!("a pending id must be fulfilled"),
        }
    }
}

#[test]
fn interleaved_submissions_and_arrivals_correlate() {
    let mut mux: Multiplexer<u64> = Multiplexer::new();
    assert!(matches!(mux.handle_input(Input::Request(req(7), 70)), Step::Sent));
    assert!(matches!(mux.handle_input(Input::Request(req(8), 80)), Step::Sent));
    match mux.handle_input(Input::Result(res(8))) {
        Step::Fulfill(h, _) => assert_eq!(h, 80),
        _ => panic!("id 8 was pending"),
    }
    assert!(matches!(mux.handle_input(Input::Request(req(9), 90)), Step::Sent));
    match mux.handle_input(Input::Result(res(7))) {
        Step::Fulfill(h, _) => assert_eq!(h, 70),
        _ => panic!("id 7 was pending"),
    }
    match mux.handle_input(Input::Result(res(9))) {
        Step::Fulfill(h, _) => assert_eq!(h, 90),
        _ => panic!("id 9 was pending"),
    }
}

#[test]
fn unmatched_result_is_fatal_and_corrupts_nothing() {
    let mut mux: Multiplexer<u64> = Multiplexer::new();
    assert!(matches!(mux.handle_input(Input::Request(req(1), 11)), Step::Sent));
    match mux.handle_input(Input::Result(res(99))) {
        Step::Failed(e) => assert_eq!(e, ProtocolError::UnmatchedResult),
        _ => panic!("an unknown id must fail with UnmatchedResult"),
    }
    // The other connection state is untouched: id 1 still correlates.
    match mux.handle_input(Input::Result(res(1))) {
        Step::Fulfill(h, _) => assert_eq!(h, 11),
        _ => panic!("id 1 was still pending"),
    }
}

#[test]
fn unmatched_result_on_empty_table() {
    let mut mux: Multiplexer<u64> = Multiplexer::new();
    assert!(matches!(
        mux.handle_input(Input::Result(res(0))),
        Step::Failed(ProtocolError::UnmatchedResult)
    ));
}

#[test]
fn duplicate_id_is_rejected_and_handle_returned() {
    let mut mux: Multiplexer<u64> = Multiplexer::new();
    assert!(matches!(mux.handle_input(Input::Request(req(5), 50)), Step::Sent));
    match mux.handle_input(Input::Request(req(5), 51)) {
        Step::RejectedDuplicate(h) => assert_eq!(h, 51),
        _ => panic!("a pending id must not be reused"),
    }
    // The original registration stays in place.
    match mux.handle_input(Input::Result(res(5))) {
        Step::Fulfill(h, _) => assert_eq!(h, 50),
        _ => panic!("id 5 was still pending"),
    }
}

#[test]
fn close_hands_every_pending_handle_back_once() {
    let mut mux: Multiplexer<u64> = Multiplexer::new();
    assert!(matches!(mux.handle_input(Input::Request(req(1), 100)), Step::Sent));
    assert!(matches!(mux.handle_input(Input::Request(req(2), 200)), Step::Sent));
    assert!(matches!(mux.handle_input(Input::Request(req(3), 300)), Step::Sent));
    match mux.handle_input(Input::Result(res(2))) {
        Step::Fulfill(h, _) => assert_eq!(h, 200),
        _ => panic!("id 2 was pending"),
    }
    let mut leftover = mux.close();
    leftover.sort();
    assert_eq!(leftover, vec![(1, 100), (3, 300)]);
    assert!(!mux.is_pending(1));
    assert!(!mux.is_pending(3));
}

#[test]
fn submissions_are_framed_onto_the_wire() {
    let mut mux: Multiplexer<u64> = Multiplexer::new();
    assert!(matches!(mux.handle_input(Input::Request(req(1), 1)), Step::Sent));
    // A rejected duplicate must not reach the wire.
    assert!(matches!(mux.handle_input(Input::Request(req(1), 2)), Step::RejectedDuplicate(_)));
    let bytes = mux.sink_unsent();
    assert_eq!(bytes.len(), 28);
    assert_eq!(&bytes[0..4], &[24, 0, 0, 0]);
    assert_eq!(&bytes[4..8], &[1, 0, 0, 0]);
}
