//! End-to-end exchanges: client multiplexer, wire, server dispatcher and
//! back, with the arithmetic evaluated in IEEE-754 doubles and every byte
//! travelling through the verified codec and framers.

use calc_utils::calculator::{Input, Multiplexer, Step};
use calc_utils::dispatcher::respond;
use calc_utils::sereal_sink::SerealSink;
use calc_utils::sereal_streamer::SerealStreamer;
use calc_utils::{MathRequest, MathResult, Operation, ProtocolError};

fn evaluate(req: &MathRequest) -> u64 {
    let a = f64::from_bits(req.a);
    let b = f64::from_bits(req.b);
    let res = match req.operation {
        Operation::Addition => a + b,
        Operation::Subtraction => a - b,
        Operation::Multiplication => a * b,
        Operation::Division => a / b,
    };
    res.to_bits()
}

/// Runs the whole exchange for a set of requests, fragmenting both directions
/// into chunks of `chunk` bytes, and returns each fulfilled (handle, result).
fn exchange(requests: Vec<(MathRequest, u64)>, chunk: usize) -> Vec<(u64, MathResult)> {
    let mut mux: Multiplexer<u64> = Multiplexer::new();
    for (req, handle) in requests {
        match mux.handle_input(Input::Request(req, handle)) {
            Step::Sent => {},
            _ => panic!("submission with a fresh id must be accepted"),
        }
    }
    let client_to_server = mux.sink_unsent();
    mux.sink_record_written(client_to_server.len());

    // Server side: frame, decode, evaluate in arrival order, answer.
    let mut server_stream = SerealStreamer::new();
    let mut server_sink = SerealSink::new();
    for part in client_to_server.chunks(chunk) {
        let reqs: Vec<MathRequest> = server_stream.push_bytes(&part.to_vec()).unwrap();
        for req in reqs {
            let result = respond(&req, evaluate(&req));
            server_sink.start_send(&result).unwrap();
        }
    }
    let server_to_client = server_sink.unsent();
    server_sink.record_written(server_to_client.len());

    // Client side: frame, decode, route each result to its handle.
    let mut client_stream = SerealStreamer::new();
    let mut fulfilled: Vec<(u64, MathResult)> = Vec::new();
    for part in server_to_client.chunks(chunk) {
        let results: Vec<MathResult> = client_stream.push_bytes(&part.to_vec()).unwrap();
        for res in results {
            match mux.handle_input(Input::Result(res)) {
                Step::Fulfill(handle, r) => fulfilled.push((handle, r)),
                _ => panic!("every server answer matches a pending id"),
            }
        }
    }
    fulfilled
}

#[test]
fn addition_example() {
    let req = MathRequest {
        id: 1,
        operation: Operation::Addition,
        a: 40.0f64.to_bits(),
        b: 200.0f64.to_bits(),
    };
    let fulfilled = exchange(vec![(req, 77)], 1024);
    assert_eq!(fulfilled.len(), 1);
    let (handle, res) = fulfilled[0];
    assert_eq!(handle, 77);
    assert_eq!(res.id, 1);
    assert_eq!(f64::from_bits(res.res), 240.0);
}

#[test]
fn division_example_within_tolerance() {
    let req = MathRequest {
        id: 2,
        operation: Operation::Division,
        a: 988027.0f64.to_bits(),
        b: 991.0f64.to_bits(),
    };
    let fulfilled = exchange(vec![(req, 5)], 3);
    let (_, res) = fulfilled[0];
    assert_eq!(res.id, 2);
    let value = f64::from_bits(res.res);
    assert!((value - 997.0).abs() < 1e-9);
    assert_eq!(res.res, (988027.0f64 / 991.0f64).to_bits());
}

#[test]
fn many_requests_one_byte_fragments() {
    let mut requests: Vec<(MathRequest, u64)> = Vec::new();
    for id in 1..=8u32 {
        let req = MathRequest {
            id,
            operation: Operation::Multiplication,
            a: (id as f64).to_bits(),
            b: 3.0f64.to_bits(),
        };
        requests.push((req, 1000 + id as u64));
    }
    let fulfilled = exchange(requests, 1);
    assert_eq!(fulfilled.len(), 8);
    for (handle, res) in fulfilled {
        assert_eq!(handle, 1000 + res.id as u64);
        assert_eq!(f64::from_bits(res.res), res.id as f64 * 3.0);
    }
}

#[test]
fn division_by_zero_travels_as_infinity() {
    let req = MathRequest {
        id: 4,
        operation: Operation::Division,
        a: 7.5f64.to_bits(),
        b: 0.0f64.to_bits(),
    };
    let fulfilled = exchange(vec![(req, 9)], 2);
    let (_, res) = fulfilled[0];
    let value = f64::from_bits(res.res);
    assert!(value.is_infinite() && value > 0.0);

    let req_neg = MathRequest {
        id: 5,
        operation: Operation::Division,
        a: (-7.5f64).to_bits(),
        b: 0.0f64.to_bits(),
    };
    let fulfilled_neg = exchange(vec![(req_neg, 9)], 2);
    let (_, res_neg) = fulfilled_neg[0];
    let value_neg = f64::from_bits(res_neg.res);
    assert!(value_neg.is_infinite() && value_neg < 0.0);
}

#[test]
fn zero_by_zero_travels_as_nan_bit_for_bit() {
    let req = MathRequest {
        id: 6,
        operation: Operation::Division,
        a: 0.0f64.to_bits(),
        b: 0.0f64.to_bits(),
    };
    let fulfilled = exchange(vec![(req, 9)], 4);
    let (_, res) = fulfilled[0];
    assert!(f64::from_bits(res.res).is_nan());
    // Bit-for-bit: the wire carries exactly the NaN the evaluation produced.
    // black_box keeps the comparison division from being folded at compile
    // time into a differently-signed NaN than the hardware produces.
    let zero = std::hint::black_box(0.0f64);
    assert_eq!(res.res, (zero / zero).to_bits());
}

#[test]
fn corrupt_frame_is_a_fatal_decode_error() {
    let mut sink = SerealSink::new();
    let req = MathRequest { id: 1, operation: Operation::Addition, a: 0, b: 0 };
    sink.start_send(&req).unwrap();
    let mut bytes = sink.unsent();
    bytes[8] = 9;  // operation code outside the defined range
    let mut stream = SerealStreamer::new();
    let e = stream.push_bytes::<MathRequest>(&bytes).unwrap_err();
    assert_eq!(e, ProtocolError::InvalidOperationCode);
}

#[test]
fn undersized_frame_is_a_fatal_decode_error() {
    let mut stream = SerealStreamer::new();
    // A frame whose payload is shorter than any message layout.
    let e = stream.push_bytes::<MathResult>(&vec![2, 0, 0, 0, 1, 1]).unwrap_err();
    assert_eq!(e, ProtocolError::TruncatedInput);
}
