use aero2solver::get_model_path;
use aero2solver::solver::{decode, Aero2Solver, DecodeError, Detection};

fn det(x: u64, label: &str, confidence: u64) -> Detection {
    Detection { x, label: label.to_string(), confidence }
}

#[test]
fn decode_orders_by_x() {
    let dets = vec![det(30, "7", 95), det(10, "A", 95), det(20, "3", 95)];
    let solution = decode(dets, 90, 3).unwrap();
    assert_eq!(solution, "A37");
}

#[test]
fn decode_rejects_wrong_count() {
    let dets = vec![det(10, "A", 95), det(20, "3", 95)];
    let err = decode(dets, 90, 3).unwrap_err();
    assert_eq!(err, DecodeError::LengthMismatch { expected: 3, actual: 2 });
}

#[test]
fn decode_rejects_too_many() {
    let dets = vec![det(10, "A", 95), det(20, "3", 95), det(30, "7", 95), det(40, "9", 95)];
    let err = decode(dets, 90, 3).unwrap_err();
    assert_eq!(err, DecodeError::LengthMismatch { expected: 3, actual: 4 });
}

#[test]
fn decode_counts_only_confident() {
    // The low-confidence detection is discarded entirely, so the remaining
    // three decode cleanly.
    let dets = vec![det(30, "7", 95), det(10, "A", 95), det(25, "X", 50), det(20, "3", 95)];
    let solution = decode(dets, 90, 3).unwrap();
    assert_eq!(solution, "A37");
}

#[test]
fn decode_discards_below_threshold_never_pads() {
    // Discarding drops the count below the expected length: rejected, not
    // padded with the low-confidence detection.
    let dets = vec![det(10, "A", 95), det(20, "3", 89), det(30, "7", 95)];
    let err = decode(dets, 90, 3).unwrap_err();
    assert_eq!(err, DecodeError::LengthMismatch { expected: 3, actual: 2 });
}

#[test]
fn decode_empty_set() {
    let err = decode(Vec::new(), 90, 8).unwrap_err();
    assert_eq!(err, DecodeError::LengthMismatch { expected: 8, actual: 0 });
    let solution = decode(Vec::new(), 90, 0).unwrap();
    assert_eq!(solution, "");
}

#[test]
fn decode_threshold_monotonic() {
    // Raising the threshold never adds a detection; lowering it never
    // removes an accepted one.
    let dets = || vec![det(10, "A", 95), det(20, "3", 80), det(30, "7", 70)];
    assert_eq!(decode(dets(), 70, 3).unwrap(), "A37");
    let err = decode(dets(), 80, 3).unwrap_err();
    assert_eq!(err, DecodeError::LengthMismatch { expected: 3, actual: 2 });
    assert_eq!(decode(dets(), 80, 2).unwrap(), "A3");
    assert_eq!(decode(dets(), 96, 3).unwrap_err(), DecodeError::LengthMismatch {
        expected: 3,
        actual: 0,
    });
}

#[test]
fn decode_permutation_invariant() {
    let a = vec![det(30, "7", 95), det(10, "A", 95), det(20, "3", 95)];
    let b = vec![det(10, "A", 95), det(20, "3", 95), det(30, "7", 95)];
    assert_eq!(decode(a, 90, 3).unwrap(), decode(b, 90, 3).unwrap());
}

#[test]
fn decode_equal_x_keeps_input_order() {
    let dets = vec![det(10, "A", 95), det(10, "B", 95), det(5, "C", 95)];
    assert_eq!(decode(dets, 90, 3).unwrap(), "CAB");
}

#[test]
fn decode_multi_char_labels() {
    let dets = vec![det(20, "cd", 95), det(10, "ab", 95)];
    assert_eq!(decode(dets, 90, 2).unwrap(), "abcd");
}

#[test]
fn solver_uses_its_configuration() {
    let solver = Aero2Solver::new(90, 3);
    let dets = vec![det(30, "7", 95), det(10, "A", 95), det(20, "3", 95)];
    assert_eq!(solver.solve(dets).unwrap(), "A37");
    let solver8 = Aero2Solver::new(90, 8);
    let dets = vec![det(30, "7", 95), det(10, "A", 95), det(20, "3", 95)];
    assert_eq!(
        solver8.solve(dets).unwrap_err(),
        DecodeError::LengthMismatch { expected: 8, actual: 3 }
    );
}

#[test]
fn model_path_joins_with_slash() {
    assert_eq!(get_model_path("./model", "captcha.cfg"), "./model/captcha.cfg");
    assert_eq!(get_model_path("/opt/models", "captcha.weights"), "/opt/models/captcha.weights");
}
