use aero2solver::cycle::{Action, CycleError, Outcome, Phase, SolveCycle};
use aero2solver::portal::CaptchaState;
use aero2solver::solver::Detection;

fn det(x: u64, label: &str, confidence: u64) -> Detection {
    Detection { x, label: label.to_string(), confidence }
}

fn state(captcha_present: bool, session_id: &str, message: Option<&str>) -> CaptchaState {
    CaptchaState {
        captcha_present,
        session_id: session_id.to_string(),
        message: message.map(|m| m.to_string()),
    }
}

#[test]
fn no_challenge_finishes_without_fetch_or_submit() {
    let mut cy = SolveCycle::new(20, 90, 3);
    let action = cy.on_state(state(false, "sess1", None));
    match action {
        Action::Finish(outcome, message) => {
            assert_eq!(outcome, Outcome::NotRequired);
            assert_eq!(message, None);
        }
        _ => panic!("expected the cycle to finish"),
    }
    assert_eq!(cy.phase, Phase::Done);
    assert!(!cy.was_required);
}

#[test]
fn third_attempt_succeeds_and_submits() {
    let mut cy = SolveCycle::new(20, 90, 3);
    let action = cy.on_state(state(true, "sess1", None));
    assert!(matches!(action, Action::FetchChallenge(ref sid) if sid == "sess1"));
    assert_eq!(cy.tries, 1);

    // First two images under-segment: only two confident detections.
    let action = cy.on_detections(vec![det(10, "A", 95), det(20, "3", 95)]);
    assert!(matches!(action, Action::FetchChallenge(_)));
    assert_eq!(cy.tries, 2);
    let action = cy.on_detections(vec![det(10, "A", 95), det(20, "3", 95)]);
    assert!(matches!(action, Action::FetchChallenge(_)));
    assert_eq!(cy.tries, 3);

    // Third image decodes; the solution reads the labels left to right.
    let action = cy.on_detections(vec![det(30, "7", 95), det(10, "A", 95), det(20, "3", 95)]);
    match action {
        Action::Submit(sid, solution) => {
            assert_eq!(sid, "sess1");
            assert_eq!(solution, "A37");
        }
        _ => panic!("expected a submission"),
    }
    assert_eq!(cy.phase, Phase::Submitting);
}

#[test]
fn rejected_submission_backs_off_then_starts_fresh_episode() {
    let mut cy = SolveCycle::new(20, 90, 3);
    cy.on_state(state(true, "sess1", None));
    cy.on_detections(vec![det(30, "7", 95), det(10, "A", 95), det(20, "3", 95)]);
    assert_eq!(cy.phase, Phase::Submitting);

    // The portal still shows a challenge and explains why: back off first.
    let action = cy.on_state(state(true, "sess2", Some("Wrong solution")));
    assert!(matches!(action, Action::Backoff(ref m) if m == "Wrong solution"));
    assert_eq!(cy.phase, Phase::Backoff);

    // The attempt counter is per episode: the new episode starts at one.
    let action = cy.on_backoff_done();
    assert!(matches!(action, Action::FetchChallenge(ref sid) if sid == "sess2"));
    assert_eq!(cy.tries, 1);
    assert_eq!(cy.phase, Phase::Attempting);
}

#[test]
fn solved_when_challenge_disappears_after_submission() {
    let mut cy = SolveCycle::new(20, 90, 3);
    cy.on_state(state(true, "sess1", None));
    cy.on_detections(vec![det(30, "7", 95), det(10, "A", 95), det(20, "3", 95)]);
    let action = cy.on_state(state(false, "sess1", Some("Access granted")));
    match action {
        Action::Finish(outcome, message) => {
            assert_eq!(outcome, Outcome::Solved);
            assert_eq!(message.as_deref(), Some("Access granted"));
        }
        _ => panic!("expected the cycle to finish"),
    }
}

#[test]
fn attempt_budget_exhausts_into_failure() {
    let mut cy = SolveCycle::new(2, 90, 3);
    let action = cy.on_state(state(true, "sess1", None));
    assert!(matches!(action, Action::FetchChallenge(_)));
    let action = cy.on_detections(Vec::new());
    assert!(matches!(action, Action::FetchChallenge(_)));
    assert_eq!(cy.tries, 2);
    let action = cy.on_detections(Vec::new());
    assert!(matches!(action, Action::Fail(CycleError::TooManyAttempts)));
    assert_eq!(cy.phase, Phase::Done);
}
