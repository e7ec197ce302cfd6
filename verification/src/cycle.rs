use vstd::prelude::*;

use crate::portal::CaptchaState;
use crate::solver::{concat_labels, decode, filter_confident, sort_by_x, Detection};

verus! {

/// How one polling cycle ended: the challenge was solved, or none was
/// required in the first place.
#[derive(Clone, Copy, PartialEq, Eq, Structural, Debug)]
pub enum Outcome {
    Solved,
    NotRequired,
}

/// The fatal failure a cycle can reach on its own: the attempt budget of one
/// challenge episode ran out.
#[derive(Clone, Copy, PartialEq, Eq, Structural, Debug)]
pub enum CycleError {
    TooManyAttempts,
}

/// The next step the caller must perform for the cycle. Network rounds and
/// sleeps stay with the caller; the cycle only decides.
pub enum Action {
    /// Fetch and parse the portal state page, then report it to `on_state`.
    FetchState,
    /// The portal rejected a prior submission with this message: wait the
    /// configured backoff, then report through `on_backoff_done`.
    Backoff(String),
    /// Fetch a challenge image under this session id, run the detector, and
    /// report the detections to `on_detections`.
    FetchChallenge(String),
    /// Submit this solution under this session id, and report the parsed
    /// response to `on_state`.
    Submit(String, String),
    /// The cycle is over, with this outcome and the final status message.
    Finish(Outcome, Option<String>),
    /// The cycle is over: no more steps may be fed to it.
    Fail(CycleError),
}

/// What the cycle is waiting for.
#[derive(Clone, Copy, PartialEq, Eq, Structural, Debug)]
pub enum Phase {
    /// Waiting for a portal state page.
    Polling,
    /// Waiting for the post-rejection backoff to elapse.
    Backoff,
    /// Waiting for a challenge image's detections.
    Attempting,
    /// Waiting for the portal's answer to a submission.
    Submitting,
    /// Terminal: the cycle finished or failed.
    Done,
}

/// One polling cycle of the solve loop, driven step by step by a caller
/// that performs the network rounds, the detector runs and the sleeps.
///
/// The attempt counter is per challenge episode: every portal state that
/// shows an active challenge starts a fresh episode with a fresh budget, so
/// a wrong solution that loops back does not inherit the spent attempts.
pub struct SolveCycle {
    pub phase: Phase,
    /// Whether any state of this cycle showed an active challenge.
    pub was_required: bool,
    /// Session id of the current episode; meaningful once a challenge was seen.
    pub session_id: String,
    /// Attempts spent in the current challenge episode.
    pub tries: u32,
    /// Attempt budget of one challenge episode.
    pub max_tries: u32,
    /// Confidence a detection must reach to count, for the decoder.
    pub min_confidence: u64,
    /// Number of symbols every challenge holds, for the decoder.
    pub expected_length: usize,
}

impl SolveCycle {
    /// A fresh cycle, waiting for the first portal state.
    pub fn new(max_tries: u32, min_confidence: u64, expected_length: usize) -> (c: Self)
        ensures
            c.phase == Phase::Polling,
            !c.was_required,
            c.session_id@ == Seq::<char>::empty(),
            c.tries == 0,
            c.max_tries == max_tries,
            c.min_confidence == min_confidence,
            c.expected_length == expected_length,
    {
        SolveCycle {
            phase: Phase::Polling,
            was_required: false,
            session_id: String::new(),
            tries: 0,
            max_tries,
            min_confidence,
            expected_length,
        }
    }

    /// Charges one attempt of the current episode: fetch a fresh challenge
    /// image while the budget lasts, fail the cycle once it is spent.
    fn next_attempt(&mut self) -> (a: Action)
        ensures
            final(self).was_required == old(self).was_required,
            final(self).session_id == old(self).session_id,
            final(self).max_tries == old(self).max_tries,
            final(self).min_confidence == old(self).min_confidence,
            final(self).expected_length == old(self).expected_length,
            old(self).tries < old(self).max_tries ==> {
                &&& final(self).phase == Phase::Attempting
                &&& final(self).tries == old(self).tries + 1
                &&& a == Action::FetchChallenge(old(self).session_id)
            },
            old(self).tries >= old(self).max_tries ==> {
                &&& final(self).phase == Phase::Done
                &&& final(self).tries == old(self).tries
                &&& a == Action::Fail(CycleError::TooManyAttempts)
            },
    {
        if self.tries < self.max_tries {
            self.tries = self.tries + 1;
            self.phase = Phase::Attempting;
            Action::FetchChallenge(self.session_id.clone())
        } else {
            self.phase = Phase::Done;
            Action::Fail(CycleError::TooManyAttempts)
        }
    }

    /// Feeds the parsed portal state that answered a `FetchState` or a
    /// `Submit` round, and decides the next step.
    ///
    /// No challenge ends the cycle: solved if one was ever seen, otherwise
    /// not required — without any challenge fetch or submission. An active
    /// challenge starts a new episode under the state's session id; a status
    /// message on it means the portal rejected a prior submission, so the
    /// caller backs off before the episode begins.
    pub fn on_state(&mut self, st: CaptchaState) -> (a: Action)
        requires
            old(self).phase == Phase::Polling || old(self).phase == Phase::Submitting,
        ensures
            final(self).max_tries == old(self).max_tries,
            final(self).min_confidence == old(self).min_confidence,
            final(self).expected_length == old(self).expected_length,
            !st.captcha_present ==> {
                &&& final(self).phase == Phase::Done
                &&& final(self).was_required == old(self).was_required
                &&& a == Action::Finish(
                    if old(self).was_required {
                        Outcome::Solved
                    } else {
                        Outcome::NotRequired
                    },
                    st.message,
                )
            },
            st.captcha_present ==> {
                &&& final(self).was_required
                &&& final(self).session_id == st.session_id
            },
            st.captcha_present && st.message is Some ==> {
                &&& final(self).phase == Phase::Backoff
                &&& final(self).tries == 0
                &&& (st.message matches Some(m) ==> a == Action::Backoff(m))
            },
            st.captcha_present && st.message is None && old(self).max_tries > 0 ==> {
                &&& final(self).phase == Phase::Attempting
                &&& final(self).tries == 1
                &&& a == Action::FetchChallenge(st.session_id)
            },
            st.captcha_present && st.message is None && old(self).max_tries == 0 ==> {
                &&& final(self).phase == Phase::Done
                &&& a == Action::Fail(CycleError::TooManyAttempts)
            },
    {
        if !st.captcha_present {
            self.phase = Phase::Done;
            let outcome = if self.was_required {
                Outcome::Solved
            } else {
                Outcome::NotRequired
            };
            Action::Finish(outcome, st.message)
        } else {
            self.was_required = true;
            self.session_id = st.session_id;
            self.tries = 0;
            match st.message {
                Some(m) => {
                    self.phase = Phase::Backoff;
                    Action::Backoff(m)
                },
                None => self.next_attempt(),
            }
        }
    }

    /// Reports that the post-rejection backoff has elapsed; the episode then
    /// starts attempting.
    pub fn on_backoff_done(&mut self) -> (a: Action)
        requires
            old(self).phase == Phase::Backoff,
        ensures
            final(self).was_required == old(self).was_required,
            final(self).session_id == old(self).session_id,
            final(self).max_tries == old(self).max_tries,
            final(self).min_confidence == old(self).min_confidence,
            final(self).expected_length == old(self).expected_length,
            old(self).tries < old(self).max_tries ==> {
                &&& final(self).phase == Phase::Attempting
                &&& final(self).tries == old(self).tries + 1
                &&& a == Action::FetchChallenge(old(self).session_id)
            },
            old(self).tries >= old(self).max_tries ==> {
                &&& final(self).phase == Phase::Done
                &&& a == Action::Fail(CycleError::TooManyAttempts)
            },
    {
        self.next_attempt()
    }

    /// Feeds the detection set produced for the last fetched challenge
    /// image. A set that decodes is submitted under the episode's session
    /// id; one that does not is retried with a fresh image until the
    /// episode's attempt budget is spent.
    pub fn on_detections(&mut self, detections: Vec<Detection>) -> (a: Action)
        requires
            old(self).phase == Phase::Attempting,
        ensures
            final(self).was_required == old(self).was_required,
            final(self).session_id == old(self).session_id,
            final(self).max_tries == old(self).max_tries,
            final(self).min_confidence == old(self).min_confidence,
            final(self).expected_length == old(self).expected_length,
            filter_confident(detections@, old(self).min_confidence).len() == old(
                self,
            ).expected_length ==> {
                &&& final(self).phase == Phase::Submitting
                &&& final(self).tries == old(self).tries
                &&& a matches Action::Submit(sid, sol) && sid == old(self).session_id
                    && sol@ == concat_labels(
                    sort_by_x(filter_confident(detections@, old(self).min_confidence)),
                )
            },
            filter_confident(detections@, old(self).min_confidence).len() != old(
                self,
            ).expected_length && old(self).tries < old(self).max_tries ==> {
                &&& final(self).phase == Phase::Attempting
                &&& final(self).tries == old(self).tries + 1
                &&& a == Action::FetchChallenge(old(self).session_id)
            },
            filter_confident(detections@, old(self).min_confidence).len() != old(
                self,
            ).expected_length && old(self).tries >= old(self).max_tries ==> {
                &&& final(self).phase == Phase::Done
                &&& a == Action::Fail(CycleError::TooManyAttempts)
            },
    {
        let min_confidence = self.min_confidence;
        let expected_length = self.expected_length;
        match decode(detections, min_confidence, expected_length) {
            Ok(solution) => {
                self.phase = Phase::Submitting;
                Action::Submit(self.session_id.clone(), solution)
            },
            Err(_) => self.next_attempt(),
        }
    }
}

} // verus!
