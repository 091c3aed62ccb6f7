use chatter::engine::{format_prompt, Action, GenerationLoop, Phase, RunError, DEFAULT_MAX_TOKENS};
use chatter::penalty::NEG_INF_LOGIT;
use chatter::sampler::Sampler;
use chatter::SCALE;

fn start_run(g: &mut GenerationLoop, prompt: &str) -> Vec<u8> {
    match g.submit_prompt(prompt.as_bytes().to_vec()) {
        Action::Encode(text) => text,
        _ => panic!("a prompt from rest must ask for an encode"),
    }
}

// Drives one full step: forward pass, normalization, identity temperature
// transform, then hands back the decoded bytes. Returns the final action.
fn drive_step(g: &mut GenerationLoop, probs: Vec<u64>, decoded: Option<Vec<u8>>) -> Action {
    let adjusted = match g.on_logits(Some(vec![0; probs.len()])) {
        Action::Normalize(l) => l,
        _ => panic!("logits must be handed out for normalization"),
    };
    assert_eq!(adjusted[0], NEG_INF_LOGIT);
    let weights = match g.on_probs(Some(probs)) {
        Action::Temper(w) => w,
        _ => panic!("a valid distribution must be handed out for tempering"),
    };
    match g.on_tempered(weights) {
        Action::Decode(_) => {}
        _ => panic!("a sampled token must be handed out for decoding"),
    }
    g.on_decoded(decoded)
}

#[test]
fn prompt_is_wrapped_in_conversation_template() {
    let text = format_prompt(&b"How are you?".to_vec());
    assert_eq!(text, b"User: How are you?\n\nAssistant:".to_vec());
}

#[test]
fn prompt_submission_encodes_formatted_text() {
    let mut g = GenerationLoop::new(Sampler::default(), DEFAULT_MAX_TOKENS);
    assert_eq!(g.current_phase(), Phase::Idle);
    let text = start_run(&mut g, "Hi");
    assert_eq!(text, b"User: Hi\n\nAssistant:".to_vec());
    assert_eq!(g.current_phase(), Phase::Encoding);
}

#[test]
fn encode_failure_aborts_the_run() {
    let mut g = GenerationLoop::new(Sampler::default(), DEFAULT_MAX_TOKENS);
    start_run(&mut g, "Hi");
    match g.on_encoded(None) {
        Action::Fail(RunError::EncodeFailed) => {}
        _ => panic!("an encode failure must surface as EncodeFailed"),
    }
    assert_eq!(g.current_phase(), Phase::Done);
}

#[test]
fn forward_failure_aborts_the_run() {
    let mut g = GenerationLoop::new(Sampler::default(), DEFAULT_MAX_TOKENS);
    start_run(&mut g, "Hi");
    g.on_encoded(Some(vec![5, 6]));
    match g.on_logits(None) {
        Action::Fail(RunError::ForwardFailed) => {}
        _ => panic!("a forward-pass failure must surface as ForwardFailed"),
    }
    assert_eq!(g.current_phase(), Phase::Done);
}

#[test]
fn normalization_failure_retries_the_same_step() {
    let mut g = GenerationLoop::new(Sampler::default(), DEFAULT_MAX_TOKENS);
    start_run(&mut g, "Hi");
    g.on_encoded(Some(vec![5, 6]));
    match g.on_logits(Some(vec![0, 0, 0])) {
        Action::Normalize(_) => {}
        _ => panic!("logits must be handed out for normalization"),
    }
    match g.on_probs(None) {
        Action::Forward(v) => assert_eq!(v, vec![5, 6]),
        _ => panic!("a failed normalization must retry the forward pass"),
    }
    assert_eq!(g.current_phase(), Phase::AwaitLogits);
}

#[test]
fn sentinel_token_stops_the_run() {
    let mut g = GenerationLoop::new(Sampler::default(), DEFAULT_MAX_TOKENS);
    start_run(&mut g, "Hi");
    g.on_encoded(Some(vec![5]));
    // only token id 0 has mass, so the sentinel is sampled and the run ends
    match drive_step(&mut g, vec![SCALE], Some(b"x".to_vec())) {
        Action::Publish(text) => assert_eq!(text, b"x".to_vec()),
        _ => panic!("the sentinel must end the run with a published result"),
    }
    assert_eq!(g.current_phase(), Phase::Done);
}

// Scenario: a collaborator that decodes every sampled token to "\n" must
// stop the run after the second step with accumulated text "\n\n".
#[test]
fn repeated_newline_stops_after_second_step() {
    let mut g = GenerationLoop::new(Sampler::default(), DEFAULT_MAX_TOKENS);
    start_run(&mut g, "Hi");
    g.on_encoded(Some(vec![5]));
    // all mass on token id 1, so the sampled token is never the sentinel
    let probs: Vec<u64> = vec![0, SCALE];
    match drive_step(&mut g, probs.clone(), Some(b"\n".to_vec())) {
        Action::Forward(v) => assert_eq!(v, vec![1]),
        _ => panic!("one newline must not stop the run"),
    }
    match drive_step(&mut g, probs, Some(b"\n".to_vec())) {
        Action::Publish(text) => assert_eq!(text, b"\n\n".to_vec()),
        _ => panic!("a blank line must stop the run"),
    }
    assert_eq!(g.current_phase(), Phase::Done);
}

// A step budget of one ends the run after a single emitted token, even
// though neither the sentinel nor the stop substring appeared.
#[test]
fn step_budget_stops_the_run() {
    let mut g = GenerationLoop::new(Sampler::default(), 1);
    start_run(&mut g, "Hi");
    g.on_encoded(Some(vec![5]));
    match drive_step(&mut g, vec![0, SCALE], Some(b"a".to_vec())) {
        Action::Publish(text) => assert_eq!(text, b"a".to_vec()),
        _ => panic!("a spent step budget must end the run"),
    }
}

// A failed decode skips the text append but the run continues and the
// step still counts towards the budget.
#[test]
fn decode_failure_skips_append_but_continues() {
    let mut g = GenerationLoop::new(Sampler::default(), 2);
    start_run(&mut g, "Hi");
    g.on_encoded(Some(vec![5]));
    match drive_step(&mut g, vec![0, SCALE], None) {
        Action::Forward(v) => assert_eq!(v, vec![1]),
        _ => panic!("a decode failure must not end the run"),
    }
    match drive_step(&mut g, vec![0, SCALE], Some(b"ok".to_vec())) {
        Action::Publish(text) => assert_eq!(text, b"ok".to_vec()),
        _ => panic!("the budget of two steps is now spent"),
    }
}

// Bytes that are not valid UTF-8 are skipped exactly like a failed decode.
#[test]
fn invalid_utf8_is_skipped() {
    let mut g = GenerationLoop::new(Sampler::default(), 2);
    start_run(&mut g, "Hi");
    g.on_encoded(Some(vec![5]));
    match drive_step(&mut g, vec![0, SCALE], Some(vec![0xFF, 0xFE])) {
        Action::Forward(_) => {}
        _ => panic!("invalid text must not end the run"),
    }
    match drive_step(&mut g, vec![0, SCALE], Some(b"ok".to_vec())) {
        Action::Publish(text) => assert_eq!(text, b"ok".to_vec()),
        _ => panic!("only the valid fragment may appear in the result"),
    }
}

// A prompt submitted mid-run is refused; after Done a new run may start.
#[test]
fn midrun_prompts_are_refused() {
    let mut g = GenerationLoop::new(Sampler::default(), DEFAULT_MAX_TOKENS);
    start_run(&mut g, "Hi");
    g.on_encoded(Some(vec![5]));
    match g.submit_prompt(b"again".to_vec()) {
        Action::Wait => {}
        _ => panic!("a prompt must not preempt a run in flight"),
    }
    assert_eq!(g.current_phase(), Phase::AwaitLogits);
    drive_step(&mut g, vec![SCALE], Some(b"x".to_vec()));
    assert_eq!(g.current_phase(), Phase::Done);
    let text = start_run(&mut g, "again");
    assert_eq!(text, b"User: again\n\nAssistant:".to_vec());
}

// Events that do not match the phase are ignored without touching the run.
#[test]
fn mismatched_events_are_ignored() {
    let mut g = GenerationLoop::new(Sampler::default(), DEFAULT_MAX_TOKENS);
    match g.on_decoded(Some(b"x".to_vec())) {
        Action::Wait => {}
        _ => panic!("an idle loop has nothing to decode"),
    }
    match g.on_logits(Some(vec![1, 2])) {
        Action::Wait => {}
        _ => panic!("an idle loop expects no logits"),
    }
    assert_eq!(g.current_phase(), Phase::Idle);
}

// An oversized or malformed probability vector is recoverable: the step is
// retried rather than sampled from garbage.
#[test]
fn malformed_probabilities_retry_the_step() {
    let mut g = GenerationLoop::new(Sampler::default(), DEFAULT_MAX_TOKENS);
    start_run(&mut g, "Hi");
    g.on_encoded(Some(vec![5, 6]));
    g.on_logits(Some(vec![0, 0]));
    // a value above SCALE is not a probability
    match g.on_probs(Some(vec![SCALE + 1, 0])) {
        Action::Forward(v) => assert_eq!(v, vec![5, 6]),
        _ => panic!("a malformed distribution must retry the forward pass"),
    }
}

#[test]
fn default_step_budget_is_1024() {
    assert_eq!(DEFAULT_MAX_TOKENS, 1024);
}

// With collaborators that always answer, a run never takes more full steps
// than its budget allows.
#[test]
fn run_ends_within_step_budget() {
    let mut g = GenerationLoop::new(Sampler::default(), 3);
    start_run(&mut g, "Hi");
    g.on_encoded(Some(vec![5]));
    let mut steps: usize = 0;
    loop {
        match drive_step(&mut g, vec![0, SCALE], Some(b"a".to_vec())) {
            Action::Publish(text) => {
                assert_eq!(text, b"aaa".to_vec());
                break;
            }
            Action::Forward(_) => {
                steps += 1;
                assert!(steps < 3);
            }
            _ => panic!("the run must either continue or publish"),
        }
    }
}

// A token emitted in one step sees its logit lowered on the next: the
// sentinel stays floored and the emitted token loses presence + frequency.
#[test]
fn emitted_tokens_are_penalized_next_step() {
    let mut g = GenerationLoop::new(Sampler::default(), DEFAULT_MAX_TOKENS);
    start_run(&mut g, "Hi");
    g.on_encoded(Some(vec![5]));
    match drive_step(&mut g, vec![0, SCALE], Some(b"a".to_vec())) {
        Action::Forward(v) => assert_eq!(v, vec![1]),
        _ => panic!("the first step must continue the run"),
    }
    match g.on_logits(Some(vec![500_000, 500_000])) {
        Action::Normalize(v) => {
            assert_eq!(v[0], NEG_INF_LOGIT);
            assert_eq!(v[1], -100_000);
        }
        _ => panic!("logits must be handed out for normalization"),
    }
}
