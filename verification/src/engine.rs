//! The generation loop's state machine.
//!
//! One generation run turns a prompt into a reply by driving the sequence
//! model one token at a time. The decisions of that loop — what to hand the
//! collaborators next, how to adjust logits, when to stop — live here, fully
//! verified. The collaborator calls themselves (tokenizer encode/decode,
//! model forward pass and softmax, and the temperature weight transform,
//! which is real-valued) are performed by the caller: each handler consumes
//! a collaborator's answer and returns the next [`Action`] to perform.
//!
//! Phases follow the run's shape: `Idle` until a prompt arrives, `Encoding`
//! while the prompt is tokenized, then a cycle of `AwaitLogits` (forward
//! pass), `AwaitProbs` (penalty adjustment handed out for normalization),
//! `AwaitWeights` (nucleus handed out for the temperature transform) and
//! `AwaitDecode` (sampled token handed out for decoding), until `Done`.
//!
//! A run stops when the sampled token is the end-of-sequence sentinel (`0`),
//! when the accumulated text contains a blank line (`"\n\n"`), or when the
//! step budget is spent. Encode and forward-pass failures are fatal to the
//! run and surfaced as [`RunError`]; normalization and decode failures are
//! recoverable per step, as is a malformed collaborator answer.
use vstd::prelude::*;

use crate::SCALE;
use crate::penalty::{adjust, adjusted, OccurrenceTable};
use crate::sampler::{
    nucleus_size, selected_index, sorted_pairs, valid_probs, select, Sampler,
};

verus! {

/// Whether a byte sequence is valid UTF-8; what `str::from_utf8` accepts.
pub uninterp spec fn utf8_ok(bytes: Seq<u8>) -> bool;

/// Relies on std's `str::from_utf8`: whether a byte sequence is valid UTF-8
/// depends on the bytes alone.
#[verifier::external_body]
fn check_utf8(bytes: &Vec<u8>) -> (r: bool)
    ensures
        r == utf8_ok(bytes@),
{
    std::str::from_utf8(bytes.as_slice()).is_ok()
}

/// Relies on fastrand's `u64`: a draw from the range `0..SCALE` lies below
/// `SCALE`. Nothing more is assumed of the generator.
#[verifier::external_body]
fn random_draw() -> (r: u64)
    ensures
        r < SCALE,
{
    fastrand::u64(0..SCALE)
}

/// Where a generation run stands.
#[derive(Clone, Copy, Debug, PartialEq, Eq, Structural)]
pub enum Phase {
    /// No run in flight.
    Idle,
    /// Waiting for the formatted prompt to be tokenized.
    Encoding,
    /// Waiting for the model's forward pass on the current step input.
    AwaitLogits,
    /// Waiting for the model to normalize the adjusted logits.
    AwaitProbs,
    /// Waiting for the temperature transform of the nucleus weights.
    AwaitWeights,
    /// Waiting for the sampled token to be decoded to text.
    AwaitDecode,
    /// The run ended, by a stop condition or a fatal failure.
    Done,
}

/// Why a run aborted with no published result.
#[derive(Clone, Copy, Debug, PartialEq, Eq, Structural)]
pub enum RunError {
    /// The tokenizer failed to encode the formatted prompt.
    EncodeFailed,
    /// The model's forward pass failed.
    ForwardFailed,
}

/// What the caller must do next on behalf of the loop.
pub enum Action {
    /// Nothing: the event did not apply to the current phase.
    Wait,
    /// Tokenize these bytes and report back with `on_encoded`.
    Encode(Vec<u8>),
    /// Run the model's forward pass and report back with `on_logits`.
    Forward(Vec<u16>),
    /// Normalize these adjusted logits and report back with `on_probs`.
    Normalize(Vec<i64>),
    /// Raise these nucleus probabilities to `1/temperature` (fixed-point,
    /// results at most `SCALE`) and report back with `on_tempered`.
    Temper(Vec<u64>),
    /// Decode this token and report back with `on_decoded`.
    Decode(u16),
    /// The run succeeded: publish this text as the current result.
    Publish(Vec<u8>),
    /// The run aborted: no result; the previous published one stands.
    Fail(RunError),
}

/// ASCII bytes of the user role label, `"User"`.
pub open spec fn user_label() -> Seq<u8> {
    seq![85u8, 115u8, 101u8, 114u8]
}

/// ASCII bytes of the assistant role label, `"Assistant"`.
pub open spec fn assistant_label() -> Seq<u8> {
    seq![65u8, 115u8, 115u8, 105u8, 115u8, 116u8, 97u8, 110u8, 116u8]
}

/// The conversation template a prompt is wrapped in before encoding:
/// `"User: {prompt}\n\nAssistant:"`.
pub open spec fn formatted_prompt(prompt: Seq<u8>) -> Seq<u8> {
    user_label() + seq![58u8, 32u8] + prompt + seq![10u8, 10u8] + assistant_label() + seq![58u8]
}

/// Whether the text contains the stop substring: a blank line, `"\n\n"`.
pub open spec fn has_stop_marker(s: Seq<u8>) -> bool {
    exists|i: int| 0 <= i && i + 1 < s.len() && (#[trigger] s[i]) == 10u8 && s[i + 1] == 10u8
}

/// Nucleus entries re-paired with transformed weights, index by index.
pub open spec fn repaired(nucleus: Seq<(u64, u16)>, w: Seq<u64>) -> Seq<(u64, u16)> {
    Seq::new(nucleus.len(), |i: int| (w[i], nucleus[i].1))
}

/// The default step budget for one run.
pub const DEFAULT_MAX_TOKENS: usize = 1024;

/// Builds the conversation text handed to the tokenizer.
pub fn format_prompt(prompt: &Vec<u8>) -> (r: Vec<u8>)
    ensures
        r@ == formatted_prompt(prompt@),
{
    let mut out: Vec<u8> = Vec::new();
    out.push(85);
    out.push(115);
    out.push(101);
    out.push(114);
    out.push(58);
    out.push(32);
    let mut i: usize = 0;
    while i < prompt.len()
        invariant
            i <= prompt@.len(),
            out@ =~= user_label() + seq![58u8, 32u8] + prompt@.take(i as int),
        decreases prompt@.len() - i,
    {
        out.push(prompt[i]);
        i += 1;
    }
    out.push(10);
    out.push(10);
    out.push(65);
    out.push(115);
    out.push(115);
    out.push(105);
    out.push(115);
    out.push(116);
    out.push(97);
    out.push(110);
    out.push(116);
    out.push(58);
    proof {
        assert(prompt@.take(prompt@.len() as int) =~= prompt@);
        assert(out@ =~= formatted_prompt(prompt@));
    }
    out
}

/// Whether the accumulated text contains the stop substring `"\n\n"`.
pub fn contains_stop_marker(s: &Vec<u8>) -> (r: bool)
    ensures
        r == has_stop_marker(s@),
{
    if s.len() < 2 {
        return false;
    }
    let limit = s.len() - 1;
    let mut i: usize = 0;
    while i < limit
        invariant
            limit == s@.len() - 1,
            i <= limit,
            forall|j: int| 0 <= j < i ==> !((#[trigger] s@[j]) == 10u8 && s@[j + 1] == 10u8),
        decreases s@.len() - i,
    {
        if s[i] == 10 && s[i + 1] == 10 {
            return true;
        }
        i += 1;
    }
    false
}

/// A by-value copy of a vector of plain values.
fn copy_vec<T: Copy>(src: &Vec<T>) -> (r: Vec<T>)
    ensures
        r@ == src@,
{
    let mut out: Vec<T> = Vec::new();
    let mut i: usize = 0;
    while i < src.len()
        invariant
            i <= src@.len(),
            out@ =~= src@.take(i as int),
        decreases src@.len() - i,
    {
        out.push(src[i]);
        i += 1;
    }
    proof {
        assert(src@.take(src@.len() as int) =~= src@);
    }
    out
}

/// Whether every fixed-point weight is at most `1.0`.
fn weights_bounded(w: &Vec<u64>) -> (r: bool)
    ensures
        r == forall|i: int| 0 <= i < w@.len() ==> (#[trigger] w@[i]) <= SCALE,
{
    let mut i: usize = 0;
    while i < w.len()
        invariant
            i <= w@.len(),
            forall|j: int| 0 <= j < i ==> (#[trigger] w@[j]) <= SCALE,
        decreases w@.len() - i,
    {
        if w[i] > SCALE {
            return false;
        }
        i += 1;
    }
    true
}

/// One conversation's generation loop: the sampling configuration, the step
/// budget, and the state of the run in flight, if any.
pub struct GenerationLoop {
    sampler: Sampler,
    max_tokens: usize,
    phase: Phase,
    sentence: Vec<u8>,
    occurrences: OccurrenceTable,
    step_input: Vec<u16>,
    nucleus: Vec<(u64, u16)>,
    pending: u16,
    steps: usize,
}

impl GenerationLoop {
    /// The sampling configuration the run uses.
    pub closed spec fn config(&self) -> Sampler {
        self.sampler
    }

    /// The step budget: the run stops after this many emitted tokens.
    pub closed spec fn max_steps(&self) -> int {
        self.max_tokens as int
    }

    /// Where the run stands.
    pub closed spec fn phase(&self) -> Phase {
        self.phase
    }

    /// The text accumulated so far in this run.
    pub closed spec fn text(&self) -> Seq<u8> {
        self.sentence@
    }

    /// The emission counts recorded so far in this run.
    pub closed spec fn counts(&self) -> Map<u16, u32> {
        self.occurrences@
    }

    /// The tokens the next forward pass will be fed.
    pub closed spec fn input_tokens(&self) -> Seq<u16> {
        self.step_input@
    }

    /// The nucleus awaiting its temperature transform.
    pub closed spec fn nucleus_seq(&self) -> Seq<(u64, u16)> {
        self.nucleus@
    }

    /// The sampled token awaiting its decode.
    pub closed spec fn pending_token(&self) -> u16 {
        self.pending
    }

    /// How many tokens this run has emitted.
    pub closed spec fn steps(&self) -> int {
        self.steps as int
    }

    /// Internal invariant: a valid configuration and occurrence table, a
    /// positive step budget, a spare step while the loop is mid-cycle, and a
    /// well-sized nucleus while its transform is pending.
    pub closed spec fn wf(&self) -> bool {
        &&& self.sampler.wf()
        &&& self.occurrences.wf()
        &&& 1 <= self.max_tokens
        &&& match self.phase {
            Phase::AwaitLogits | Phase::AwaitProbs | Phase::AwaitWeights | Phase::AwaitDecode =>
                self.steps < self.max_tokens,
            Phase::Encoding => self.steps == 0,
            _ => true,
        }
        &&& self.phase is AwaitWeights ==> 1 <= self.nucleus@.len() <= 0x10000
    }

    /// How far the run still has to go: strictly decreases on every handler
    /// call that consumes a successful collaborator answer, and is `0` only
    /// at rest, so a run that keeps being answered reaches `Done` within its
    /// step budget.
    pub closed spec fn measure(&self) -> int {
        match self.phase {
            Phase::Idle => 5 * self.max_tokens + 6,
            Phase::Encoding => 5 * self.max_tokens + 5,
            Phase::Done => 0,
            Phase::AwaitLogits => (self.max_tokens - self.steps) * 5 + 4,
            Phase::AwaitProbs => (self.max_tokens - self.steps) * 5 + 3,
            Phase::AwaitWeights => (self.max_tokens - self.steps) * 5 + 2,
            Phase::AwaitDecode => (self.max_tokens - self.steps) * 5 + 1,
        }
    }

    /// A fresh loop for one conversation slot.
    pub fn new(sampler: Sampler, max_tokens: usize) -> (g: Self)
        requires
            sampler.wf(),
            1 <= max_tokens,
        ensures
            g.wf(),
            g.phase() is Idle,
            g.config() == sampler,
            g.max_steps() == max_tokens,
    {
        GenerationLoop {
            sampler,
            max_tokens,
            phase: Phase::Idle,
            sentence: Vec::new(),
            occurrences: OccurrenceTable::new(),
            step_input: Vec::new(),
            nucleus: Vec::new(),
            pending: 0,
            steps: 0,
        }
    }

    /// The phase, for callers driving the loop.
    pub fn current_phase(&self) -> (p: Phase)
        ensures
            p == self.phase(),
    {
        self.phase
    }

    /// A prompt arrives. From rest (`Idle`, or `Done` after a finished run)
    /// this starts a fresh run: the run state is reset and the caller is
    /// asked to encode the formatted conversation text. A prompt submitted
    /// mid-run is refused; the caller queues it and resubmits after `Done`.
    pub fn submit_prompt(&mut self, prompt: Vec<u8>) -> (act: Action)
        requires
            old(self).wf(),
        ensures
            final(self).wf(),
            final(self).config() == old(self).config(),
            final(self).max_steps() == old(self).max_steps(),
            (old(self).phase() is Idle || old(self).phase() is Done) ==> {
                &&& final(self).phase() is Encoding
                &&& final(self).text() == Seq::<u8>::empty()
                &&& final(self).counts() == Map::<u16, u32>::empty()
                &&& final(self).steps() == 0
                &&& (act matches Action::Encode(b) && b@ == formatted_prompt(prompt@))
            },
            !(old(self).phase() is Idle || old(self).phase() is Done) ==> {
                &&& *final(self) == *old(self)
                &&& act is Wait
            },
    {
        match self.phase {
            Phase::Idle | Phase::Done => {
                self.phase = Phase::Encoding;
                self.sentence = Vec::new();
                self.occurrences = OccurrenceTable::new();
                self.step_input = Vec::new();
                self.steps = 0;
                Action::Encode(format_prompt(&prompt))
            }
            _ => Action::Wait,
        }
    }

    /// The tokenizer's answer to `Encode`. Success moves the run to its
    /// first forward pass; failure is fatal to the run: it ends with no
    /// published result and the failure surfaced.
    pub fn on_encoded(&mut self, tokens: Option<Vec<u16>>) -> (act: Action)
        requires
            old(self).wf(),
        ensures
            final(self).wf(),
            final(self).config() == old(self).config(),
            final(self).max_steps() == old(self).max_steps(),
            old(self).phase() is Encoding ==> final(self).measure() < old(self).measure(),
            (old(self).phase() is Encoding && tokens is Some) ==> {
                &&& final(self).phase() is AwaitLogits
                &&& final(self).input_tokens() == tokens->0@
                &&& final(self).text() == old(self).text()
                &&& final(self).counts() == old(self).counts()
                &&& final(self).steps() == old(self).steps()
                &&& (act matches Action::Forward(v) && v@ == tokens->0@)
            },
            (old(self).phase() is Encoding && tokens is None) ==> {
                &&& final(self).phase() is Done
                &&& (act matches Action::Fail(e) && e is EncodeFailed)
            },
            !(old(self).phase() is Encoding) ==> *final(self) == *old(self) && act is Wait,
    {
        match self.phase {
            Phase::Encoding => match tokens {
                Some(toks) => {
                    self.phase = Phase::AwaitLogits;
                    let again = copy_vec(&toks);
                    self.step_input = toks;
                    Action::Forward(again)
                }
                None => {
                    self.phase = Phase::Done;
                    Action::Fail(RunError::EncodeFailed)
                }
            },
            _ => Action::Wait,
        }
    }

    /// The model's answer to `Forward`. Success hands the caller the
    /// penalty-adjusted logits to normalize; failure is fatal to the run.
    pub fn on_logits(&mut self, logits: Option<Vec<i64>>) -> (act: Action)
        requires
            old(self).wf(),
        ensures
            final(self).wf(),
            final(self).config() == old(self).config(),
            final(self).max_steps() == old(self).max_steps(),
            old(self).phase() is AwaitLogits ==> final(self).measure() < old(self).measure(),
            (old(self).phase() is AwaitLogits && logits is Some) ==> {
                &&& final(self).phase() is AwaitProbs
                &&& final(self).text() == old(self).text()
                &&& final(self).counts() == old(self).counts()
                &&& final(self).steps() == old(self).steps()
                &&& final(self).input_tokens() == old(self).input_tokens()
                &&& (act matches Action::Normalize(v)
                    && v@ == adjusted(logits->0@, old(self).counts(), old(self).config()))
            },
            (old(self).phase() is AwaitLogits && logits is None) ==> {
                &&& final(self).phase() is Done
                &&& (act matches Action::Fail(e) && e is ForwardFailed)
            },
            !(old(self).phase() is AwaitLogits) ==> *final(self) == *old(self) && act is Wait,
    {
        match self.phase {
            Phase::AwaitLogits => match logits {
                Some(mut l) => {
                    adjust(&mut l, &self.occurrences, &self.sampler);
                    self.phase = Phase::AwaitProbs;
                    Action::Normalize(l)
                }
                None => {
                    self.phase = Phase::Done;
                    Action::Fail(RunError::ForwardFailed)
                }
            },
            _ => Action::Wait,
        }
    }

    /// The model's answer to `Normalize`. A valid probability vector is
    /// sorted and truncated to its nucleus, whose probabilities go out for
    /// the temperature transform. A failed or malformed normalization is
    /// recoverable: the same step is retried from the forward pass.
    pub fn on_probs(&mut self, probs: Option<Vec<u64>>) -> (act: Action)
        requires
            old(self).wf(),
        ensures
            final(self).wf(),
            final(self).config() == old(self).config(),
            final(self).max_steps() == old(self).max_steps(),
            (old(self).phase() is AwaitProbs && probs is Some && valid_probs(probs->0@)) ==> {
                &&& final(self).phase() is AwaitWeights
                &&& final(self).text() == old(self).text()
                &&& final(self).counts() == old(self).counts()
                &&& final(self).steps() == old(self).steps()
                &&& final(self).input_tokens() == old(self).input_tokens()
                &&& final(self).nucleus_seq() == sorted_pairs(probs->0@).take(
                    nucleus_size(sorted_pairs(probs->0@), old(self).config().top_p as int),
                )
                &&& (act matches Action::Temper(w) && w@.len() == final(self).nucleus_seq().len()
                    && (forall|i: int| 0 <= i < w@.len()
                        ==> (#[trigger] w@[i]) == final(self).nucleus_seq()[i].0))
                &&& final(self).measure() < old(self).measure()
            },
            (old(self).phase() is AwaitProbs && !(probs is Some && valid_probs(probs->0@))) ==> {
                &&& final(self).phase() is AwaitLogits
                &&& final(self).text() == old(self).text()
                &&& final(self).counts() == old(self).counts()
                &&& final(self).steps() == old(self).steps()
                &&& final(self).input_tokens() == old(self).input_tokens()
                &&& (act matches Action::Forward(v) && v@ == old(self).input_tokens())
            },
            !(old(self).phase() is AwaitProbs) ==> *final(self) == *old(self) && act is Wait,
    {
        match self.phase {
            Phase::AwaitProbs => {
                let usable: Option<Vec<u64>> = match probs {
                    Some(p) => if 1 <= p.len() && p.len() <= 0x10000 && weights_bounded(&p) {
                        Some(p)
                    } else {
                        None
                    },
                    None => None,
                };
                if let Some(p) = usable {
                    let nuc = self.sampler.nucleus(&p);
                    let mut weights: Vec<u64> = Vec::new();
                    let mut i: usize = 0;
                    while i < nuc.len()
                        invariant
                            i <= nuc@.len(),
                            weights@.len() == i,
                            forall|j: int| 0 <= j < i
                                ==> (#[trigger] weights@[j]) == nuc@[j].0,
                        decreases nuc@.len() - i,
                    {
                        weights.push(nuc[i].0);
                        i += 1;
                    }
                    self.nucleus = nuc;
                    self.phase = Phase::AwaitWeights;
                    Action::Temper(weights)
                } else {
                    self.phase = Phase::AwaitLogits;
                    Action::Forward(copy_vec(&self.step_input))
                }
            }
            _ => Action::Wait,
        }
    }

    /// The caller's answer to `Temper`: the nucleus probabilities raised to
    /// `1/temperature`, still fixed-point and at most `SCALE` each. A token
    /// is sampled from the re-weighted nucleus under a fresh random draw and
    /// goes out for decoding. A malformed answer is recoverable: the same
    /// step is retried from the forward pass.
    pub fn on_tempered(&mut self, weights: Vec<u64>) -> (act: Action)
        requires
            old(self).wf(),
        ensures
            final(self).wf(),
            final(self).config() == old(self).config(),
            final(self).max_steps() == old(self).max_steps(),
            (old(self).phase() is AwaitWeights && weights@.len() == old(self).nucleus_seq().len()
                && (forall|i: int| 0 <= i < weights@.len() ==> (#[trigger] weights@[i]) <= SCALE))
                ==> {
                &&& final(self).phase() is AwaitDecode
                &&& final(self).text() == old(self).text()
                &&& final(self).counts() == old(self).counts()
                &&& final(self).steps() == old(self).steps()
                &&& final(self).input_tokens() == old(self).input_tokens()
                &&& (exists|d: u64| d < SCALE && final(self).pending_token()
                    == repaired(old(self).nucleus_seq(), weights@)[
                        selected_index(repaired(old(self).nucleus_seq(), weights@), d as int)
                    ].1)
                &&& (exists|i: int| 0 <= i < old(self).nucleus_seq().len()
                    && final(self).pending_token() == old(self).nucleus_seq()[i].1)
                &&& (act matches Action::Decode(t) && t == final(self).pending_token())
                &&& final(self).measure() < old(self).measure()
            },
            (old(self).phase() is AwaitWeights && !(weights@.len() == old(self).nucleus_seq().len()
                && (forall|i: int| 0 <= i < weights@.len() ==> (#[trigger] weights@[i]) <= SCALE)))
                ==> {
                &&& final(self).phase() is AwaitLogits
                &&& final(self).text() == old(self).text()
                &&& final(self).counts() == old(self).counts()
                &&& final(self).steps() == old(self).steps()
                &&& (act matches Action::Forward(v) && v@ == old(self).input_tokens())
            },
            !(old(self).phase() is AwaitWeights) ==> *final(self) == *old(self) && act is Wait,
    {
        match self.phase {
            Phase::AwaitWeights => {
                if weights.len() == self.nucleus.len() && weights_bounded(&weights) {
                    let ghost re = repaired(self.nucleus@, weights@);
                    let mut paired: Vec<(u64, u16)> = Vec::new();
                    let mut i: usize = 0;
                    while i < weights.len()
                        invariant
                            weights@.len() == self.nucleus@.len(),
                            i <= weights@.len(),
                            re == repaired(self.nucleus@, weights@),
                            paired@ =~= re.take(i as int),
                        decreases weights@.len() - i,
                    {
                        paired.push((weights[i], self.nucleus[i].1));
                        i += 1;
                    }
                    proof {
                        assert(paired@ =~= re);
                    }
                    let draw = random_draw();
                    let token = select(&paired, draw);
                    proof {
                        crate::sampler::lemma_first_reached_in_range(
                            re,
                            draw as int,
                            crate::sampler::prefix_total(re, re.len() as int),
                            0,
                        );
                        assert(re[selected_index(re, draw as int)]
                            == (weights@[selected_index(re, draw as int)],
                                self.nucleus@[selected_index(re, draw as int)].1));
                    }
                    self.pending = token;
                    self.phase = Phase::AwaitDecode;
                    Action::Decode(token)
                } else {
                    self.phase = Phase::AwaitLogits;
                    Action::Forward(copy_vec(&self.step_input))
                }
            }
            _ => Action::Wait,
        }
    }

    /// The tokenizer's answer to `Decode`, closing one step. Valid UTF-8 is
    /// appended to the text; a failed decode or invalid bytes skip the
    /// append but the step still counts. The token's occurrence is recorded,
    /// it becomes the next step input, and the run ends — publishing the
    /// text — if it was the end-of-sequence sentinel, if the text now holds
    /// a blank line, or if the step budget is spent.
    pub fn on_decoded(&mut self, bytes: Option<Vec<u8>>) -> (act: Action)
        requires
            old(self).wf(),
        ensures
            final(self).wf(),
            final(self).config() == old(self).config(),
            final(self).max_steps() == old(self).max_steps(),
            old(self).phase() is AwaitDecode ==> {
                let appended = match bytes {
                    Some(b) => if utf8_ok(b@) {
                        b@
                    } else {
                        Seq::<u8>::empty()
                    },
                    None => Seq::<u8>::empty(),
                };
                let newtext = old(self).text() + appended;
                let stop = old(self).pending_token() == 0 || has_stop_marker(newtext)
                    || old(self).steps() + 1 >= old(self).max_steps();
                &&& final(self).text() == newtext
                &&& final(self).counts() == old(self).counts().insert(
                    old(self).pending_token(),
                    if old(self).counts().contains_key(old(self).pending_token()) {
                        old(self).counts()[old(self).pending_token()]
                    } else {
                        1u32
                    },
                )
                &&& final(self).steps() == old(self).steps() + 1
                &&& final(self).input_tokens() == seq![old(self).pending_token()]
                &&& (stop ==> final(self).phase() is Done
                    && (act matches Action::Publish(t) && t@ == newtext))
                &&& (!stop ==> final(self).phase() is AwaitLogits
                    && (act matches Action::Forward(v) && v@ == seq![old(self).pending_token()]))
                &&& final(self).measure() < old(self).measure()
            },
            !(old(self).phase() is AwaitDecode) ==> *final(self) == *old(self) && act is Wait,
    {
        match self.phase {
            Phase::AwaitDecode => {
                match bytes {
                    Some(b) => {
                        if check_utf8(&b) {
                            let mut i: usize = 0;
                            let ghost before = self.sentence@;
                            while i < b.len()
                                invariant
                                    i <= b@.len(),
                                    self.sentence@ =~= before + b@.take(i as int),
                                    self.sampler == old(self).sampler,
                                    self.max_tokens == old(self).max_tokens,
                                    self.phase == old(self).phase,
                                    self.occurrences == old(self).occurrences,
                                    self.step_input == old(self).step_input,
                                    self.nucleus == old(self).nucleus,
                                    self.pending == old(self).pending,
                                    self.steps == old(self).steps,
                                decreases b@.len() - i,
                            {
                                self.sentence.push(b[i]);
                                i += 1;
                            }
                            proof {
                                assert(self.sentence@ =~= before + b@);
                            }
                        } else {
                            proof {
                                assert(self.sentence@ =~= self.sentence@ + Seq::<u8>::empty());
                            }
                        }
                    }
                    None => {
                        proof {
                            assert(self.sentence@ =~= self.sentence@ + Seq::<u8>::empty());
                        }
                    }
                }
                self.occurrences.record(self.pending);
                let mut next: Vec<u16> = Vec::new();
                next.push(self.pending);
                self.step_input = next;
                self.steps += 1;
                let stop = self.pending == 0 || contains_stop_marker(&self.sentence)
                    || self.steps >= self.max_tokens;
                if stop {
                    self.phase = Phase::Done;
                    Action::Publish(copy_vec(&self.sentence))
                } else {
                    self.phase = Phase::AwaitLogits;
                    Action::Forward(copy_vec(&self.step_input))
                }
            }
            _ => Action::Wait,
        }
    }
}

/// Law: handing the nucleus probabilities back unchanged — the identity
/// temperature transform, which is what temperature `1.0` means — re-pairs
/// the nucleus with itself, so the token sampled by the loop is exactly the
/// nucleus sample of the distribution ([`crate::sampler::sample_spec`]).
pub proof fn lemma_identity_weights(nucleus: Seq<(u64, u16)>, w: Seq<u64>)
    requires
        w.len() == nucleus.len(),
        forall|i: int| 0 <= i < w.len() ==> (#[trigger] w[i]) == nucleus[i].0,
    ensures
        repaired(nucleus, w) == nucleus,
{
    assert(repaired(nucleus, w) =~= nucleus);
}

/// Law: the progress measure is nonnegative and bounded by a linear function
/// of the step budget; with every successful collaborator answer strictly
/// decreasing it (see the handlers' contracts), a run against collaborators
/// that keep answering — finite logits, successful decodes — terminates
/// within its step budget.
pub proof fn lemma_progress_budget(g: GenerationLoop)
    requires
        g.wf(),
    ensures
        0 <= g.measure() <= 5 * g.max_steps() + 6,
{
}

} // verus!
