use chatter::penalty::{adjust, OccurrenceTable, NEG_INF_LOGIT};
use chatter::sampler::{select, Sampler};
use chatter::SCALE;

fn scenario_sampler(top_p: u64) -> Sampler {
    let mut s = Sampler::default();
    s.top_p = top_p;
    s
}

#[test]
fn default_configuration() {
    let s = Sampler::default();
    assert_eq!(s.top_p, SCALE / 2);
    assert_eq!(s.temp, SCALE);
    assert_eq!(s.presence_penalty, 300_000);
    assert_eq!(s.frequency_penalty, 300_000);
}

// Scenario: probabilities [0.5, 0.3, 0.2], top_p = 0.7, temperature 1.0.
// The running sum admits id0 (cum 0.5) and id1 (cum 0.8, crossing the
// threshold as the last admitted entry) and excludes id2.
#[test]
fn nucleus_admits_boundary_crosser() {
    let s = scenario_sampler(700_000);
    let probs: Vec<u64> = vec![500_000, 300_000, 200_000];
    let nucleus = s.nucleus(&probs);
    assert_eq!(nucleus, vec![(500_000, 0), (300_000, 1)]);
}

// Renormalized over 0.8, the cumulative weights are id0 -> 0.625 and
// id1 -> 1.0; the first cumulative weight at or above the draw wins.
#[test]
fn cumulative_boundary_is_exact() {
    let weights: Vec<(u64, u16)> = vec![(500_000, 0), (300_000, 1)];
    assert_eq!(select(&weights, 0), 0);
    assert_eq!(select(&weights, 625_000), 0);
    assert_eq!(select(&weights, 625_001), 1);
    assert_eq!(select(&weights, 999_999), 1);
}

#[test]
fn draw_half_selects_first() {
    let s = scenario_sampler(700_000);
    let probs: Vec<u64> = vec![500_000, 300_000, 200_000];
    assert_eq!(s.sample(&probs, 500_000), 0);
}

#[test]
fn draw_high_selects_second() {
    let s = scenario_sampler(700_000);
    let probs: Vec<u64> = vec![500_000, 300_000, 200_000];
    assert_eq!(s.sample(&probs, 900_000), 1);
}

// top_p = 1.0 keeps the full vocabulary.
#[test]
fn full_top_p_keeps_whole_vocabulary() {
    let s = scenario_sampler(SCALE);
    let probs: Vec<u64> = vec![500_000, 300_000, 200_000];
    let nucleus = s.nucleus(&probs);
    assert_eq!(nucleus.len(), 3);
    assert_eq!(nucleus, vec![(500_000, 0), (300_000, 1), (200_000, 2)]);
}

// top_p below the unique maximum probability is greedy decoding: the
// nucleus is exactly the argmax, whatever the draw.
#[test]
fn small_top_p_is_greedy() {
    let s = scenario_sampler(400_000);
    let probs: Vec<u64> = vec![500_000, 300_000, 200_000];
    assert_eq!(s.nucleus(&probs).len(), 1);
    assert_eq!(s.sample(&probs, 0), 0);
    assert_eq!(s.sample(&probs, 999_999), 0);
}

// An unsorted distribution must be sorted before the nucleus is cut: the
// argmax here sits in the middle of the vector.
#[test]
fn unsorted_input_is_sorted_first() {
    let s = scenario_sampler(400_000);
    let probs: Vec<u64> = vec![200_000, 500_000, 300_000];
    assert_eq!(s.sample(&probs, 0), 1);
    assert_eq!(s.sample(&probs, 999_999), 1);
}

// Equal probabilities tie-break towards the lower token id.
#[test]
fn ties_break_towards_lower_id() {
    let s = scenario_sampler(200_000);
    let probs: Vec<u64> = vec![300_000, 300_000, 300_000];
    let nucleus = s.nucleus(&probs);
    assert_eq!(nucleus, vec![(300_000, 0)]);
    assert_eq!(s.sample(&probs, 999_999), 0);
}

// A single-entry vocabulary always yields that entry, even with zero mass.
#[test]
fn degenerate_distributions_fall_back_to_first() {
    let s = scenario_sampler(500_000);
    assert_eq!(s.sample(&vec![0], 999_999), 0);
    let weights: Vec<(u64, u16)> = vec![(0, 3), (0, 4)];
    assert_eq!(select(&weights, 500_000), 3);
}

#[test]
fn sentinel_logit_is_floored() {
    let occ = OccurrenceTable::new();
    let cfg = Sampler::default();
    let mut logits: Vec<i64> = vec![5_000_000, 2_000_000, 1_000_000];
    adjust(&mut logits, &occ, &cfg);
    assert_eq!(logits, vec![NEG_INF_LOGIT, 2_000_000, 1_000_000]);
}

// A recorded token's logit drops by presence + count * frequency relative
// to the unpenalized run; others are untouched.
#[test]
fn penalty_strictly_lowers_recorded_token() {
    let mut occ = OccurrenceTable::new();
    occ.record(1);
    let cfg = Sampler::default();
    let mut logits: Vec<i64> = vec![5_000_000, 2_000_000, 1_000_000];
    adjust(&mut logits, &occ, &cfg);
    assert_eq!(logits, vec![NEG_INF_LOGIT, 1_400_000, 1_000_000]);
    assert!(logits[1] < 2_000_000);
}

// The merge policy: a recurring token keeps its recorded count, so the
// frequency penalty sees every repeated token as seen once.
#[test]
fn occurrence_count_is_not_incremented() {
    let mut occ = OccurrenceTable::new();
    assert_eq!(occ.get(7), None);
    occ.record(7);
    assert_eq!(occ.get(7), Some(1));
    occ.record(7);
    occ.record(7);
    assert_eq!(occ.get(7), Some(1));
    assert_eq!(occ.get(8), None);
}

// Lowering a logit already at the floor saturates instead of wrapping.
#[test]
fn penalty_saturates_at_floor() {
    let mut occ = OccurrenceTable::new();
    occ.record(0);
    occ.record(1);
    let cfg = Sampler::default();
    let mut logits: Vec<i64> = vec![7, i64::MIN + 5];
    adjust(&mut logits, &occ, &cfg);
    assert_eq!(logits, vec![NEG_INF_LOGIT, NEG_INF_LOGIT]);
}

// Table entries whose token id lies outside the logit vector are ignored.
#[test]
fn out_of_range_occurrences_are_ignored() {
    let mut occ = OccurrenceTable::new();
    occ.record(9);
    let cfg = Sampler::default();
    let mut logits: Vec<i64> = vec![5_000_000, 2_000_000];
    adjust(&mut logits, &occ, &cfg);
    assert_eq!(logits, vec![NEG_INF_LOGIT, 2_000_000]);
}
