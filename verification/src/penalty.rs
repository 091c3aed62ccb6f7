//! Repetition bookkeeping and logit adjustment.
//!
//! An `OccurrenceTable` maps token ids to emission counts for one generation
//! run. Before each normalization step the raw logits (fixed-point, scaled by
//! `SCALE`) are adjusted: the end-of-sequence sentinel (id `0`) is forced to
//! the minus-infinity floor, and every recorded token's logit is lowered by
//! `presence_penalty + count * frequency_penalty`. Subtraction saturates at
//! the floor, mirroring how real-valued logits sink towards minus infinity.
use vstd::prelude::*;

use crate::sampler::Sampler;

verus! {

/// The logit value that stands for minus infinity: nothing can sink below
/// it, and the sentinel is pinned to it before every normalization.
pub const NEG_INF_LOGIT: i64 = i64::MIN;

/// The association map described by a key/value sequence: later entries win,
/// though the table keeps its keys unique anyway.
pub open spec fn assoc_map(s: Seq<(u16, u32)>) -> Map<u16, u32>
    decreases s.len(),
{
    if s.len() == 0 {
        Map::empty()
    } else {
        assoc_map(s.drop_last()).insert(s.last().0, s.last().1)
    }
}

/// A key is in the association map exactly when some entry carries it.
pub proof fn lemma_assoc_contains(s: Seq<(u16, u32)>, k: u16)
    ensures
        assoc_map(s).contains_key(k) <==> exists|i: int|
            0 <= i < s.len() && (#[trigger] s[i]).0 == k,
    decreases s.len(),
{
    if s.len() > 0 {
        lemma_assoc_contains(s.drop_last(), k);
        if s.last().0 != k {
            assert forall|i: int| 0 <= i < s.len() && (#[trigger] s[i]).0 == k implies
                0 <= i < s.len() - 1 && s.drop_last()[i].0 == k by {
                assert(s[i] == s.drop_last()[i]);
            }
        }
    }
}

/// With unique keys, the association map sends each entry's key to its value.
pub proof fn lemma_assoc_index(s: Seq<(u16, u32)>, i: int)
    requires
        0 <= i < s.len(),
        forall|a: int, b: int| 0 <= a < b < s.len() ==> (#[trigger] s[a]).0 != (#[trigger] s[b]).0,
    ensures
        assoc_map(s)[s[i].0] == s[i].1,
    decreases s.len(),
{
    if i == s.len() - 1 {
    } else {
        assert(s[i].0 != s.last().0);
        assert(s.drop_last()[i] == s[i]);
        lemma_assoc_index(s.drop_last(), i);
    }
}

/// Emission counts per token id, scoped to one generation run.
pub struct OccurrenceTable {
    entries: Vec<(u16, u32)>,
}

impl OccurrenceTable {
    /// The table as a map from token id to recorded count.
    pub closed spec fn view(&self) -> Map<u16, u32> {
        assoc_map(self.entries@)
    }

    /// Internal invariant: no token id appears twice.
    pub closed spec fn wf(&self) -> bool {
        forall|a: int, b: int| 0 <= a < b < self.entries@.len()
            ==> (#[trigger] self.entries@[a]).0 != (#[trigger] self.entries@[b]).0
    }

    /// The entries as a sequence, for reasoning about iteration order.
    pub closed spec fn entries_seq(&self) -> Seq<(u16, u32)> {
        self.entries@
    }

    /// An empty table: no token has been emitted yet.
    pub fn new() -> (t: Self)
        ensures
            t.wf(),
            t@ == Map::<u16, u32>::empty(),
    {
        let t = OccurrenceTable { entries: Vec::new() };
        proof {
            assert(t.entries@.len() == 0);
        }
        t
    }

    /// The recorded count for a token, if any.
    pub fn get(&self, token: u16) -> (r: Option<u32>)
        requires
            self.wf(),
        ensures
            r == if self@.contains_key(token) {
                Some(self@[token])
            } else {
                None::<u32>
            },
    {
        let n = self.entries.len();
        let mut i: usize = 0;
        while i < n
            invariant
                self.wf(),
                n == self.entries@.len(),
                i <= n,
                forall|j: int| 0 <= j < i ==> (#[trigger] self.entries@[j]).0 != token,
            decreases n - i,
        {
            let (tok, cnt) = self.entries[i];
            if tok == token {
                proof {
                    lemma_assoc_contains(self.entries@, token);
                    lemma_assoc_index(self.entries@, i as int);
                }
                return Some(cnt);
            }
            i += 1;
        }
        proof {
            lemma_assoc_contains(self.entries@, token);
        }
        None
    }

    /// Records an emission of `token`: an already-present count is
    /// reinserted unchanged, an absent token enters with count `1`. (The
    /// count is deliberately not incremented; the frequency penalty
    /// therefore treats every recurring token as seen once.)
    pub fn record(&mut self, token: u16)
        requires
            old(self).wf(),
        ensures
            final(self).wf(),
            final(self)@ == old(self)@.insert(
                token,
                if old(self)@.contains_key(token) {
                    old(self)@[token]
                } else {
                    1u32
                },
            ),
    {
        let existing = self.get(token);
        match existing {
            Some(_) => {
                proof {
                    assert(old(self)@.insert(token, old(self)@[token]) =~= old(self)@);
                }
            }
            None => {
                proof {
                    lemma_assoc_contains(self.entries@, token);
                }
                self.entries.push((token, 1));
                proof {
                    assert(self.entries@.drop_last() =~= old(self).entries@);
                }
            }
        }
    }
}

/// The combined penalty for a token seen `count` times:
/// `presence_penalty + count * frequency_penalty`.
pub open spec fn penalty_amount(cfg: Sampler, count: u32) -> int {
    cfg.presence_penalty + count * cfg.frequency_penalty
}

/// A logit lowered by a penalty, saturating at the minus-infinity floor.
pub open spec fn penalized(logit: i64, pen: int) -> i64 {
    if logit - pen < i64::MIN {
        NEG_INF_LOGIT
    } else {
        (logit - pen) as i64
    }
}

/// What one adjustment step does to a logit vector: the sentinel's logit is
/// pinned to the floor, and every token in the table loses its penalty.
pub open spec fn adjusted(logits: Seq<i64>, occ: Map<u16, u32>, cfg: Sampler) -> Seq<i64> {
    Seq::new(
        logits.len(),
        |i: int|
            if i == 0 {
                NEG_INF_LOGIT
            } else if i < 0x10000 && occ.contains_key(i as u16) {
                penalized(logits[i], penalty_amount(cfg, occ[i as u16]))
            } else {
                logits[i]
            },
    )
}

/// A penalty is never negative.
pub proof fn lemma_penalty_nonneg(cfg: Sampler, count: u32)
    ensures
        penalty_amount(cfg, count) >= 0,
{
    assert((count as int) * (cfg.frequency_penalty as int) >= 0) by (nonlinear_arith)
        requires
            count >= 0,
            cfg.frequency_penalty >= 0,
    ;
}

/// A penalty fits comfortably in an `i128`.
proof fn lemma_penalty_fits(cfg: Sampler, count: u32)
    ensures
        0 <= penalty_amount(cfg, count) < 0x2000000000000000000000000,
{
    lemma_penalty_nonneg(cfg, count);
    assert((count as int) * (cfg.frequency_penalty as int) < 0x1000000000000000000000000)
        by (nonlinear_arith)
        requires
            0 <= count < 0x100000000,
            0 <= cfg.frequency_penalty < 0x10000000000000000,
    ;
}

/// Adjusts raw logits in place: pins the end-of-sequence sentinel (index 0)
/// to the minus-infinity floor, then lowers the logit of every recorded token
/// by its penalty, saturating at the floor. Entries whose token id lies
/// outside the vector are ignored.
pub fn adjust(logits: &mut Vec<i64>, occurrences: &OccurrenceTable, config: &Sampler)
    requires
        occurrences.wf(),
    ensures
        final(logits)@ == adjusted(old(logits)@, occurrences@, *config),
        old(logits)@.len() > 0 ==> final(logits)@[0] == NEG_INF_LOGIT,
{
    if logits.len() > 0 {
        logits[0] = NEG_INF_LOGIT;
    }
    let ghost base = logits@;
    let ghost entries = occurrences.entries_seq();
    let n = occurrences.entries.len();
    let mut j: usize = 0;
    while j < n
        invariant
            occurrences.wf(),
            entries == occurrences.entries_seq(),
            n == entries.len(),
            j <= n,
            logits@.len() == base.len(),
            base.len() > 0 ==> base[0] == NEG_INF_LOGIT,
            forall|i: int| 0 <= i < base.len() ==> #[trigger] logits@[i] == (
                if exists|jj: int| 0 <= jj < j && (#[trigger] entries[jj]).0 as int == i {
                    penalized(base[i], penalty_amount(*config, occurrences@[(i as u16)]))
                } else {
                    base[i]
                }
            ),
        decreases n - j,
    {
        let (tok, cnt) = occurrences.entries[j];
        let idx = tok as usize;
        if idx < logits.len() {
            proof {
                lemma_assoc_index(entries, j as int);
                lemma_penalty_fits(*config, cnt);
                // no earlier entry carries this key, so the slot still holds its base value
                assert(forall|jj: int| 0 <= jj < j ==> (#[trigger] entries[jj]).0 != tok);
            }
            let pen: i128 = config.presence_penalty as i128
                + (cnt as i128) * (config.frequency_penalty as i128);
            let lowered: i128 = (logits[idx] as i128) - pen;
            if lowered < NEG_INF_LOGIT as i128 {
                logits[idx] = NEG_INF_LOGIT;
            } else {
                logits[idx] = lowered as i64;
            }
            proof {
                assert(logits@[idx as int] == penalized(
                    base[idx as int],
                    penalty_amount(*config, occurrences@[tok]),
                ));
            }
        }
        j += 1;
    }
    proof {
        assert forall|i: int| 0 <= i < base.len() implies logits@[i]
            == adjusted(old(logits)@, occurrences@, *config)[i] by {
            lemma_assoc_contains(entries, i as u16);
            if i == 0 {
                if exists|jj: int| 0 <= jj < n && (#[trigger] entries[jj]).0 as int == 0 {
                    lemma_penalty_nonneg(*config, occurrences@[0u16]);
                }
            }
        }
        assert(logits@ =~= adjusted(old(logits)@, occurrences@, *config));
    }
}

/// Law: a positive penalty strictly lowers the adjusted logit of a token
/// already in the table, relative to an unpenalized run with the same
/// inputs — whenever the logit is not already at the minus-infinity floor.
pub proof fn lemma_penalty_strictly_decreases(
    logits: Seq<i64>,
    occ: Map<u16, u32>,
    cfg: Sampler,
    t: int,
)
    requires
        1 <= t < logits.len(),
        t < 0x10000,
        occ.contains_key(t as u16),
        penalty_amount(cfg, occ[t as u16]) >= 1,
        logits[t] > NEG_INF_LOGIT,
    ensures
        adjusted(logits, Map::<u16, u32>::empty(), cfg)[t] == logits[t],
        adjusted(logits, occ, cfg)[t] < adjusted(logits, Map::<u16, u32>::empty(), cfg)[t],
{
}

} // verus!
