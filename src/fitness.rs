use vstd::prelude::*;

use crate::coincidence::{coincidence_of, index_of_coincidence, rounded_scale, scale_coincidence, upper_letters_of};
use crate::enigma::{ascii_text, enigma_text, settings_valid, Machine, Settings, SettingsView};

verus! {

/// The score of a candidate plaintext: its index of coincidence scaled to
/// `[0, max_value]` and rounded.
pub open spec fn score_of_text(plaintext: Seq<char>, max_value: usize) -> int {
    let c = coincidence_of(upper_letters_of(plaintext));
    rounded_scale(c.0, c.1, max_value as int)
}

/// The fitness of the configuration `s` against `ciphertext`: the score of
/// the text that `s` deciphers.
pub open spec fn fitness_value(ciphertext: Seq<char>, s: SettingsView, max_value: usize) -> int {
    score_of_text(enigma_text(s, ciphertext), max_value)
}

/// A text with fewer than two letters scores zero, whatever the scale.
pub proof fn lemma_short_text_scores_zero(plaintext: Seq<char>, max_value: usize)
    requires
        upper_letters_of(plaintext).len() <= 1,
    ensures
        score_of_text(plaintext, max_value) == 0,
{
    assert((2 * 0int * (max_value as int) + 1int) / 2int == 0int) by (nonlinear_arith);
}

/// The sum of a sequence of scores.
pub open spec fn sum_of(v: Seq<usize>) -> int
    decreases v.len(),
{
    if v.len() == 0 {
        0
    } else {
        sum_of(v.drop_last()) + v.last()
    }
}

/// Scores configurations against a fixed ciphertext.
#[derive(Debug, Clone)]
pub struct FitnessCalc {
    pub ciphertext: String,
    pub max_value: usize,
}

impl FitnessCalc {
    /// The score of a candidate plaintext.
    pub fn score_text(&self, plaintext: &str) -> (r: usize)
        ensures
            r == score_of_text(plaintext@, self.max_value),
            r <= self.max_value,
    {
        let c = index_of_coincidence(plaintext);
        scale_coincidence(c, self.max_value)
    }

    /// The fitness of `s`: the score of the ciphertext deciphered with `s`.
    pub fn fitness_of(&self, s: &Settings) -> (r: usize)
        requires
            settings_valid(s@),
            ascii_text(self.ciphertext@),
        ensures
            r == fitness_value(self.ciphertext@, s@, self.max_value),
            r <= self.max_value,
    {
        let machine = match Machine::new(s) {
            Ok(m) => m,
            Err(_) => {
                return 0;
            },
        };
        let plaintext = machine.decrypt(self.ciphertext.as_str());
        self.score_text(plaintext.as_str())
    }

    /// The mean of the scores, rounded down.
    pub fn average(&self, fitness_values: &[usize]) -> (r: usize)
        requires
            fitness_values@.len() > 0,
        ensures
            r == sum_of(fitness_values@) / (fitness_values@.len() as int),
    {
        let mut sum: u128 = 0;
        let mut i: usize = 0;
        while i < fitness_values.len()
            invariant
                i <= fitness_values@.len(),
                sum == sum_of(fitness_values@.subrange(0, i as int)),
                sum <= i * (usize::MAX as int),
            decreases fitness_values@.len() - i,
        {
            proof {
                assert(fitness_values@.subrange(0, i + 1).drop_last() =~= fitness_values@.subrange(
                    0,
                    i as int,
                ));
                assert(i * (usize::MAX as int) + usize::MAX < 0x1_0000_0000_0000_0000_0000_0000_0000_0000) by (nonlinear_arith)
                    requires
                        i <= usize::MAX,
                        usize::MAX <= 0xFFFF_FFFF_FFFF_FFFF,
                ;
            }
            sum = sum + fitness_values[i] as u128;
            i = i + 1;
        }
        proof {
            assert(fitness_values@.subrange(0, i as int) =~= fitness_values@);
            let n = fitness_values@.len() as int;
            assert(sum as int / n <= sum as int) by (nonlinear_arith)
                requires
                    n >= 1,
                    sum >= 0,
            ;
            assert(sum as int / n <= usize::MAX) by (nonlinear_arith)
                requires
                    n >= 1,
                    0 <= sum <= n * (usize::MAX as int),
            ;
        }
        let mean = sum / fitness_values.len() as u128;
        mean as usize
    }

    /// The best score there is.
    pub fn highest_possible_fitness(&self) -> (r: usize)
        ensures
            r == self.max_value,
    {
        self.max_value
    }

    /// The worst score there is.
    pub fn lowest_possible_fitness(&self) -> (r: usize)
        ensures
            r == 0,
    {
        0
    }
}

#[verifier::external_type_specification]
#[verifier::external_body]
#[verifier::reject_recursive_types(K)]
#[verifier::reject_recursive_types(V)]
#[verifier::reject_recursive_types(S)]
pub struct ExCache<K, V, S>(moka::sync::Cache<K, V, S>);

/// For each configuration, the score last stored for it in the cache. The
/// cache may drop an entry at any time; it never returns another value.
pub uninterp spec fn cache_entries(c: moka::sync::Cache<Settings, usize>) -> Map<SettingsView, usize>;

/// Relies on `moka::sync::Cache::new`: an empty cache that holds at most
/// `capacity` entries.
#[verifier::external_body]
fn new_cache(capacity: u64) -> (r: moka::sync::Cache<Settings, usize>)
    ensures
        cache_entries(r).dom().len() == 0,
        cache_entries(r).dom().finite(),
{
    moka::sync::Cache::new(capacity)
}

/// Relies on `moka::sync::Cache::get`: nothing, or the value last inserted
/// under an equal key.
#[verifier::external_body]
fn cache_get(c: &moka::sync::Cache<Settings, usize>, key: &Settings) -> (r: Option<usize>)
    ensures
        r matches Some(v) ==> cache_entries(*c).contains_key(key@) && cache_entries(*c)[key@] == v,
{
    c.get(key)
}

/// Relies on `moka::sync::Cache::insert`: the value becomes the one stored
/// under the key (the cache may evict it later).
#[verifier::external_body]
fn cache_insert(c: &mut moka::sync::Cache<Settings, usize>, key: Settings, value: usize)
    ensures
        cache_entries(*final(c)) == cache_entries(*old(c)).insert(key@, value),
{
    c.insert(key, value)
}

/// A fitness evaluator that remembers the scores it computed, in a bounded
/// cache with recency- and frequency-weighted eviction.
pub struct CachedFitness {
    calc: FitnessCalc,
    cache: moka::sync::Cache<Settings, usize>,
    decryptions: u64,
}

impl CachedFitness {
    /// The ciphertext that configurations are scored against.
    pub closed spec fn ciphertext(&self) -> Seq<char> {
        self.calc.ciphertext@
    }

    /// The top of the score scale.
    pub closed spec fn max_value(&self) -> usize {
        self.calc.max_value
    }

    /// For each configuration, the score last remembered for it (the cache
    /// may since have dropped it).
    pub closed spec fn remembered(&self) -> Map<SettingsView, usize> {
        cache_entries(self.cache)
    }

    /// The number of computed scores.
    pub closed spec fn decryptions_spec(&self) -> u64 {
        self.decryptions
    }

    /// Every remembered score is the fitness of its configuration.
    pub closed spec fn wf(&self) -> bool {
        &&& ascii_text(self.calc.ciphertext@)
        &&& forall|k: SettingsView|
            #[trigger] cache_entries(self.cache).contains_key(k) ==> cache_entries(self.cache)[k]
                == fitness_value(self.calc.ciphertext@, k, self.calc.max_value)
    }

    /// An evaluator for `calc` with room for `capacity` scores.
    pub fn new(calc: FitnessCalc, capacity: u64) -> (r: CachedFitness)
        requires
            ascii_text(calc.ciphertext@),
        ensures
            r.wf(),
            r.ciphertext() == calc.ciphertext@,
            r.max_value() == calc.max_value,
            r.decryptions_spec() == 0,
            r.remembered().dom().len() == 0,
    {
        CachedFitness { calc, cache: new_cache(capacity), decryptions: 0 }
    }

    /// How many scores were computed rather than taken from the cache
    /// (saturating at `u64::MAX`).
    pub fn decryptions(&self) -> (r: u64)
        ensures
            r == self.decryptions_spec(),
    {
        self.decryptions
    }

    /// The fitness of `s`, taken from the cache when it is there and computed
    /// and remembered when it is not.
    pub fn score(&mut self, s: &Settings) -> (r: usize)
        requires
            old(self).wf(),
            settings_valid(s@),
        ensures
            final(self).wf(),
            final(self).ciphertext() == old(self).ciphertext(),
            final(self).max_value() == old(self).max_value(),
            r == fitness_value(old(self).ciphertext(), s@, old(self).max_value()),
            final(self).remembered() == old(self).remembered().insert(s@, r),
            old(self).decryptions_spec() <= final(self).decryptions_spec(),
            final(self).decryptions_spec() <= old(self).decryptions_spec() + 1,
    {
        match cache_get(&self.cache, s) {
            Some(v) => {
                assert(cache_entries(self.cache).insert(s@, v) =~= cache_entries(self.cache));
                v
            },
            None => {
                let v = self.calc.fitness_of(s);
                if self.decryptions < u64::MAX {
                    self.decryptions = self.decryptions + 1;
                }
                cache_insert(&mut self.cache, s.clone(), v);
                v
            },
        }
    }

    /// The underlying evaluator.
    pub fn calc(&self) -> (r: &FitnessCalc)
        ensures
            r.ciphertext@ == self.ciphertext(),
            r.max_value == self.max_value(),
    {
        &self.calc
    }
}

} // verus!
