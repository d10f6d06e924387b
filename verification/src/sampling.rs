//! Request-owned sampling: its settings, the counts behind its penalties, and every choice
//! that is made of scores, masses and a draw.

use crate::json;
use crate::json::{Json, Num, Tree};
use crate::number::{Real32, Real64, INFINITY32, MINUS_TWO64, ONE64, TWO64};
use crate::ranking;
use crate::ranking::rank;
use vstd::prelude::*;
use vstd::string::*;

verus! {

/// The most candidates that may be asked for.
pub const MAX_TOP_K: usize = 1_000_000;

#[derive(Debug, Clone, Copy)]
pub struct Sampling {
    /// 0 keeps greedy decoding.
    pub temperature: Real64,
    /// Nucleus probability, in (0, 1].
    pub top_p: Real64,
    /// Keep the highest scores; 0 keeps the whole vocabulary.
    pub top_k: usize,
    /// Seed for this request's random stream.
    pub seed: Option<u64>,
    /// Penalty applied once to tokens present in the prompt or output.
    pub presence_penalty: Real64,
    /// Penalty multiplied by each token's occurrence count.
    pub frequency_penalty: Real64,
}

/// Greedy decoding.
pub open spec fn default_sampling() -> Sampling {
    Sampling {
        temperature: Real64 { bits: 0 },
        top_p: Real64 { bits: ONE64 },
        top_k: 0,
        seed: None,
        presence_penalty: Real64 { bits: 0 },
        frequency_penalty: Real64 { bits: 0 },
    }
}

impl Default for Sampling {
    fn default() -> (r: Sampling)
        ensures
            r == default_sampling(),
    {
        Sampling {
            temperature: Real64 { bits: 0 },
            top_p: Real64 { bits: ONE64 },
            top_k: 0,
            seed: None,
            presence_penalty: Real64 { bits: 0 },
            frequency_penalty: Real64 { bits: 0 },
        }
    }
}

/// Why sampling is refused.
#[derive(Debug, Clone, Copy, PartialEq, Eq, Structural)]
pub enum SamplingError {
    Temperature,
    TopP,
    TopK,
    PresencePenalty,
    FrequencyPenalty,
    /// A parameter that must be a number and is none.
    NotNumber(Parameter),
    /// A parameter that must be a count and is none.
    NotCount(Parameter),
    Vocabulary,
    Mismatch,
    Logits,
    Empty,
    NoCandidate,
}

/// The parameters of sampling, in the order in which a request's are read.
#[derive(Debug, Clone, Copy, PartialEq, Eq, Structural)]
pub enum Parameter {
    FrequencyPenalty,
    PresencePenalty,
    Seed,
    Temperature,
    TopK,
    TopP,
}

impl Parameter {
    pub open spec fn text(self) -> Seq<char> {
        match self {
            Parameter::FrequencyPenalty => "frequency_penalty"@,
            Parameter::PresencePenalty => "presence_penalty"@,
            Parameter::Seed => "seed"@,
            Parameter::Temperature => "temperature"@,
            Parameter::TopK => "top_k"@,
            Parameter::TopP => "top_p"@,
        }
    }

    pub fn name(&self) -> (r: &'static str)
        ensures
            r@ == self.text(),
    {
        match self {
            Parameter::FrequencyPenalty => "frequency_penalty",
            Parameter::PresencePenalty => "presence_penalty",
            Parameter::Seed => "seed",
            Parameter::Temperature => "temperature",
            Parameter::TopK => "top_k",
            Parameter::TopP => "top_p",
        }
    }
}

impl SamplingError {
    pub open spec fn text(self) -> Seq<char> {
        match self {
            SamplingError::Temperature => "temperature must be finite and in 0..2"@,
            SamplingError::TopP => "top_p must be finite and in (0, 1]"@,
            SamplingError::TopK => "top_k must be 0..1000000"@,
            SamplingError::PresencePenalty => "presence_penalty must be finite and in -2..2"@,
            SamplingError::FrequencyPenalty => "frequency_penalty must be finite and in -2..2"@,
            SamplingError::NotNumber(p) => p.text() + " must be a number"@,
            SamplingError::NotCount(p) => p.text() + " must be a non-negative integer"@,
            SamplingError::Vocabulary => "token exceeds vocabulary"@,
            SamplingError::Mismatch => "logit vocabulary mismatch"@,
            SamplingError::Logits => "non-finite model logits"@,
            SamplingError::Empty => "empty vocabulary"@,
            SamplingError::NoCandidate => "no finite candidate logits"@,
        }
    }

    pub fn message(&self) -> (r: String)
        ensures
            r@ == self.text(),
    {
        match self {
            SamplingError::Temperature => "temperature must be finite and in 0..2".to_owned(),
            SamplingError::TopP => "top_p must be finite and in (0, 1]".to_owned(),
            SamplingError::TopK => "top_k must be 0..1000000".to_owned(),
            SamplingError::PresencePenalty => "presence_penalty must be finite and in -2..2".to_owned(),
            SamplingError::FrequencyPenalty => "frequency_penalty must be finite and in -2..2".to_owned(),
            SamplingError::NotNumber(p) => {
                let mut out: String = p.name().to_owned();
                out.append(" must be a number");
                out
            },
            SamplingError::NotCount(p) => {
                let mut out: String = p.name().to_owned();
                out.append(" must be a non-negative integer");
                out
            },
            SamplingError::Vocabulary => "token exceeds vocabulary".to_owned(),
            SamplingError::Mismatch => "logit vocabulary mismatch".to_owned(),
            SamplingError::Logits => "non-finite model logits".to_owned(),
            SamplingError::Empty => "empty vocabulary".to_owned(),
            SamplingError::NoCandidate => "no finite candidate logits".to_owned(),
        }
    }
}

/// A number from `lo` to `hi`, both by their bits.
pub open spec fn within(x: Real64, lo: Real64, hi: Real64) -> bool {
    x.finite() && lo.le(x) && x.le(hi)
}

fn is_within(x: &Real64, lo: &Real64, hi: &Real64) -> (r: bool)
    ensures
        r == within(*x, *lo, *hi),
{
    x.is_finite() && lo.at_most(x) && x.at_most(hi)
}

/// Zero.
pub open spec fn zero() -> Real64 {
    Real64 { bits: 0 }
}

/// A penalty between -2 and 2.
pub open spec fn penalty(x: Real64) -> bool {
    within(x, Real64 { bits: MINUS_TWO64 }, Real64 { bits: TWO64 })
}

/// A real parameter of a request: its own, or the default.
pub open spec fn real_parameter(value: Tree, p: Parameter, default: Real64) -> Result<Real64, SamplingError> {
    match json::at(value, p.text()) {
        Tree::Null => Ok(default),
        Tree::Number(n) => Ok(Real64 { bits: json::nearest_real(n) }),
        _ => Err(SamplingError::NotNumber(p)),
    }
}

/// A count of a request; nothing where it names none.
pub open spec fn count_parameter(value: Tree, p: Parameter) -> Result<Option<u64>, SamplingError> {
    match json::at(value, p.text()) {
        Tree::Null => Ok(None),
        Tree::Number(Num::Unsigned(n)) => Ok(Some(n)),
        _ => Err(SamplingError::NotCount(p)),
    }
}

fn read_real(value: &Json, p: Parameter, default: Real64) -> (r: Result<Real64, SamplingError>)
    ensures
        r == real_parameter(value.tree(), p, default),
{
    match value.get(p.name()) {
        None => Ok(default),
        Some(v) => {
            if v.is_null() {
                return Ok(default);
            }
            match v.as_real() {
                Some(x) => Ok(x),
                None => Err(SamplingError::NotNumber(p)),
            }
        },
    }
}

fn read_count(value: &Json, p: Parameter) -> (r: Result<Option<u64>, SamplingError>)
    ensures
        r == count_parameter(value.tree(), p),
{
    match value.get(p.name()) {
        None => Ok(None),
        Some(v) => {
            if v.is_null() {
                return Ok(None);
            }
            match v.as_u64() {
                Some(n) => Ok(Some(n)),
                None => Err(SamplingError::NotCount(p)),
            }
        },
    }
}

impl Sampling {
    /// The first reason against the settings.
    pub open spec fn fault(self) -> Option<SamplingError> {
        if !within(self.temperature, zero(), Real64 { bits: TWO64 }) {
            Some(SamplingError::Temperature)
        } else if !(self.top_p.finite() && zero().lt(self.top_p) && self.top_p.le(Real64 { bits: ONE64 })) {
            Some(SamplingError::TopP)
        } else if self.top_k > MAX_TOP_K {
            Some(SamplingError::TopK)
        } else if !penalty(self.presence_penalty) {
            Some(SamplingError::PresencePenalty)
        } else if !penalty(self.frequency_penalty) {
            Some(SamplingError::FrequencyPenalty)
        } else {
            None
        }
    }

    pub fn validate(&self) -> (r: Result<(), SamplingError>)
        ensures
            r == match self.fault() {
                Some(e) => Err::<(), SamplingError>(e),
                None => Ok(()),
            },
    {
        let zero = Real64 { bits: 0 };
        let one = Real64 { bits: ONE64 };
        let two = Real64 { bits: TWO64 };
        let minus_two = Real64 { bits: MINUS_TWO64 };
        if !is_within(&self.temperature, &zero, &two) {
            return Err(SamplingError::Temperature);
        }
        if !(self.top_p.is_finite() && zero.below(&self.top_p) && self.top_p.at_most(&one)) {
            return Err(SamplingError::TopP);
        }
        if self.top_k > MAX_TOP_K {
            return Err(SamplingError::TopK);
        }
        if !is_within(&self.presence_penalty, &minus_two, &two) {
            return Err(SamplingError::PresencePenalty);
        }
        if !is_within(&self.frequency_penalty, &minus_two, &two) {
            return Err(SamplingError::FrequencyPenalty);
        }
        Ok(())
    }

    /// Whether the settings leave the most likely token to be chosen.
    pub open spec fn is_greedy(self) -> bool {
        self.temperature.same(zero()) && self.presence_penalty.same(zero()) && self.frequency_penalty.same(zero())
    }

    /// Only the unmodified greedy distribution can be verified by its most likely tokens.
    pub fn greedy(&self) -> (r: bool)
        ensures
            r == self.is_greedy(),
    {
        let zero = Real64 { bits: 0 };
        self.temperature.equals(&zero) && self.presence_penalty.equals(&zero) && self.frequency_penalty.equals(&zero)
    }

    /// What a request's own parameters make of the defaults, or the first that cannot be
    /// read, or the first reason against the result.
    pub open spec fn requested(value: Tree, defaults: Sampling) -> Result<Sampling, SamplingError> {
        match real_parameter(value, Parameter::FrequencyPenalty, defaults.frequency_penalty) {
            Err(e) => Err(e),
            Ok(frequency_penalty) => match real_parameter(
                value,
                Parameter::PresencePenalty,
                defaults.presence_penalty,
            ) {
                Err(e) => Err(e),
                Ok(presence_penalty) => match count_parameter(value, Parameter::Seed) {
                    Err(e) => Err(e),
                    Ok(seed) => match real_parameter(value, Parameter::Temperature, defaults.temperature) {
                        Err(e) => Err(e),
                        Ok(temperature) => match count_parameter(value, Parameter::TopK) {
                            Err(e) => Err(e),
                            Ok(top_k) => if top_k is Some && top_k->0 > usize::MAX {
                                Err(SamplingError::NotCount(Parameter::TopK))
                            } else {
                                match real_parameter(value, Parameter::TopP, defaults.top_p) {
                                    Err(e) => Err(e),
                                    Ok(top_p) => {
                                        let result = Sampling {
                                            temperature,
                                            top_p,
                                            top_k: match top_k {
                                                Some(k) => k as usize,
                                                None => defaults.top_k,
                                            },
                                            seed: match seed {
                                                Some(s) => Some(s),
                                                None => defaults.seed,
                                            },
                                            presence_penalty,
                                            frequency_penalty,
                                        };
                                        match result.fault() {
                                            Some(e) => Err(e),
                                            None => Ok(result),
                                        }
                                    },
                                }
                            },
                        },
                    },
                },
            },
        }
    }

    /// The settings of a request: its own parameters over the defaults.
    pub fn from_request(value: &Json, defaults: &Sampling) -> (r: Result<Sampling, SamplingError>)
        ensures
            r == Sampling::requested(value.tree(), *defaults),
    {
        let mut result: Sampling = *defaults;
        match read_real(value, Parameter::FrequencyPenalty, defaults.frequency_penalty) {
            Ok(x) => result.frequency_penalty = x,
            Err(e) => return Err(e),
        }
        match read_real(value, Parameter::PresencePenalty, defaults.presence_penalty) {
            Ok(x) => result.presence_penalty = x,
            Err(e) => return Err(e),
        }
        match read_count(value, Parameter::Seed) {
            Ok(Some(s)) => result.seed = Some(s),
            Ok(None) => {},
            Err(e) => return Err(e),
        }
        match read_real(value, Parameter::Temperature, defaults.temperature) {
            Ok(x) => result.temperature = x,
            Err(e) => return Err(e),
        }
        match read_count(value, Parameter::TopK) {
            Ok(Some(k)) => {
                if k > usize::MAX as u64 {
                    return Err(SamplingError::NotCount(Parameter::TopK));
                }
                result.top_k = k as usize;
            },
            Ok(None) => {},
            Err(e) => return Err(e),
        }
        match read_real(value, Parameter::TopP, defaults.top_p) {
            Ok(x) => result.top_p = x,
            Err(e) => return Err(e),
        }
        match result.validate() {
            Ok(()) => Ok(result),
            Err(e) => Err(e),
        }
    }
}

/// How often a token occurs, as far as it can be counted.
pub open spec fn occurrences(tokens: Seq<u32>, token: int) -> nat
    decreases tokens.len(),
{
    if tokens.len() == 0 {
        0
    } else {
        occurrences(tokens.drop_last(), token) + if tokens.last() == token {
            1nat
        } else {
            0
        }
    }
}

/// A count that stops at the largest.
pub open spec fn counted(n: nat) -> u32 {
    if n <= u32::MAX {
        n as u32
    } else {
        u32::MAX
    }
}

/// What is sampled for one request: its settings, and how often each token has occurred.
#[derive(Debug)]
pub struct Sampler {
    pub options: Sampling,
    pub counts: Vec<u32>,
}

/// What the scores of a vocabulary lead to.
#[derive(Debug)]
pub enum Choice {
    /// The most likely token.
    Token(u32),
    /// The tokens to draw from, in the order in which their masses are added.
    Candidates(Vec<u32>),
}

/// The order keys of scores.
pub open spec fn score_keys(scores: Seq<Real64>) -> Seq<i128> {
    scores.map_values(|x: Real64| x.total() as i128)
}

/// One group for all.
pub open spec fn ungrouped(n: nat) -> Seq<bool> {
    Seq::new(n, |i: int| false)
}

/// Whether a token's score is the highest, and its id the lowest with that score.
pub open spec fn best_score(scores: Seq<Real64>, best: int) -> bool {
    &&& 0 <= best < scores.len()
    &&& forall|i: int|
        0 <= i < scores.len() && i != best ==> (#[trigger] scores[i]).total() < scores[best].total() || (scores[i].total()
            == scores[best].total() && best < i)
}

/// The tokens that are drawn from: the first of the ranking by score, where a number of them
/// or a nucleus is asked for, else the whole vocabulary by id.
pub open spec fn drawn_from(scores: Seq<Real64>, top_k: usize, nucleus: bool, list: Seq<u32>) -> bool {
    let n = scores.len();
    if 0 < top_k < n || nucleus {
        exists|order: Seq<usize>|
            #[trigger] ranking::is_ranking(ungrouped(n), score_keys(scores), order) && list == order.take(
                if 0 < top_k < n {
                    top_k as int
                } else {
                    n as int
                },
            ).map_values(|i: usize| i as u32)
    } else {
        list == Seq::new(n, |i: int| i as u32)
    }
}

impl Sampler {
    pub open spec fn wf(self) -> bool {
        self.options.fault() is None
    }

    /// The sampler of a request, its prompt counted.
    pub fn new(options: &Sampling, prompt: &[u32], vocab: usize) -> (r: Result<Sampler, SamplingError>)
        ensures
            match r {
                Ok(s) => {
                    &&& s.wf()
                    &&& s.options == *options
                    &&& s.counts@ == Seq::new(vocab as nat, |t: int| counted(occurrences(prompt@, t)))
                    &&& forall|i: int| 0 <= i < prompt@.len() ==> (#[trigger] prompt@[i]) < vocab
                },
                Err(SamplingError::Vocabulary) => options.fault() is None && exists|i: int|
                    0 <= i < prompt@.len() && (#[trigger] prompt@[i]) >= vocab,
                Err(e) => options.fault() == Some(e),
            },
    {
        match options.validate() {
            Ok(()) => {},
            Err(e) => return Err(e),
        }
        let mut counts: Vec<u32> = Vec::new();
        let mut v: usize = 0;
        while v < vocab
            invariant
                v <= vocab,
                counts@ == Seq::new(v as nat, |t: int| 0u32),
            decreases vocab - v,
        {
            counts.push(0);
            v = v + 1;
            assert(counts@ =~= Seq::new(v as nat, |t: int| 0u32));
        }
        let mut sampler = Sampler { options: *options, counts };
        let mut i: usize = 0;
        assert(prompt@.take(0) =~= Seq::<u32>::empty());
        assert(sampler.counts@ =~= Seq::new(vocab as nat, |t: int| counted(occurrences(prompt@.take(0), t))));
        while i < prompt.len()
            invariant
                i <= prompt@.len(),
                sampler.options == *options,
                options.fault() is None,
                sampler.counts@ == Seq::new(vocab as nat, |t: int| counted(occurrences(prompt@.take(i as int), t))),
                forall|k: int| 0 <= k < i ==> (#[trigger] prompt@[k]) < vocab,
            decreases prompt@.len() - i,
        {
            let ghost before = sampler.counts@;
            match sampler.accept(prompt[i]) {
                Ok(()) => {},
                Err(e) => {
                    assert(prompt@[i as int] >= vocab);
                    return Err(e);
                },
            }
            proof {
                assert(prompt@.take(i + 1).drop_last() =~= prompt@.take(i as int));
                assert(sampler.counts@ =~= Seq::new(
                    vocab as nat,
                    |t: int| counted(occurrences(prompt@.take(i + 1), t)),
                ));
            }
            i = i + 1;
        }
        assert(prompt@.take(i as int) =~= prompt@);
        Ok(sampler)
    }

    /// Counts a token.
    pub fn accept(&mut self, token: u32) -> (r: Result<(), SamplingError>)
        ensures
            final(self).options == old(self).options,
            match r {
                Ok(()) => {
                    &&& token < old(self).counts@.len()
                    &&& final(self).counts@ == old(self).counts@.update(
                        token as int,
                        if old(self).counts@[token as int] < u32::MAX {
                            (old(self).counts@[token as int] + 1) as u32
                        } else {
                            u32::MAX
                        },
                    )
                },
                Err(e) => e is Vocabulary && token >= old(self).counts@.len() && final(self).counts@ == old(
                    self,
                ).counts@,
            },
    {
        if token as usize >= self.counts.len() {
            return Err(SamplingError::Vocabulary);
        }
        let count: u32 = self.counts[token as usize];
        let next: u32 = if count < u32::MAX {
            count + 1
        } else {
            u32::MAX
        };
        self.counts.set(token as usize, next);
        Ok(())
    }

    /// Accepts the model's row of logits: one for each token, none of them NaN or positive
    /// infinity.
    pub fn check_logits(&self, logits: &[Real32]) -> (r: Result<(), SamplingError>)
        ensures
            match r {
                Ok(()) => logits@.len() == self.counts@.len() && forall|i: int|
                    0 <= i < logits@.len() ==> usable(#[trigger] logits@[i]),
                Err(SamplingError::Mismatch) => logits@.len() != self.counts@.len(),
                Err(e) => e is Logits && logits@.len() == self.counts@.len() && exists|i: int|
                    0 <= i < logits@.len() && !usable(#[trigger] logits@[i]),
            },
    {
        if logits.len() != self.counts.len() {
            return Err(SamplingError::Mismatch);
        }
        let mut i: usize = 0;
        while i < logits.len()
            invariant
                i <= logits@.len(),
                logits@.len() == self.counts@.len(),
                forall|k: int| 0 <= k < i ==> usable(#[trigger] logits@[k]),
            decreases logits@.len() - i,
        {
            if logits[i].is_nan() || logits[i].bits == INFINITY32 {
                assert(!usable(logits@[i as int]));
                return Err(SamplingError::Logits);
            }
            i = i + 1;
        }
        Ok(())
    }

    /// What the penalized scores of the vocabulary lead to.
    pub fn choose_among(&self, scores: &[Real64]) -> (r: Result<Choice, SamplingError>)
        requires
            scores@.len() <= u32::MAX,
        ensures
            match r {
                Err(SamplingError::Empty) => scores@.len() == 0,
                Err(e) => e is NoCandidate && exists|best: int|
                    #[trigger] best_score(scores@, best) && !scores@[best].finite(),
                Ok(Choice::Token(t)) => self.options.temperature.same(zero()) && best_score(scores@, t as int)
                    && scores@[t as int].finite(),
                Ok(Choice::Candidates(list)) => {
                    &&& !self.options.temperature.same(zero())
                    &&& exists|best: int| #[trigger] best_score(scores@, best) && scores@[best].finite()
                    &&& drawn_from(
                        scores@,
                        self.options.top_k,
                        self.options.top_p.lt(Real64 { bits: ONE64 }),
                        list@,
                    )
                },
            },
    {
        if scores.len() == 0 {
            return Err(SamplingError::Empty);
        }
        let n: usize = scores.len();
        let mut best: usize = 0;
        let mut i: usize = 1;
        while i < n
            invariant
                n == scores@.len(),
                best < i <= n,
                best_score(scores@.take(i as int), best as int),
            decreases n - i,
        {
            let ghost shorter = scores@.take(i as int);
            let ghost longer = scores@.take(i + 1);
            let ghost was = best as int;
            if scores[i].total_key() > scores[best].total_key() {
                best = i;
            }
            proof {
                assert forall|k: int| 0 <= k < longer.len() && k != best implies (#[trigger] longer[k]).total()
                    < longer[best as int].total() || (longer[k].total() == longer[best as int].total() && best < k) by {
                    if k < i {
                        assert(longer[k] == shorter[k]);
                        assert(shorter[was] == scores@[was]);
                    }
                }
            }
            i = i + 1;
        }
        assert(scores@.take(n as int) =~= scores@);
        assert(best_score(scores@, best as int));
        if !scores[best].is_finite() {
            return Err(SamplingError::NoCandidate);
        }
        if self.options.temperature.equals(&Real64 { bits: 0 }) {
            return Ok(Choice::Token(best as u32));
        }
        let k: usize = self.options.top_k;
        let cut: bool = 0 < k && k < n;
        let nucleus: bool = self.options.top_p.below(&Real64 { bits: ONE64 });
        let mut list: Vec<u32> = Vec::new();
        if cut || nucleus {
            let mut group: Vec<bool> = Vec::new();
            let mut keys: Vec<i128> = Vec::new();
            let mut j: usize = 0;
            while j < n
                invariant
                    n == scores@.len(),
                    j <= n,
                    group@ == ungrouped(j as nat),
                    keys@ == score_keys(scores@.take(j as int)),
                decreases n - j,
            {
                group.push(false);
                keys.push(scores[j].total_key() as i128);
                j = j + 1;
                assert(group@ =~= ungrouped(j as nat));
                assert(keys@ =~= score_keys(scores@.take(j as int)));
            }
            assert(scores@.take(n as int) =~= scores@);
            let order: Vec<usize> = rank(group.as_slice(), keys.as_slice());
            let keep: usize = if cut {
                k
            } else {
                n
            };
            let mut m: usize = 0;
            while m < keep
                invariant
                    m <= keep <= order@.len(),
                    n == scores@.len(),
                    n <= u32::MAX,
                    forall|x: int| 0 <= x < order@.len() ==> (#[trigger] order@[x]) < n,
                    list@ == order@.take(m as int).map_values(|i: usize| i as u32),
                decreases keep - m,
            {
                list.push(order[m] as u32);
                m = m + 1;
                assert(list@ =~= order@.take(m as int).map_values(|i: usize| i as u32));
            }
            assert(ranking::is_ranking(ungrouped(n as nat), score_keys(scores@), order@));
        } else {
            let mut j: usize = 0;
            while j < n
                invariant
                    n == scores@.len(),
                    n <= u32::MAX,
                    j <= n,
                    list@ == Seq::new(j as nat, |i: int| i as u32),
                decreases n - j,
            {
                list.push(j as u32);
                j = j + 1;
                assert(list@ =~= Seq::new(j as nat, |i: int| i as u32));
            }
        }
        Ok(Choice::Candidates(list))
    }
}

/// A logit that can be sampled from.
pub open spec fn usable(x: Real32) -> bool {
    !x.nan() && x.bits != INFINITY32
}

/// How many candidates the nucleus keeps: up to the first at which the masses added so far
/// reach the threshold, and all where none does.
pub fn nucleus(added: &[Real64], threshold: &Real64) -> (r: usize)
    ensures
        r <= added@.len(),
        forall|i: int| 0 <= i < r - 1 ==> !threshold.le(#[trigger] added@[i]),
        r < added@.len() ==> r > 0 && threshold.le(added@[r - 1]),
        added@.len() > 0 ==> r > 0,
{
    let mut i: usize = 0;
    while i < added.len()
        invariant
            i <= added@.len(),
            forall|k: int| 0 <= k < i ==> !threshold.le(#[trigger] added@[k]),
        decreases added@.len() - i,
    {
        if threshold.at_most(&added[i]) {
            return i + 1;
        }
        i = i + 1;
    }
    i
}

/// The candidate that a draw falls on: the first whose mass, added to those before it, the
/// draw lies below, and the last one kept where it lies below none.
pub fn drawn(added: &[Real64], keep: usize, draw: &Real64) -> (r: usize)
    requires
        0 < keep <= added@.len(),
    ensures
        r < keep,
        forall|i: int| 0 <= i < r ==> !draw.lt(#[trigger] added@[i]),
        r < keep - 1 ==> draw.lt(added@[r as int]),
{
    let mut i: usize = 0;
    while i < keep
        invariant
            i <= keep <= added@.len(),
            0 < keep,
            forall|k: int| 0 <= k < i ==> !draw.lt(#[trigger] added@[k]),
        decreases keep - i,
    {
        if draw.below(&added[i]) {
            return i;
        }
        i = i + 1;
    }
    keep - 1
}

/// The settings of a request that names none are greedy, and valid.
pub proof fn law_default_sampling_greedy()
    ensures
        default_sampling().fault() is None,
        default_sampling().is_greedy(),
{
}

/// A request that names no parameter of sampling gets the defaults.
pub proof fn law_defaults_kept(value: Tree, defaults: Sampling)
    requires
        defaults.fault() is None,
        forall|p: Parameter| json::at(value, #[trigger] p.text()) is Null,
    ensures
        Sampling::requested(value, defaults) == Ok::<Sampling, SamplingError>(defaults),
{
    assert(json::at(value, Parameter::FrequencyPenalty.text()) is Null);
    assert(json::at(value, Parameter::PresencePenalty.text()) is Null);
    assert(json::at(value, Parameter::Seed.text()) is Null);
    assert(json::at(value, Parameter::Temperature.text()) is Null);
    assert(json::at(value, Parameter::TopK.text()) is Null);
    assert(json::at(value, Parameter::TopP.text()) is Null);
}

/// What a request gets is always valid.
pub proof fn law_requested_valid(value: Tree, defaults: Sampling)
    ensures
        Sampling::requested(value, defaults) matches Ok(s) ==> s.fault() is None,
{
}

/// There is one best score.
pub proof fn law_best_unique(scores: Seq<Real64>, a: int, b: int)
    requires
        best_score(scores, a),
        best_score(scores, b),
    ensures
        a == b,
{
    if a != b {
        assert(scores[a].total() < scores[b].total() || (scores[a].total() == scores[b].total() && b < a));
        assert(scores[b].total() < scores[a].total() || (scores[b].total() == scores[a].total() && a < b));
    }
}

/// Whether one token comes before another: a higher score first, then the lower id.
pub open spec fn better(scores: Seq<Real64>, a: int, b: int) -> bool {
    scores[a].total() > scores[b].total() || (scores[a].total() == scores[b].total() && a < b)
}

/// Where a number of candidates is asked for, the tokens that are drawn from are the best ones:
/// as many as asked for, or the whole vocabulary where it is smaller, and no other token is
/// better than one of them.
pub proof fn law_candidates_are_the_best(scores: Seq<Real64>, top_k: usize, nucleus: bool, list: Seq<u32>, i: int, x: u32)
    requires
        scores.len() <= u32::MAX,
        top_k > 0,
        drawn_from(scores, top_k, nucleus, list),
        0 <= i < list.len(),
    ensures
        list.len() == if top_k < scores.len() {
            top_k as int
        } else {
            scores.len() as int
        },
        list[i] < scores.len(),
        x < scores.len() && !list.contains(x) ==> better(scores, list[i] as int, x as int),
{
    let n = scores.len();
    if top_k < n || nucleus {
        let order = choose|order: Seq<usize>|
            #[trigger] ranking::is_ranking(ungrouped(n), score_keys(scores), order) && list == order.take(
                if 0 < top_k < n {
                    top_k as int
                } else {
                    n as int
                },
            ).map_values(|i: usize| i as u32);
        assert(order[i] < n);
        if x < n {
            assert(order.contains(x as usize));
            let at = choose|k: int| 0 <= k < order.len() && order[k] == x as usize;
            if at < list.len() {
                assert(list[at] == x);
            } else {
                assert(ranking::ahead(ungrouped(n), score_keys(scores), order[i] as int, order[at] as int));
            }
        }
    } else if x < n {
        assert(list[x as int] == x);
    }
}

/// One candidate is the greedy token: whatever the nucleus and the draw, a request that keeps
/// one candidate gets the token that a request without temperature gets.
pub proof fn law_one_candidate_is_greedy(scores: Seq<Real64>, nucleus: bool, list: Seq<u32>, best: int, drawn: int)
    requires
        scores.len() <= u32::MAX,
        drawn_from(scores, 1, nucleus, list),
        best_score(scores, best),
        0 <= drawn < list.len(),
    ensures
        list.len() == 1,
        list[drawn] == best,
{
    let n = scores.len();
    if 1 < n || nucleus {
        let order = choose|order: Seq<usize>|
            #[trigger] ranking::is_ranking(ungrouped(n), score_keys(scores), order) && list == order.take(
                if 0 < 1usize < n {
                    1
                } else {
                    n as int
                },
            ).map_values(|i: usize| i as u32);
        assert(order.contains(best as usize));
        let at = choose|k: int| 0 <= k < order.len() && order[k] == best as usize;
        if at > 0 {
            assert(ranking::ahead(ungrouped(n), score_keys(scores), order[0] as int, order[at] as int));
            assert(scores[order[0] as int].total() < scores[best].total() || (scores[order[0] as int].total()
                == scores[best].total() && best < order[0]));
        }
    }
}

/// The candidates: as many of the vocabulary as asked for, each once. With a nucleus, whatever
/// number is asked for, they come by descending score, and of equal scores the lower id first,
/// so that every beginning of the list that a nucleus keeps holds the most likely tokens: no
/// token behind it, in the list or out of it, has a higher score.
pub proof fn law_candidates_by_descending_score(
    scores: Seq<Real64>,
    top_k: usize,
    nucleus: bool,
    list: Seq<u32>,
    i: int,
    j: int,
    x: u32,
)
    requires
        scores.len() <= u32::MAX,
        drawn_from(scores, top_k, nucleus, list),
        0 <= i < j < list.len(),
    ensures
        list.len() == if 0 < top_k && top_k < scores.len() {
            top_k as int
        } else {
            scores.len() as int
        },
        list[i] < scores.len(),
        list[i] != list[j],
        nucleus ==> scores[list[i] as int].total() > scores[list[j] as int].total() || (scores[list[i] as int].total()
            == scores[list[j] as int].total() && list[i] < list[j]),
        x < scores.len() && !list.contains(x) ==> scores[x as int].total() < scores[list[j] as int].total() || (
        scores[x as int].total() == scores[list[j] as int].total() && x > list[j]),
        x < scores.len() && (top_k == 0 || top_k >= scores.len()) ==> list.contains(x),
        nucleus ==> (scores[list[i] as int].bits == scores[list[j] as int].bits || !scores[list[i] as int].lt(
            scores[list[j] as int],
        )),
{
    let n = scores.len();
    if 0 < top_k < n || nucleus {
        let order = choose|order: Seq<usize>|
            #[trigger] ranking::is_ranking(ungrouped(n), score_keys(scores), order) && list == order.take(
                if 0 < top_k < n {
                    top_k as int
                } else {
                    n as int
                },
            ).map_values(|i: usize| i as u32);
        assert(order[i] < n && order[j] < n);
        assert(ranking::ahead(ungrouped(n), score_keys(scores), order[i] as int, order[j] as int));
        if x < n {
            assert(order.contains(x as usize));
            let at = choose|k: int| 0 <= k < order.len() && order[k] == x as usize;
            if at < list.len() {
                assert(list[at] == x);
            } else {
                assert(ranking::ahead(ungrouped(n), score_keys(scores), order[j] as int, order[at] as int));
            }
        }
    } else if x < n {
        assert(list[x as int] == x);
    }
}

/// What a row of scores leads to. Without temperature it is one token, and no other has a higher
/// score, nor an equal one under a lower id. With it, candidates: all of the vocabulary, or as
/// many of the best as asked for; with a nucleus below one they come by descending score, and of
/// equal scores the lower id first. There is no choice where a highest score is not finite.
pub proof fn law_choice_among(sampler: &Sampler, scores: &[Real64], r: Result<Choice, SamplingError>, i: int, j: int, x: u32)
    requires
        0 < scores@.len() <= u32::MAX,
        call_ensures(Sampler::choose_among, (sampler, scores), r),
        x < scores@.len(),
    ensures
        ({
            let s = scores@;
            let zero_t = sampler.options.temperature.same(Real64 { bits: 0 });
            let k = sampler.options.top_k;
            match r {
                Ok(Choice::Token(t)) => {
                    &&& zero_t
                    &&& t < s.len()
                    &&& s[t as int].finite()
                    &&& s[x as int].total() < s[t as int].total() || (s[x as int].total() == s[t as int].total() && t <= x)
                },
                Ok(Choice::Candidates(list)) => {
                    &&& !zero_t
                    &&& list@.len() == if 0 < k && k < s.len() {
                        k as int
                    } else {
                        s.len() as int
                    }
                    &&& 0 <= i < j < list@.len() ==> {
                        let (a, b) = (list@[i] as int, list@[j] as int);
                        &&& a < s.len() && b < s.len() && a != b
                        &&& sampler.options.top_p.lt(Real64 { bits: 0x3ff0_0000_0000_0000 }) ==> s[a].total()
                            > s[b].total() || (s[a].total() == s[b].total() && a < b)
                        &&& !list@.contains(x) ==> s[x as int].total() < s[b].total() || (s[x as int].total()
                            == s[b].total() && x > b)
                    }
                    &&& k == 0 || k >= s.len() ==> list@.contains(x)
                },
                Err(e) => e is NoCandidate && exists|b: int|
                    0 <= b < s.len() && !(#[trigger] s[b]).finite() && s[x as int].total() <= s[b].total(),
            }
        }),
{
    let s = scores@;
    match r {
        Ok(Choice::Candidates(list)) => {
            let nucleus = sampler.options.top_p.lt(Real64 { bits: ONE64 });
            if 0 <= i < j < list@.len() {
                law_candidates_by_descending_score(s, sampler.options.top_k, nucleus, list@, i, j, x);
            }
            lemma_all_candidates(s, sampler.options.top_k, nucleus, list@, x);
        },
        Err(SamplingError::NoCandidate) => {
            let best = choose|best: int| #[trigger] best_score(s, best) && !s[best].finite();
            assert(!s[best].finite());
        },
        _ => {},
    }
}

proof fn lemma_all_candidates(scores: Seq<Real64>, top_k: usize, nucleus: bool, list: Seq<u32>, x: u32)
    requires
        0 < scores.len() <= u32::MAX,
        drawn_from(scores, top_k, nucleus, list),
        x < scores.len(),
    ensures
        list.len() == if 0 < top_k && top_k < scores.len() {
            top_k as int
        } else {
            scores.len() as int
        },
        top_k == 0 || top_k >= scores.len() ==> list.contains(x),
{
    let n = scores.len();
    if 0 < top_k < n || nucleus {
        let order = choose|order: Seq<usize>|
            #[trigger] ranking::is_ranking(ungrouped(n), score_keys(scores), order) && list == order.take(
                if 0 < top_k < n {
                    top_k as int
                } else {
                    n as int
                },
            ).map_values(|i: usize| i as u32);
        assert(order.contains(x as usize));
        let at = choose|k: int| 0 <= k < order.len() && order[k] == x as usize;
        if at < list.len() {
            assert(list[at] == x);
        }
    } else {
        assert(list[x as int] == x);
    }
}

/// The first candidate of a nucleus, and the only token of a request without temperature, has a
/// score that no other exceeds.
pub proof fn law_first_candidate_is_best(scores: Seq<Real64>, top_k: usize, list: Seq<u32>, best: int, x: int)
    requires
        0 < scores.len() <= u32::MAX,
        drawn_from(scores, top_k, true, list),
        best_score(scores, best),
        0 <= x < scores.len(),
    ensures
        list.len() > 0,
        list[0] == best,
        scores[x].total() <= scores[best].total(),
        scores[x].bits == scores[best].bits ==> best <= x,
{
    let n = scores.len();
    let order = choose|order: Seq<usize>|
        #[trigger] ranking::is_ranking(ungrouped(n), score_keys(scores), order) && list == order.take(
            if 0 < top_k < n {
                top_k as int
            } else {
                n as int
            },
        ).map_values(|i: usize| i as u32);
    assert(order[0] < n);
    assert(order.contains(best as usize));
    let at = choose|k: int| 0 <= k < order.len() && order[k] == best as usize;
    if at > 0 {
        assert(ranking::ahead(ungrouped(n), score_keys(scores), order[0] as int, order[at] as int));
        assert(scores[order[0] as int].total() < scores[best].total() || (scores[order[0] as int].total()
            == scores[best].total() && best < order[0]));
    }
}

/// Settings are valid exactly where the temperature is a number from 0 to 2, the nucleus one
/// above 0 and up to 1, no more than a million candidates are asked for, and both penalties are
/// numbers from -2 to 2.
pub proof fn law_settings_valid_exactly(s: Sampling)
    ensures
        s.fault() is None <==> {
            &&& s.temperature.finite() && Real64 { bits: 0 }.le(s.temperature) && s.temperature.le(
                Real64 { bits: 0x4000_0000_0000_0000 },
            )
            &&& s.top_p.finite() && Real64 { bits: 0 }.lt(s.top_p) && s.top_p.le(Real64 { bits: 0x3ff0_0000_0000_0000 })
            &&& s.top_k <= 1_000_000
            &&& s.presence_penalty.finite() && Real64 { bits: 0xc000_0000_0000_0000 }.le(s.presence_penalty)
                && s.presence_penalty.le(Real64 { bits: 0x4000_0000_0000_0000 })
            &&& s.frequency_penalty.finite() && Real64 { bits: 0xc000_0000_0000_0000 }.le(s.frequency_penalty)
                && s.frequency_penalty.le(Real64 { bits: 0x4000_0000_0000_0000 })
        },
        s.is_greedy() <==> {
            &&& s.temperature.same(Real64 { bits: 0 })
            &&& s.presence_penalty.same(Real64 { bits: 0 })
            &&& s.frequency_penalty.same(Real64 { bits: 0 })
        },
{
}

/// A parameter that a request names takes the place of the default, and no other; one that is no
/// number, or no count, is an error of that parameter.
pub proof fn law_named_parameters_count(value: Tree, defaults: Sampling)
    ensures
        Sampling::requested(value, defaults) matches Ok(s) ==> {
            &&& s.temperature == match json::at(value, "temperature"@) {
                Tree::Number(n) => Real64 { bits: json::nearest_real(n) },
                _ => defaults.temperature,
            }
            &&& s.top_p == match json::at(value, "top_p"@) {
                Tree::Number(n) => Real64 { bits: json::nearest_real(n) },
                _ => defaults.top_p,
            }
            &&& s.presence_penalty == match json::at(value, "presence_penalty"@) {
                Tree::Number(n) => Real64 { bits: json::nearest_real(n) },
                _ => defaults.presence_penalty,
            }
            &&& s.frequency_penalty == match json::at(value, "frequency_penalty"@) {
                Tree::Number(n) => Real64 { bits: json::nearest_real(n) },
                _ => defaults.frequency_penalty,
            }
            &&& match json::at(value, "top_k"@) {
                Tree::Number(Num::Unsigned(n)) => s.top_k == n,
                other => other is Null && s.top_k == defaults.top_k,
            }
            &&& match json::at(value, "seed"@) {
                Tree::Number(Num::Unsigned(n)) => s.seed == Some(n),
                other => other is Null && s.seed == defaults.seed,
            }
            &&& json::at(value, "temperature"@) is Null || json::at(value, "temperature"@) is Number
            &&& json::at(value, "top_p"@) is Null || json::at(value, "top_p"@) is Number
            &&& json::at(value, "presence_penalty"@) is Null || json::at(value, "presence_penalty"@) is Number
            &&& json::at(value, "frequency_penalty"@) is Null || json::at(value, "frequency_penalty"@) is Number
        },
        Sampling::requested(value, defaults) matches Err(SamplingError::NotNumber(p)) ==> !(json::at(value, p.text()) is Null)
            && !(json::at(value, p.text()) is Number),
        Sampling::requested(value, defaults) matches Err(SamplingError::NotCount(p)) ==> !(json::at(value, p.text()) is Null),
{
}

/// Counting a text token by token counts every token as often as it occurs: adding one raises
/// its own count, and no other.
pub proof fn law_counts_follow_tokens(tokens: Seq<u32>, token: u32, t: int)
    ensures
        occurrences(Seq::<u32>::empty(), t) == 0,
        occurrences(tokens.push(token), t) == occurrences(tokens, t) + if token == t {
            1int
        } else {
            0
        },
        counted(occurrences(tokens, t)) <= occurrences(tokens, t),
        occurrences(tokens, t) <= u32::MAX ==> counted(occurrences(tokens, t)) == occurrences(tokens, t),
        occurrences(tokens, t) > u32::MAX ==> counted(occurrences(tokens, t)) == u32::MAX,
{
    assert(tokens.push(token).drop_last() =~= tokens);
}

/// A logit can be sampled from exactly where it is a number below positive infinity.
pub proof fn law_usable_logits(x: Real32)
    ensures
        usable(x) <==> x.finite() || x.bits == 0xff80_0000,
{
}

/// A sampler starts from valid settings and a prompt of the vocabulary: it has counted each token as
/// often as the prompt holds it.
pub proof fn law_sampler_starts(options: Sampling, prompt: &[u32], vocab: usize, r: Result<Sampler, SamplingError>, t: int)
    requires
        call_ensures(Sampler::new, (&options, prompt, vocab), r),
        0 <= t < vocab,
        prompt@.len() <= u32::MAX,
    ensures
        r matches Ok(s) ==> {
            &&& s.options == options
            &&& s.counts@.len() == vocab
            &&& s.counts@[t] == occurrences(prompt@, t)
            &&& forall|i: int| 0 <= i < prompt@.len() ==> (#[trigger] prompt@[i]) < vocab
        },
        r == Err::<Sampler, SamplingError>(SamplingError::Vocabulary) ==> exists|i: int|
            0 <= i < prompt@.len() && (#[trigger] prompt@[i]) >= vocab,
{
    lemma_occurrences_bounded(prompt@, t);
}

proof fn lemma_occurrences_bounded(tokens: Seq<u32>, t: int)
    ensures
        occurrences(tokens, t) <= tokens.len(),
    decreases tokens.len(),
{
    if tokens.len() > 0 {
        lemma_occurrences_bounded(tokens.drop_last(), t);
    }
}

/// An accepted token counts once more, and no other does; one beyond the vocabulary is refused.
pub proof fn law_token_accepted(s: &mut Sampler, token: u32, r: Result<(), SamplingError>, other: int)
    requires
        call_ensures(Sampler::accept, (s, token), r),
        0 <= other < old(s).counts@.len(),
        other != token,
    ensures
        r is Ok <==> token < old(s).counts@.len(),
        r is Ok && old(s).counts@[token as int] < u32::MAX ==> final(s).counts@[token as int] == old(s).counts@[token as int]
            + 1,
        final(s).counts@.len() == old(s).counts@.len(),
        final(s).counts@[other] == old(s).counts@[other],
        final(s).options == old(s).options,
{
}

/// Logits are accepted exactly where there is one for each token and each is a number below infinity.
pub proof fn law_logits_checked(s: Sampler, logits: &[Real32], r: Result<(), SamplingError>)
    requires
        call_ensures(Sampler::check_logits, (&s, logits), r),
    ensures
        r is Ok <==> logits@.len() == s.counts@.len() && forall|i: int|
            0 <= i < logits@.len() ==> !(#[trigger] logits@[i]).nan() && logits@[i].bits != 0x7f80_0000,
        logits@.len() != s.counts@.len() <==> r == Err::<(), SamplingError>(SamplingError::Mismatch),
{
    if r is Ok {
        assert forall|i: int| 0 <= i < logits@.len() implies !(#[trigger] logits@[i]).nan() && logits@[i].bits != 0x7f80_0000 by {
            assert(usable(logits@[i]));
        }
    }
}

/// The nucleus is the shortest beginning whose sum reaches the threshold, and everything where no sum
/// does.
pub proof fn law_nucleus_is_shortest(added: &[Real64], threshold: Real64, r: usize, i: int)
    requires
        call_ensures(nucleus, (added, &threshold), r),
        0 <= i < added@.len(),
    ensures
        0 < r <= added@.len(),
        i < r - 1 ==> !threshold.le(added@[i]),
        r < added@.len() ==> threshold.le(added@[r - 1]),
        threshold.le(added@[i]) ==> r <= i + 1,
{
    if threshold.le(added@[i]) && i < r - 1 {
        assert(!threshold.le(added@[i]));
    }
}

/// Decoding is greedy exactly where temperature and both penalties are zero.
pub proof fn law_greedy_exactly(s: Sampling, r: bool)
    requires
        call_ensures(Sampling::greedy, (&s,), r),
    ensures
        r <==> s.temperature.key() == 0 && !s.temperature.nan() && s.presence_penalty.key() == 0
            && !s.presence_penalty.nan() && s.frequency_penalty.key() == 0 && !s.frequency_penalty.nan(),
{
}

} // verus!
