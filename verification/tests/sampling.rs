use cherenkov::json::parse;
use cherenkov::number::{Real32, Real64};
use cherenkov::sampling::{drawn, nucleus, Choice, Parameter, Sampler, Sampling, SamplingError};

fn wide(x: f64) -> Real64 {
    Real64 { bits: x.to_bits() }
}

fn scores(list: &[f64]) -> Vec<Real64> {
    list.iter().map(|x| wide(*x)).collect()
}

fn requested(text: &str) -> Result<Sampling, SamplingError> {
    Sampling::from_request(&parse(text.as_bytes()).unwrap(), &Sampling::default())
}

#[test]
fn the_default_is_greedy() {
    assert!(Sampling::default().greedy());
    assert_eq!(Sampling::default().validate(), Ok(()));
    assert_eq!(f64::from_bits(Sampling::default().top_p.bits), 1.0);
}

#[test]
fn parameters_are_bounded() {
    let check = |change: fn(&mut Sampling)| {
        let mut s = Sampling::default();
        change(&mut s);
        s.validate()
    };
    assert_eq!(check(|s| s.temperature = wide(2.0)), Ok(()));
    assert_eq!(check(|s| s.temperature = wide(2.1)), Err(SamplingError::Temperature));
    assert_eq!(check(|s| s.temperature = wide(-0.5)), Err(SamplingError::Temperature));
    assert_eq!(check(|s| s.temperature = wide(f64::NAN)), Err(SamplingError::Temperature));
    assert_eq!(check(|s| s.top_p = wide(0.0)), Err(SamplingError::TopP));
    assert_eq!(check(|s| s.top_p = wide(1.1)), Err(SamplingError::TopP));
    assert_eq!(check(|s| s.top_k = 1_000_001), Err(SamplingError::TopK));
    assert_eq!(check(|s| s.presence_penalty = wide(-2.5)), Err(SamplingError::PresencePenalty));
    assert_eq!(check(|s| s.frequency_penalty = wide(f64::INFINITY)), Err(SamplingError::FrequencyPenalty));
}

#[test]
fn requests_keep_the_defaults_they_do_not_name() {
    let plain = requested("{}").unwrap();
    let own = Sampling::default();
    let bits = |s: &Sampling| [s.temperature, s.top_p, s.presence_penalty, s.frequency_penalty].map(|x| x.bits);
    assert_eq!(bits(&plain), bits(&own));
    assert_eq!((plain.top_k, plain.seed), (own.top_k, None));
    let s = requested(r#"{"temperature":0.5,"top_k":3,"seed":9,"top_p":null}"#).unwrap();
    assert_eq!(f64::from_bits(s.temperature.bits), 0.5);
    assert_eq!((s.top_k, s.seed), (3, Some(9)));
    assert_eq!(s.top_p.bits, Sampling::default().top_p.bits);
    assert!(!s.greedy());
}

#[test]
fn wrong_requests_are_refused() {
    assert_eq!(
        requested(r#"{"temperature":"hot"}"#).err(),
        Some(SamplingError::NotNumber(Parameter::Temperature))
    );
    assert_eq!(requested(r#"{"seed":-1}"#).err(), Some(SamplingError::NotCount(Parameter::Seed)));
    assert_eq!(requested(r#"{"top_k":1.5}"#).err(), Some(SamplingError::NotCount(Parameter::TopK)));
    assert_eq!(requested(r#"{"temperature":3}"#).err(), Some(SamplingError::Temperature));
    assert_eq!(
        SamplingError::NotNumber(Parameter::FrequencyPenalty).message(),
        "frequency_penalty must be a number"
    );
    assert_eq!(SamplingError::NotCount(Parameter::TopK).message(), "top_k must be a non-negative integer");
}

#[test]
fn tokens_are_counted() {
    let mut s = Sampler::new(&Sampling::default(), &[1, 1, 2], 4).unwrap();
    assert_eq!(s.counts, vec![0, 2, 1, 0]);
    s.accept(1).unwrap();
    s.accept(1).unwrap();
    assert_eq!(s.counts, vec![0, 4, 1, 0]);
    assert_eq!(s.accept(4), Err(SamplingError::Vocabulary));
    assert_eq!(Sampler::new(&Sampling::default(), &[4], 4).err(), Some(SamplingError::Vocabulary));
}

#[test]
fn logits_are_checked() {
    let s = Sampler::new(&Sampling::default(), &[], 2).unwrap();
    let row = |list: [f32; 2]| list.map(|x| Real32 { bits: x.to_bits() });
    assert_eq!(s.check_logits(&row([1.0, f32::NEG_INFINITY])), Ok(()));
    assert_eq!(s.check_logits(&row([1.0, f32::NAN])), Err(SamplingError::Logits));
    assert_eq!(s.check_logits(&row([1.0, 2.0])[..1]), Err(SamplingError::Mismatch));
}

#[test]
fn greedy_choice_takes_the_first_of_the_best() {
    let s = Sampler::new(&Sampling::default(), &[], 4).unwrap();
    assert!(matches!(s.choose_among(&scores(&[1.0, 3.0, 3.0, 2.0])), Ok(Choice::Token(1))));
    let empty = Sampler::new(&Sampling::default(), &[], 0).unwrap();
    assert_eq!(empty.choose_among(&[]).err(), Some(SamplingError::Empty));
}

#[test]
fn sampled_choice_keeps_the_leading_candidates() {
    let options = Sampling { temperature: wide(1.0), top_k: 2, ..Sampling::default() };
    let s = Sampler::new(&options, &[], 4).unwrap();
    match s.choose_among(&scores(&[1.0, 3.0, f64::NEG_INFINITY, 2.0])) {
        Ok(Choice::Candidates(list)) => assert_eq!(list, vec![1, 3]),
        _ => panic!("no candidates"),
    }
    assert_eq!(
        s.choose_among(&scores(&[f64::NEG_INFINITY; 4])).err(),
        Some(SamplingError::NoCandidate)
    );
}

#[test]
fn the_nucleus_reaches_the_threshold() {
    let added = scores(&[0.5, 0.75, 1.0]);
    assert_eq!(nucleus(&added, &wide(0.6)), 2);
    assert_eq!(nucleus(&added, &wide(0.5)), 1);
    assert_eq!(nucleus(&added, &wide(0.9)), 3);
    assert_eq!(nucleus(&added, &wide(2.0)), 3);
}

#[test]
fn draws_fall_on_the_first_candidate_above() {
    let added = scores(&[0.5, 0.75, 1.0]);
    assert_eq!(drawn(&added, 3, &wide(0.0)), 0);
    assert_eq!(drawn(&added, 3, &wide(0.5)), 1);
    assert_eq!(drawn(&added, 3, &wide(0.8)), 2);
    assert_eq!(drawn(&added, 2, &wide(0.99)), 1);
}

#[test]
fn one_candidate_is_the_greedy_token() {
    let list = scores(&[1.0, 3.0, 3.0, f64::NEG_INFINITY]);
    let greedy = Sampler::new(&Sampling::default(), &[], 4).unwrap();
    let options = Sampling { temperature: wide(0.7), top_k: 1, ..Sampling::default() };
    let single = Sampler::new(&options, &[], 4).unwrap();
    match (greedy.choose_among(&list), single.choose_among(&list)) {
        (Ok(Choice::Token(token)), Ok(Choice::Candidates(candidates))) => assert_eq!(candidates, vec![token]),
        _ => panic!("no single candidate"),
    }
}
