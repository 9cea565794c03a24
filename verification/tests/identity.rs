use tempmail::identity::{
    length_from_sample, symbol_from_sample, ALPHABET_SIZE, USERNAME_MAX, USERNAME_MIN,
};
use tempmail::{Domain, Sample, Tempmail};

const ALPHABET: &str = "abcdefghijklmnopqrstuvwxyzABCDEFGHIJKLMNOPQRSTUVWXYZ0123456789";

fn sample(numerator: u64, denominator: u64) -> Sample {
    Sample::new(numerator, denominator).unwrap()
}

#[test]
fn new_keeps_username_and_domain() {
    let mail = Tempmail::new("example", Some(Domain::EsiixCom));
    assert_eq!(mail.username, "example");
    assert_eq!(mail.domain, Domain::EsiixCom);
}

#[test]
fn new_without_domain_uses_the_default() {
    let mail = Tempmail::new("example", None);
    assert_eq!(mail.username, "example");
    assert_eq!(mail.domain, Domain::SecMailCom);
}

#[test]
fn new_does_not_validate_the_username() {
    let mail = Tempmail::new("", None);
    assert_eq!(mail.username, "");
    let mail = Tempmail::new("a b&c=d@é", Some(Domain::YoggmCom));
    assert_eq!(mail.username, "a b&c=d@é");
}

#[test]
fn symbols_follow_the_alphabet() {
    assert_eq!(ALPHABET_SIZE, 62);
    assert_eq!(ALPHABET.chars().count(), 62);
    for (index, expected) in ALPHABET.chars().enumerate() {
        assert_eq!(symbol_from_sample(&sample(index as u64, 62)), expected);
    }
    assert_eq!(symbol_from_sample(&sample(0, 1)), 'a');
    assert_eq!(symbol_from_sample(&sample(21, 62)), 'v');
    assert_eq!(symbol_from_sample(&sample(47, 62)), 'V');
    assert_eq!(symbol_from_sample(&sample(1, 2)), 'F');
    assert_eq!(symbol_from_sample(&sample(u64::MAX - 1, u64::MAX)), '9');
}

#[test]
fn length_is_ten_plus_the_integer_part_of_forty_samples() {
    assert_eq!(USERNAME_MIN, 10);
    assert_eq!(USERNAME_MAX, 50);
    assert_eq!(length_from_sample(&sample(0, 1)), 10);
    assert_eq!(length_from_sample(&sample(1, 2)), 30);
    assert_eq!(length_from_sample(&sample(1, 40)), 11);
    assert_eq!(length_from_sample(&sample(79, 3200)), 10);
    assert_eq!(length_from_sample(&sample(39, 40)), 49);
    assert_eq!(length_from_sample(&sample(u64::MAX - 1, u64::MAX)), 49);
    for numerator in 0..1000 {
        let length = length_from_sample(&sample(numerator, 1000));
        assert!((10..=50).contains(&length));
        assert_eq!(length, (10.0 + (numerator as f64 / 1000.0) * 40.0).floor() as usize);
    }
}

#[test]
fn script_generates_length_symbols_and_domain_in_turn() {
    let mut script = vec![sample(0, 1)];
    for index in 0..10 {
        script.push(sample(index, 62));
    }
    script.push(sample(3, 7));
    let mail = Tempmail::from_samples(&script).expect("twelve samples are enough");
    assert_eq!(mail.username, "abcdefghij");
    assert_eq!(mail.domain, Domain::WwjmpCom);
}

#[test]
fn script_ignores_samples_past_the_domain() {
    let mut script = vec![sample(1, 40)];
    for _ in 0..11 {
        script.push(sample(61, 62));
    }
    script.push(sample(6, 7));
    script.push(sample(0, 1));
    script.push(sample(0, 1));
    let mail = Tempmail::from_samples(&script).unwrap();
    assert_eq!(mail.username, "99999999999");
    assert_eq!(mail.domain, Domain::YoggmCom);
}

#[test]
fn script_that_is_too_short_generates_nothing() {
    assert_eq!(Tempmail::from_samples(&Vec::new()), None);
    assert_eq!(Tempmail::from_samples(&vec![sample(0, 1)]), None);
    let eleven = vec![sample(0, 1); 11];
    assert_eq!(Tempmail::from_samples(&eleven), None);
    let twelve = vec![sample(0, 1); 12];
    let mail = Tempmail::from_samples(&twelve).unwrap();
    assert_eq!(mail.username, "aaaaaaaaaa");
    assert_eq!(mail.domain, Domain::SecMailCom);
}

#[test]
fn longest_script_generates_forty_nine_symbols() {
    let mut script = vec![sample(39, 40)];
    for index in 0..49 {
        script.push(sample(index % 62, 62));
    }
    script.push(sample(5, 7));
    let mail = Tempmail::from_samples(&script).unwrap();
    assert_eq!(mail.username.len(), 49);
    assert_eq!(mail.username, &ALPHABET[..49]);
    assert_eq!(mail.domain, Domain::EsiixCom);
    script.truncate(50);
    assert_eq!(Tempmail::from_samples(&script), None);
}

#[test]
fn random_identity_has_ten_to_fifty_symbols_of_the_alphabet() {
    let mut lengths = std::collections::BTreeSet::new();
    for _ in 0..500 {
        let mail = Tempmail::random();
        let length = mail.username.chars().count();
        assert!((10..=50).contains(&length), "length {length}");
        assert!(mail.username.chars().all(|c| ALPHABET.contains(c)));
        lengths.insert(length);
    }
    assert!(lengths.len() > 1);
}
