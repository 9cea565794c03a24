use tempmail::domain::DOMAIN_COUNT;
use tempmail::{Domain, Sample};

const REGISTRY: [Domain; 7] = [
    Domain::SecMailCom,
    Domain::SecMailOrg,
    Domain::SecMailNet,
    Domain::WwjmpCom,
    Domain::XojxeCom,
    Domain::EsiixCom,
    Domain::YoggmCom,
];

#[test]
fn display_gives_the_host_names() {
    assert_eq!(Domain::SecMailCom.to_string(), "1secmail.com");
    assert_eq!(Domain::SecMailOrg.to_string(), "1secmail.org");
    assert_eq!(Domain::SecMailNet.to_string(), "1secmail.net");
    assert_eq!(Domain::WwjmpCom.to_string(), "wwjmp.com");
    assert_eq!(Domain::EsiixCom.to_string(), "esiix.com");
    assert_eq!(Domain::XojxeCom.to_string(), "xojxe.com");
    assert_eq!(Domain::YoggmCom.to_string(), "yoggm.com");
    for domain in REGISTRY {
        assert_eq!(domain.as_str(), domain.to_string());
    }
}

#[test]
fn default_domain_is_the_first_of_the_registry() {
    assert_eq!(Domain::default(), Domain::SecMailCom);
    assert_eq!(Domain::default().to_string(), "1secmail.com");
}

#[test]
fn nth_follows_the_registry() {
    assert_eq!(DOMAIN_COUNT, 7);
    for (index, domain) in REGISTRY.iter().enumerate() {
        assert_eq!(Domain::nth(index as u64), Some(*domain));
        assert_eq!(domain.index(), index as u64);
    }
    assert_eq!(Domain::nth(7), None);
    assert_eq!(Domain::nth(u64::MAX), None);
}

#[test]
fn sample_zero_selects_the_first_domain() {
    let sample = Sample::new(0, 1).unwrap();
    assert_eq!(Domain::from_sample(&sample), Domain::SecMailCom);
}

#[test]
fn sample_approaching_one_selects_the_last_domain() {
    let sample = Sample::new(u64::MAX - 1, u64::MAX).unwrap();
    assert_eq!(Domain::from_sample(&sample), Domain::YoggmCom);
    let sample = Sample::new((1u64 << 53) - 1, 1u64 << 53).unwrap();
    assert_eq!(Domain::from_sample(&sample), Domain::YoggmCom);
}

#[test]
fn shares_change_at_the_sevenths() {
    assert_eq!(Domain::from_sample(&Sample::new(1, 7).unwrap()), Domain::SecMailOrg);
    assert_eq!(Domain::from_sample(&Sample::new(99, 700).unwrap()), Domain::SecMailCom);
    assert_eq!(Domain::from_sample(&Sample::new(1, 2).unwrap()), Domain::WwjmpCom);
    assert_eq!(Domain::from_sample(&Sample::new(6, 7).unwrap()), Domain::YoggmCom);
    assert_eq!(Domain::from_sample(&Sample::new(599, 700).unwrap()), Domain::EsiixCom);
}

#[test]
fn seven_even_samples_select_each_domain_once() {
    let selected: Vec<Domain> =
        (0..7).map(|i| Domain::from_sample(&Sample::new(i, 7).unwrap())).collect();
    assert_eq!(selected, REGISTRY.to_vec());
}

#[test]
fn even_samples_reach_every_domain() {
    for count in 7u64..200 {
        let mut hits = [0u64; 7];
        for i in 0..count {
            let domain = Domain::from_sample(&Sample::new(i, count).unwrap());
            hits[domain.index() as usize] += 1;
        }
        assert!(hits.iter().all(|&n| n >= 1), "count {count}: {hits:?}");
        assert_eq!(hits.iter().sum::<u64>(), count);
    }
}

#[test]
fn samples_at_the_middle_of_each_bin_reach_every_domain() {
    for count in 7u64..200 {
        let mut hits = [0u64; 7];
        for i in 0..count {
            let sample = Sample::new(2 * i + 1, 2 * count).unwrap();
            assert_eq!(sample.scale(count), i);
            hits[Domain::from_sample(&sample).index() as usize] += 1;
        }
        assert!(hits.iter().all(|&n| n >= 1), "count {count}: {hits:?}");
    }
}

#[test]
fn samples_at_uneven_places_of_eight_bins_can_miss_a_domain() {
    let places = [(0, 8), (13, 100), (29, 100), (3, 8), (4, 8), (5, 8), (6, 8), (7, 8)];
    let mut hits = [0u64; 7];
    for (bin, (numerator, denominator)) in places.into_iter().enumerate() {
        let sample = Sample::new(numerator, denominator).unwrap();
        assert_eq!(sample.scale(8), bin as u64);
        hits[Domain::from_sample(&sample).index() as usize] += 1;
    }
    assert_eq!(hits, [2, 0, 2, 1, 1, 1, 1]);
}

#[test]
fn fewer_samples_than_domains_cannot_reach_all() {
    let mut hits = [0u64; 7];
    for i in 0..6 {
        hits[Domain::from_sample(&Sample::new(i, 6).unwrap()).index() as usize] += 1;
    }
    assert!(hits.iter().any(|&n| n == 0));
}

#[test]
fn random_domain_is_of_the_registry() {
    let mut seen = [false; 7];
    for _ in 0..2000 {
        let domain = Domain::random();
        assert!(REGISTRY.contains(&domain));
        seen[domain.index() as usize] = true;
    }
    assert!(seen.iter().all(|&s| s));
}
