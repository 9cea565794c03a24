//! The closed set of mail domains that the service hosts.

use crate::sample::{lemma_scaled_below, lemma_scaled_share, Fraction, Sample};
use vstd::prelude::*;

verus! {

/// Number of domains in the registry.
pub const DOMAIN_COUNT: u64 = 7;

/// A mail domain of the service.
#[derive(Clone, Copy, Debug, PartialEq, Eq, Hash, Structural)]
pub enum Domain {
    SecMailCom,
    SecMailOrg,
    YoggmCom,
    EsiixCom,
    XojxeCom,
    SecMailNet,
    WwjmpCom,
}

impl Domain {
    /// The registry in selection order: the domain that stands at `index`.
    /// Indices from `DOMAIN_COUNT` on name no domain; the last one stands in.
    pub open spec fn at(index: nat) -> Domain {
        if index == 0 {
            Domain::SecMailCom
        } else if index == 1 {
            Domain::SecMailOrg
        } else if index == 2 {
            Domain::SecMailNet
        } else if index == 3 {
            Domain::WwjmpCom
        } else if index == 4 {
            Domain::XojxeCom
        } else if index == 5 {
            Domain::EsiixCom
        } else {
            Domain::YoggmCom
        }
    }

    /// The place of `self` in the registry.
    pub open spec fn position(self) -> nat {
        match self {
            Domain::SecMailCom => 0,
            Domain::SecMailOrg => 1,
            Domain::SecMailNet => 2,
            Domain::WwjmpCom => 3,
            Domain::XojxeCom => 4,
            Domain::EsiixCom => 5,
            Domain::YoggmCom => 6,
        }
    }

    /// The host name under which the service knows the domain.
    pub open spec fn display(self) -> Seq<char> {
        match self {
            Domain::SecMailCom => "1secmail.com"@,
            Domain::SecMailOrg => "1secmail.org"@,
            Domain::SecMailNet => "1secmail.net"@,
            Domain::WwjmpCom => "wwjmp.com"@,
            Domain::EsiixCom => "esiix.com"@,
            Domain::XojxeCom => "xojxe.com"@,
            Domain::YoggmCom => "yoggm.com"@,
        }
    }

    /// The domain chosen by a uniform sample: the unit interval is cut into
    /// `DOMAIN_COUNT` equal shares, one for each domain in registry order.
    pub open spec fn selected(sample: Fraction) -> Domain {
        Domain::at(sample.scaled(DOMAIN_COUNT as nat))
    }

    /// The domain at `index` of the registry, if there is one.
    pub fn nth(index: u64) -> (domain: Option<Domain>)
        ensures
            index < DOMAIN_COUNT ==> domain == Some(Domain::at(index as nat)),
            index >= DOMAIN_COUNT ==> domain is None,
    {
        if index == 0 {
            Some(Domain::SecMailCom)
        } else if index == 1 {
            Some(Domain::SecMailOrg)
        } else if index == 2 {
            Some(Domain::SecMailNet)
        } else if index == 3 {
            Some(Domain::WwjmpCom)
        } else if index == 4 {
            Some(Domain::XojxeCom)
        } else if index == 5 {
            Some(Domain::EsiixCom)
        } else if index == 6 {
            Some(Domain::YoggmCom)
        } else {
            None
        }
    }

    /// The place of the domain in the registry.
    pub fn index(&self) -> (index: u64)
        ensures
            index == self.position(),
            index < DOMAIN_COUNT,
    {
        match self {
            Domain::SecMailCom => 0,
            Domain::SecMailOrg => 1,
            Domain::SecMailNet => 2,
            Domain::WwjmpCom => 3,
            Domain::XojxeCom => 4,
            Domain::EsiixCom => 5,
            Domain::YoggmCom => 6,
        }
    }

    /// Selects the domain in whose share of the unit interval `sample` falls.
    pub fn from_sample(sample: &Sample) -> (domain: Domain)
        ensures
            domain == Domain::selected(sample@),
            sample@.scaled(DOMAIN_COUNT as nat) < DOMAIN_COUNT,
    {
        let index: u64 = sample.scale(DOMAIN_COUNT);
        match Domain::nth(index) {
            Some(domain) => domain,
            None => Domain::YoggmCom,
        }
    }

    /// Selects a domain with a sample drawn from the random generator.
    pub fn random() -> (domain: Domain)
        ensures
            exists|sample: Fraction|
                sample.in_unit_interval() && domain == #[trigger] Domain::selected(sample),
    {
        let sample = Sample::random();
        Domain::from_sample(&sample)
    }

    /// The host name of the domain.
    pub fn as_str(&self) -> (name: &'static str)
        ensures
            name@ == self.display(),
    {
        match self {
            Domain::SecMailCom => "1secmail.com",
            Domain::SecMailOrg => "1secmail.org",
            Domain::SecMailNet => "1secmail.net",
            Domain::WwjmpCom => "wwjmp.com",
            Domain::EsiixCom => "esiix.com",
            Domain::XojxeCom => "xojxe.com",
            Domain::YoggmCom => "yoggm.com",
        }
    }

    /// The host name of the domain, owned.
    pub fn to_string(&self) -> (name: String)
        ensures
            name@ == self.display(),
    {
        String::from_str(self.as_str())
    }
}

impl Default for Domain {
    /// The domain an identity gets when none is named.
    fn default() -> (domain: Domain)
        ensures
            domain == Domain::SecMailCom,
    {
        Domain::SecMailCom
    }
}

/// The registry lists every domain once: `at` and `position` are inverse to
/// each other on the indices below `DOMAIN_COUNT`.
pub proof fn lemma_registry_is_a_bijection(domain: Domain, index: nat)
    ensures
        domain.position() < DOMAIN_COUNT,
        Domain::at(domain.position()) == domain,
        index < DOMAIN_COUNT ==> Domain::at(index).position() == index,
{
}

/// Whatever the sample, the selected index names a domain of the registry;
/// this holds up to the largest sample below one.
pub proof fn lemma_selection_in_range(sample: Fraction)
    requires
        sample.in_unit_interval(),
    ensures
        sample.scaled(DOMAIN_COUNT as nat) < DOMAIN_COUNT,
        Domain::selected(sample).position() == sample.scaled(DOMAIN_COUNT as nat),
{
    lemma_scaled_below(sample, DOMAIN_COUNT as nat);
}

/// Every domain has an equal share of the unit interval: the domain at
/// place `p` of the registry is selected by the samples from `p / 7` up to,
/// and not including, `(p + 1) / 7`, and by no other.
pub proof fn lemma_equal_shares(sample: Fraction, domain: Domain)
    requires
        sample.in_unit_interval(),
    ensures
        Domain::selected(sample) == domain <==> domain.position() * sample.denominator
            <= sample.numerator * DOMAIN_COUNT < (domain.position() + 1) * sample.denominator,
{
    lemma_selection_in_range(sample);
    lemma_scaled_share(sample, DOMAIN_COUNT as nat, domain.position());
    lemma_registry_is_a_bijection(domain, sample.scaled(DOMAIN_COUNT as nat));
}

/// The point of bin `i` that lies `offset` of a bin's width behind the
/// left edge of the bin, when the unit interval is cut into `count` equal
/// bins. With the offset zero it is the left edge itself.
pub open spec fn even_sample(i: nat, count: nat, offset: Fraction) -> Fraction {
    Fraction {
        numerator: i * offset.denominator + offset.numerator,
        denominator: count * offset.denominator,
    }
}

/// An evenly spaced sample lies in the unit interval, in the bin it is
/// named after.
pub proof fn lemma_even_sample_in_bin(i: nat, count: nat, offset: Fraction)
    requires
        i < count,
        offset.in_unit_interval(),
    ensures
        even_sample(i, count, offset).in_unit_interval(),
        even_sample(i, count, offset).scaled(count) == i,
{
    let m = offset.denominator;
    let c = offset.numerator;
    let numerator = i * m + c;
    let denominator = count * m;
    assert(numerator < denominator) by (nonlinear_arith)
        requires
            numerator == i * m + c,
            denominator == count * m,
            c < m,
            i < count,
    ;
    assert(numerator * count / denominator == i) by (nonlinear_arith)
        requires
            numerator == i * m + c,
            denominator == count * m,
            0 <= c < m,
            0 <= i < count,
    ;
}

/// Evenly spaced samples reach every domain. Take `count` samples, one at
/// the same place in each of `count` equal bins of the unit interval: as
/// soon as there are as many samples as domains, at least one of them
/// selects `domain`.
pub proof fn lemma_even_samples_reach_every_domain(count: nat, offset: Fraction, domain: Domain)
    requires
        count >= DOMAIN_COUNT,
        offset.in_unit_interval(),
    ensures
        exists|i: nat|
            i < count && Domain::selected(#[trigger] even_sample(i, count, offset)) == domain,
{
    let j = domain.position() as int;
    let m = offset.denominator as int;
    let c = offset.numerator as int;
    let width: int = count * m;
    let low: int = j * width;
    let share: int = 7 * m;
    assert(width >= 7 * m) by (nonlinear_arith)
        requires
            width == count * m,
            count >= 7,
            m >= 0,
    ;
    assert(low >= 0) by (nonlinear_arith)
        requires
            low == j * width,
            j >= 0,
            width >= 0,
    ;
    let i: nat = if 7 * c >= low {
        0
    } else {
        ((low - 7 * c + share - 1) / share) as nat
    };
    let numerator: int = i * m + c;
    assert(low <= 7 * numerator < low + 7 * m) by {
        if 7 * c >= low {
            assert(numerator == c) by (nonlinear_arith)
                requires
                    numerator == i * m + c,
                    i == 0,
            ;
        } else {
            let x = low - 7 * c;
            let q = (x + share - 1) / share;
            assert(x <= share * q && share * q <= x + share - 1) by (nonlinear_arith)
                requires
                    q == (x + share - 1) / share,
                    share > 0,
                    x > 0,
            ;
            assert(7 * numerator == share * q + 7 * c) by (nonlinear_arith)
                requires
                    numerator == i * m + c,
                    share == 7 * m,
                    i == q,
            ;
        }
    }
    assert(7 * numerator < (j + 1) * width) by (nonlinear_arith)
        requires
            7 * numerator < low + 7 * m,
            low == j * width,
            width >= 7 * m,
    ;
    assert(numerator * 7 / width == j) by (nonlinear_arith)
        requires
            j * width <= 7 * numerator,
            7 * numerator < (j + 1) * width,
            width > 0,
            j >= 0,
    ;
    assert(i < count) by (nonlinear_arith)
        requires
            7 * numerator < (j + 1) * width,
            numerator == i * m + c,
            width == count * m,
            j <= 6,
            c >= 0,
            m > 0,
            i >= 0,
    ;
    assert(even_sample(i, count, offset).scaled(DOMAIN_COUNT as nat) == j);
    assert(Domain::selected(even_sample(i, count, offset)) == domain);
}

/// The host names of the registry, in registry order.
pub open spec fn canonical_names() -> Seq<Seq<char>> {
    seq![
        "1secmail.com"@,
        "1secmail.org"@,
        "1secmail.net"@,
        "wwjmp.com"@,
        "xojxe.com"@,
        "esiix.com"@,
        "yoggm.com"@,
    ]
}

/// Every domain is shown under one of the canonical host names, its own:
/// the one at its place in the registry.
pub proof fn lemma_display_is_canonical(domain: Domain)
    ensures
        canonical_names().len() == DOMAIN_COUNT,
        canonical_names()[domain.position() as int] == domain.display(),
        canonical_names().contains(domain.display()),
{
    assert(canonical_names()[domain.position() as int] == domain.display());
}

/// No two domains share a host name.
pub proof fn lemma_display_is_injective(a: Domain, b: Domain)
    requires
        a.display() == b.display(),
    ensures
        a == b,
{
    reveal_host_names();
    if a != b {
        let x = a.display();
        let y = b.display();
        assert(x.len() != y.len() || x[0] != y[0] || x[9] != y[9] || x[10] != y[10]);
    }
}

/// A host name is made of lower-case letters, digits and dots, and is not
/// empty.
pub proof fn lemma_display_is_plain(domain: Domain)
    ensures
        domain.display().len() >= 9,
        forall|i: int|
            0 <= i < domain.display().len() ==> is_host_char(#[trigger] domain.display()[i]),
{
    reveal_host_names();
}

/// The characters of a host name.
pub open spec fn is_host_char(c: char) -> bool {
    ('a' <= c && c <= 'z') || ('0' <= c && c <= '9') || c == '.'
}

proof fn reveal_host_names()
    ensures
        "1secmail.com"@ == seq!['1', 's', 'e', 'c', 'm', 'a', 'i', 'l', '.', 'c', 'o', 'm'],
        "1secmail.org"@ == seq!['1', 's', 'e', 'c', 'm', 'a', 'i', 'l', '.', 'o', 'r', 'g'],
        "1secmail.net"@ == seq!['1', 's', 'e', 'c', 'm', 'a', 'i', 'l', '.', 'n', 'e', 't'],
        "wwjmp.com"@ == seq!['w', 'w', 'j', 'm', 'p', '.', 'c', 'o', 'm'],
        "xojxe.com"@ == seq!['x', 'o', 'j', 'x', 'e', '.', 'c', 'o', 'm'],
        "esiix.com"@ == seq!['e', 's', 'i', 'i', 'x', '.', 'c', 'o', 'm'],
        "yoggm.com"@ == seq!['y', 'o', 'g', 'g', 'm', '.', 'c', 'o', 'm'],
{
    reveal_strlit("1secmail.com");
    reveal_strlit("1secmail.org");
    reveal_strlit("1secmail.net");
    reveal_strlit("wwjmp.com");
    reveal_strlit("xojxe.com");
    reveal_strlit("esiix.com");
    reveal_strlit("yoggm.com");
    assert("1secmail.com"@ =~= seq!['1', 's', 'e', 'c', 'm', 'a', 'i', 'l', '.', 'c', 'o', 'm']);
    assert("1secmail.org"@ =~= seq!['1', 's', 'e', 'c', 'm', 'a', 'i', 'l', '.', 'o', 'r', 'g']);
    assert("1secmail.net"@ =~= seq!['1', 's', 'e', 'c', 'm', 'a', 'i', 'l', '.', 'n', 'e', 't']);
    assert("wwjmp.com"@ =~= seq!['w', 'w', 'j', 'm', 'p', '.', 'c', 'o', 'm']);
    assert("xojxe.com"@ =~= seq!['x', 'o', 'j', 'x', 'e', '.', 'c', 'o', 'm']);
    assert("esiix.com"@ =~= seq!['e', 's', 'i', 'i', 'x', '.', 'c', 'o', 'm']);
    assert("yoggm.com"@ =~= seq!['y', 'o', 'g', 'g', 'm', '.', 'c', 'o', 'm']);
}

} // verus!
