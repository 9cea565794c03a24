//! Mailbox identities: a username at a domain of the service.

use crate::domain::Domain;
use crate::sample::{lemma_scaled_below, Fraction, Sample};
use vstd::prelude::*;

verus! {

/// Length of the shortest generated username.
pub const USERNAME_MIN: u64 = 10;

/// Number of lengths a generated username can have, from `USERNAME_MIN` up.
pub const USERNAME_SPAN: u64 = 40;

/// Bound on the length of a generated username.
pub const USERNAME_MAX: u64 = 50;

/// Number of symbols that generated usernames are made of.
pub const ALPHABET_SIZE: u64 = 62;

/// The symbol at `index` of the alphabet: the lower-case letters, then the
/// upper-case letters, then the digits.
pub open spec fn symbol_at(index: nat) -> char {
    if index < 26 {
        (0x61 + index) as char
    } else if index < 52 {
        (0x41 + index - 26) as char
    } else {
        (0x30 + index - 52) as char
    }
}

/// The alphabet of generated usernames.
pub open spec fn alphabet() -> Seq<char> {
    Seq::new(ALPHABET_SIZE as nat, |i: int| symbol_at(i as nat))
}

/// The symbol chosen by a uniform sample, each symbol of the alphabet
/// having an equal share of the unit interval.
pub open spec fn symbol(sample: Fraction) -> char {
    symbol_at(sample.scaled(ALPHABET_SIZE as nat))
}

/// The username length chosen by a uniform sample: `USERNAME_MIN` plus the
/// integer part of the sample times `USERNAME_SPAN`.
pub open spec fn username_length(sample: Fraction) -> nat {
    USERNAME_MIN as nat + sample.scaled(USERNAME_SPAN as nat)
}

/// The mathematical value of a [`Tempmail`].
pub struct TempmailView {
    pub username: Seq<char>,
    pub domain: Domain,
}

/// The identity that a script of samples generates: the first sample
/// chooses the length of the username, the next ones its symbols, one
/// each, and the one after them the domain. A script too short for that
/// generates nothing; samples past the domain's are not looked at.
pub open spec fn generated(script: Seq<Fraction>) -> Option<TempmailView> {
    if script.len() == 0 {
        None
    } else {
        let length = username_length(script[0]);
        if script.len() < length + 2 {
            None
        } else {
            Some(
                TempmailView {
                    username: Seq::new(length, |i: int| symbol(script[1 + i])),
                    domain: Domain::selected(script[1 + length as int]),
                },
            )
        }
    }
}

/// Every sample of the script lies in the unit interval.
pub open spec fn all_in_unit_interval(script: Seq<Fraction>) -> bool {
    forall|i: int| 0 <= i < script.len() ==> (#[trigger] script[i]).in_unit_interval()
}

/// The mathematical values of a script of samples.
pub open spec fn fractions(script: Seq<Sample>) -> Seq<Fraction> {
    Seq::new(script.len(), |i: int| script[i]@)
}

/// The alphabet is the string of the 26 lower-case letters, the 26
/// upper-case letters and the 10 digits, and no symbol stands in it twice.
pub proof fn lemma_alphabet()
    ensures
        alphabet() == "abcdefghijklmnopqrstuvwxyzABCDEFGHIJKLMNOPQRSTUVWXYZ0123456789"@,
        alphabet().len() == ALPHABET_SIZE,
        forall|i: int, j: int|
            0 <= i < j < ALPHABET_SIZE ==> #[trigger] alphabet()[i] != #[trigger] alphabet()[j],
{
    reveal_strlit("abcdefghijklmnopqrstuvwxyzABCDEFGHIJKLMNOPQRSTUVWXYZ0123456789");
    let text = "abcdefghijklmnopqrstuvwxyzABCDEFGHIJKLMNOPQRSTUVWXYZ0123456789"@;
    assert(alphabet() =~= text);
    assert forall|i: int, j: int| 0 <= i < j < ALPHABET_SIZE implies #[trigger] alphabet()[i]
        != #[trigger] alphabet()[j] by {
        assert(alphabet()[i] as int != alphabet()[j] as int);
    }
}

/// A symbol chosen by a sample of the unit interval is a symbol of the
/// alphabet: the one at the sample's share.
pub proof fn lemma_symbol_in_alphabet(sample: Fraction)
    requires
        sample.in_unit_interval(),
    ensures
        sample.scaled(ALPHABET_SIZE as nat) < ALPHABET_SIZE,
        symbol(sample) == alphabet()[sample.scaled(ALPHABET_SIZE as nat) as int],
        alphabet().contains(symbol(sample)),
{
    lemma_scaled_below(sample, ALPHABET_SIZE as nat);
}

/// A username length chosen by a sample of the unit interval lies between
/// `USERNAME_MIN` and `USERNAME_MAX`; the upper bound itself is not reached.
pub proof fn lemma_username_length_in_range(sample: Fraction)
    requires
        sample.in_unit_interval(),
    ensures
        USERNAME_MIN <= username_length(sample) < USERNAME_MAX,
{
    lemma_scaled_below(sample, USERNAME_SPAN as nat);
}

/// Whatever the samples, a generated username has between `USERNAME_MIN`
/// and `USERNAME_MAX` symbols, all of the alphabet.
pub proof fn lemma_generated_username(script: Seq<Fraction>)
    requires
        all_in_unit_interval(script),
        generated(script) is Some,
    ensures
        USERNAME_MIN <= generated(script)->0.username.len() <= USERNAME_MAX,
        forall|i: int|
            0 <= i < generated(script)->0.username.len() ==> alphabet().contains(
                #[trigger] generated(script)->0.username[i],
            ),
{
    lemma_username_length_in_range(script[0]);
    let username = generated(script)->0.username;
    assert forall|i: int| 0 <= i < username.len() implies alphabet().contains(
        #[trigger] username[i],
    ) by {
        lemma_symbol_in_alphabet(script[1 + i]);
    }
}

/// The username length that `sample` chooses.
pub fn length_from_sample(sample: &Sample) -> (length: usize)
    ensures
        length == username_length(sample@),
        USERNAME_MIN <= length < USERNAME_MAX,
{
    let extra: u64 = sample.scale(USERNAME_SPAN);
    (USERNAME_MIN + extra) as usize
}

/// The symbol of the alphabet that `sample` chooses.
pub fn symbol_from_sample(sample: &Sample) -> (c: char)
    ensures
        c == symbol(sample@),
        alphabet().contains(c),
{
    let index: u64 = sample.scale(ALPHABET_SIZE);
    let offset: u8 = index as u8;
    let c = if offset < 26 {
        (0x61 + offset) as char
    } else if offset < 52 {
        (0x41 + (offset - 26)) as char
    } else {
        (0x30 + (offset - 52)) as char
    };
    assert(alphabet()[index as int] == c);
    c
}

/// A string of `length` symbols, each chosen by a sample drawn from the
/// random generator. The samples drawn are handed back for the record.
fn random_string(length: usize) -> (drawn: (String, Ghost<Seq<Fraction>>))
    ensures
        drawn.0@.len() == length,
        drawn.1@.len() == length,
        all_in_unit_interval(drawn.1@),
        forall|i: int| 0 <= i < length ==> drawn.0@[i] == symbol(#[trigger] drawn.1@[i]),
{
    let mut text = String::new();
    let ghost mut samples: Seq<Fraction> = Seq::empty();
    let mut i: usize = 0;
    while i < length
        invariant
            i <= length,
            text@.len() == i,
            samples.len() == i,
            all_in_unit_interval(samples),
            forall|k: int| 0 <= k < i ==> text@[k] == symbol(#[trigger] samples[k]),
        decreases length - i,
    {
        let sample = Sample::random();
        let c = symbol_from_sample(&sample);
        text.push(c);
        proof {
            samples = samples.push(sample@);
        }
        i += 1;
    }
    (text, Ghost(samples))
}

/// A mailbox of the service: a username at one of its domains. Whether the
/// service accepts the username is for the service to say.
#[derive(Clone, Debug, PartialEq, Eq)]
pub struct Tempmail {
    pub username: String,
    pub domain: Domain,
}

impl View for Tempmail {
    type V = TempmailView;

    open spec fn view(&self) -> TempmailView {
        TempmailView { username: self.username@, domain: self.domain }
    }
}

impl Tempmail {
    /// The identity `username` at `domain`, or at the default domain where
    /// none is given. The username is taken as it is.
    pub fn new(username: &str, domain: Option<Domain>) -> (identity: Tempmail)
        ensures
            identity@.username == username@,
            identity@.domain == match domain {
                Some(d) => d,
                None => Domain::SecMailCom,
            },
    {
        let domain = match domain {
            Some(d) => d,
            None => Domain::default(),
        };
        Tempmail { username: String::from_str(username), domain }
    }

    /// The identity that `script` generates, if the script is long enough.
    pub fn from_samples(script: &Vec<Sample>) -> (identity: Option<Tempmail>)
        ensures
            match identity {
                Some(made) => generated(fractions(script@)) == Some(made@),
                None => generated(fractions(script@)) is None,
            },
    {
        if script.len() == 0 {
            return None;
        }
        let length: usize = length_from_sample(&script[0]);
        if script.len() - 1 <= length {
            return None;
        }
        let mut username = String::new();
        let mut i: usize = 0;
        while i < length
            invariant
                i <= length,
                length + 2 <= script.len(),
                username@.len() == i,
                forall|k: int| 0 <= k < i ==> username@[k] == symbol(#[trigger] script[1 + k]@),
            decreases length - i,
        {
            let c = symbol_from_sample(&script[1 + i]);
            username.push(c);
            i += 1;
        }
        let domain = Domain::from_sample(&script[1 + length]);
        let made = Tempmail { username, domain };
        proof {
            let expected = generated(fractions(script@))->0;
            assert(made@.username =~= expected.username);
        }
        Some(made)
    }

    /// An identity generated from samples drawn from the random generator:
    /// a username of `USERNAME_MIN` to `USERNAME_MAX` symbols of the
    /// alphabet, at a domain of the registry.
    pub fn random() -> (identity: Tempmail)
        ensures
            USERNAME_MIN <= identity@.username.len() <= USERNAME_MAX,
            forall|i: int|
                0 <= i < identity@.username.len() ==> alphabet().contains(
                    #[trigger] identity@.username[i],
                ),
            exists|script: Seq<Fraction>|
                all_in_unit_interval(script) && #[trigger] generated(script) == Some(identity@),
    {
        let length_sample = Sample::random();
        let length: usize = length_from_sample(&length_sample);
        let (username, Ghost(symbol_samples)) = random_string(length);
        let domain_sample = Sample::random();
        let domain = Domain::from_sample(&domain_sample);
        let identity = Tempmail { username, domain };
        proof {
            let script = seq![length_sample@] + symbol_samples + seq![domain_sample@];
            assert(script[0] == length_sample@);
            assert(script[1 + length] == domain_sample@);
            assert forall|i: int| 0 <= i < script.len() implies (
            #[trigger] script[i]).in_unit_interval() by {
                if 1 <= i <= length {
                    assert(script[i] == symbol_samples[i - 1]);
                }
            }
            assert forall|i: int| 0 <= i < length implies identity@.username[i] == symbol(
                script[1 + i],
            ) by {
                assert(script[1 + i] == symbol_samples[i]);
            }
            assert(generated(script)->0.username =~= identity@.username);
            assert(generated(script) == Some(identity@));
            lemma_generated_username(script);
        }
        identity
    }
}

} // verus!
