//! Seeds for the pseudo-random source, taken from a command-line text when
//! one is given.
use vstd::prelude::*;
use vstd::string::*;
use crate::config::ConfigError;

verus! {

/// Relies on `rand::random`, which draws from the thread-local generator
/// seeded by the operating system: nothing is promised of the value.
pub assume_specification<T>[ rand::random::<T> ]() -> (r: T)
    where
        rand::distributions::Standard: rand::distributions::Distribution<T>,
;

/// The byte of the padding character `_`.
pub const PAD_BYTE: u8 = 95;

/// The first `n` bytes of `text` padded on the left with underscores to at
/// least `n` characters.
pub open spec fn seed_bytes(text: Seq<char>, n: int) -> Seq<u8> {
    let padded = if text.len() < n {
        Seq::new((n - text.len()) as nat, |i: int| '_') + text
    } else {
        text
    };
    Seq::new(n as nat, |i: int| padded[i] as u8)
}

/// The seed that `text` spells (see `seed_bytes`).
fn seed_from_text<const N: usize>(text: &str) -> (seed: [u8; N])
    requires
        text.is_ascii(),
    ensures
        seed@ == seed_bytes(text@, N as int),
{
    let len = text.unicode_len();
    let mut seed: [u8; N] = [0u8; N];
    let mut i: usize = 0;
    while i < N
        invariant
            text.is_ascii(),
            len == text@.len(),
            i <= N,
            seed@.len() == N,
            forall|t: int| 0 <= t < i ==> #[trigger] seed@[t] == seed_bytes(text@, N as int)[t],
        decreases N - i,
    {
        let b = if len < N {
            if i < N - len {
                PAD_BYTE
            } else {
                text.get_ascii(i - (N - len))
            }
        } else {
            text.get_ascii(i)
        };
        seed[i] = b;
        i += 1;
    }
    assert(seed@ =~= seed_bytes(text@, N as int));
    seed
}

/// A 16-byte seed: read from `arg` when given (see `seed_bytes`), else drawn
/// from the system's source of randomness.
pub fn generate_16rng_seed(arg: Option<&str>) -> (r: Result<[u8; 16], ConfigError>)
    ensures
        match arg {
            Some(text) => if text.is_ascii() {
                r is Ok && r->Ok_0@ == seed_bytes(text@, 16)
            } else {
                r == Err::<[u8; 16], ConfigError>(ConfigError::SeedNotAscii)
            },
            None => r is Ok,
        },
{
    match arg {
        None => Ok(rand::random::<[u8; 16]>()),
        Some(text) => {
            if !text.is_ascii() {
                return Err(ConfigError::SeedNotAscii);
            }
            Ok(seed_from_text::<16>(text))
        },
    }
}

/// A 32-byte seed: read from `arg` when given (see `seed_bytes`), else drawn
/// from the system's source of randomness.
pub fn generate_32rng_seed(arg: Option<&str>) -> (r: Result<[u8; 32], ConfigError>)
    ensures
        match arg {
            Some(text) => if text.is_ascii() {
                r is Ok && r->Ok_0@ == seed_bytes(text@, 32)
            } else {
                r == Err::<[u8; 32], ConfigError>(ConfigError::SeedNotAscii)
            },
            None => r is Ok,
        },
{
    match arg {
        None => Ok(rand::random::<[u8; 32]>()),
        Some(text) => {
            if !text.is_ascii() {
                return Err(ConfigError::SeedNotAscii);
            }
            Ok(seed_from_text::<32>(text))
        },
    }
}

} // verus!
