//! Bearer secrets derived from declaration names, and the guard's check.

use vstd::prelude::*;
use vstd::string::*;

use crate::text::{push_text, text_of};

verus! {

/// The number of random characters in a bearer secret.
pub const SECRET_LEN: usize = 10;

/// The 64-bit hash of a name under the standard library's default hasher,
/// created with its fixed keys.
pub uninterp spec fn name_hash(s: Seq<char>) -> u64;

/// The first `n` characters that rand's alphanumeric distribution draws from
/// a standard generator seeded with `seed`.
pub uninterp spec fn alphanumeric_draws(seed: u64, n: usize) -> Seq<char>;

/// An ASCII letter or digit.
pub open spec fn is_alphanumeric(c: char) -> bool {
    ('a' <= c && c <= 'z') || ('A' <= c && c <= 'Z') || ('0' <= c && c <= '9')
}

/// Relies on `BuildHasher::hash_one` of `BuildHasherDefault<DefaultHasher>`:
/// it hashes the name with a hasher from `DefaultHasher::new`, whose keys
/// are fixed, so equal names hash equally.
#[verifier::external_body]
fn hash_name(s: &str) -> (r: u64)
    ensures
        r == name_hash(s@),
{
    let builder: std::hash::BuildHasherDefault<std::collections::hash_map::DefaultHasher> =
        std::hash::BuildHasherDefault::default();
    std::hash::BuildHasher::hash_one(&builder, s)
}

/// Relies on rand's `StdRng::seed_from_u64`, `Rng::sample_iter` and the
/// `Alphanumeric` distribution: the stream is fixed by the seed, never ends,
/// and each character is one of `A-Z`, `a-z` and `0-9`.
#[verifier::external_body]
fn draw_alphanumeric(seed: u64, n: usize) -> (r: String)
    ensures
        r@ == alphanumeric_draws(seed, n),
        r@.len() == n,
        forall|i: int| 0 <= i < n ==> is_alphanumeric(#[trigger] r@[i]),
{
    let rng = <rand::rngs::StdRng as rand::SeedableRng>::seed_from_u64(seed);
    rand::Rng::sample_iter(rng, rand::distributions::Alphanumeric).take(n).map(char::from).collect()
}

/// The bearer secret of the declaration `name`: `Bearer ` and ten
/// alphanumeric characters drawn from a generator seeded by the name's hash.
pub open spec fn secret_for(name: Seq<char>) -> Seq<char> {
    "Bearer "@ + alphanumeric_draws(name_hash(name), SECRET_LEN)
}

/// The `authorization` value that carries the drawn characters `drawn`.
pub fn bearer_header(drawn: &str) -> (r: String)
    ensures
        r@ == "Bearer "@ + drawn@,
{
    let mut r = text_of("Bearer ");
    push_text(&mut r, drawn);
    r
}

/// Derives the bearer secret shared by the guard and the client stub of the
/// declaration `name`.
pub fn bearer_secret(name: &str) -> (r: String)
    ensures
        r@ == secret_for(name@),
        r@.len() == 7 + SECRET_LEN,
        forall|i: int| 7 <= i < r@.len() ==> is_alphanumeric(#[trigger] r@[i]),
{
    let seed = hash_name(name);
    let draws = draw_alphanumeric(seed, SECRET_LEN);
    let r = bearer_header(draws.as_str());
    proof {
        reveal_strlit("Bearer ");
        assert forall|i: int| 7 <= i < r@.len() implies is_alphanumeric(#[trigger] r@[i]) by {
            assert(r@[i] == draws@[i - 7]);
        }
    }
    r
}

/// Whether a request's `authorization` header admits it to an endpoint
/// whose secret is `secret`: present, and equal to the secret.
pub open spec fn admits(header: Option<Seq<char>>, secret: Seq<char>) -> bool {
    header == Some(secret)
}

/// The guard's decision on a request's `authorization` header.
pub fn authorize(header: Option<&str>, secret: &str) -> (r: bool)
    ensures
        r == admits(
            match header {
                Some(h) => Some(h@),
                None => None,
            },
            secret@,
        ),
{
    match header {
        Some(h) => crate::text::same_text(h, secret),
        None => false,
    }
}

} // verus!
