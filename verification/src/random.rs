use vstd::prelude::*;
use rand::seq::SliceRandom;
use rand::Rng;

verus! {

/// One element of `entry`, chosen at random (`SliceRandom::choose` with
/// the thread-local generator). Which one is left to chance; it is always
/// an element of `entry`.
#[verifier::external_body]
pub fn pick<T: Copy>(entry: &[T]) -> (r: T)
    requires
        entry@.len() > 0,
    ensures
        entry@.contains(r),
{
    *entry.choose(&mut rand::thread_rng()).unwrap()
}

/// `Rng::gen_range(x..y)` with the thread-local generator: a number of the
/// range, which it panics on when empty.
#[verifier::external_body]
fn range_below(x: u64, y: u64) -> (r: u64)
    requires
        x < y,
    ensures
        x <= r < y,
{
    rand::thread_rng().gen_range(x..y)
}

/// `Rng::gen_range(x..=y)` with the thread-local generator: a number of the
/// range, which it panics on when empty.
#[verifier::external_body]
fn range_up_to(x: u64, y: u64) -> (r: u64)
    requires
        x <= y,
    ensures
        x <= r <= y,
{
    rand::thread_rng().gen_range(x..=y)
}

/// `Rng::gen_ratio(1, 2)` with the thread-local generator: true one time in
/// two.
#[verifier::external_body]
fn coin() -> bool {
    rand::thread_rng().gen_ratio(1, 2)
}

/// The `Alphanumeric` distribution sampled with the thread-local generator:
/// an ASCII letter or digit.
#[verifier::external_body]
fn alphanumeric() -> (c: char)
    ensures
        is_alphanumeric(c),
{
    char::from(rand::thread_rng().sample(rand::distributions::Alphanumeric))
}

/// An ASCII letter or digit.
pub open spec fn is_alphanumeric(c: char) -> bool {
    ('A' <= c <= 'Z') || ('a' <= c <= 'z') || ('0' <= c <= '9')
}

/// A number drawn from `x..y`; `x` itself when the range is empty because
/// `x == y`.
pub fn get(x: u64, y: u64) -> (r: u64)
    requires
        x <= y,
    ensures
        x == y ==> r == x,
        x < y ==> x <= r < y,
{
    if x == y {
        return x;
    }
    range_below(x, y)
}

/// A number drawn from `x..=y`.
pub fn get_inc(x: u64, y: u64) -> (r: u64)
    requires
        x <= y,
    ensures
        x <= r <= y,
{
    if x == y {
        return x;
    }
    range_up_to(x, y)
}

/// Heads or tails.
pub fn conflip() -> bool {
    coin()
}

/// A string of `len` letters and digits drawn at random.
pub fn str(len: usize) -> (r: String)
    ensures
        r@.len() == len,
        forall|i: int| 0 <= i < len ==> is_alphanumeric(#[trigger] r@[i]),
{
    let mut cs: Vec<char> = Vec::new();
    let mut i: usize = 0;
    while i < len
        invariant
            i <= len,
            cs@.len() == i,
            forall|j: int| 0 <= j < i ==> is_alphanumeric(#[trigger] cs@[j]),
        decreases len - i,
    {
        cs.push(alphanumeric());
        i = i + 1;
    }
    crate::text::string_from_chars(cs)
}

} // verus!
