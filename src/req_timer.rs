//! Request identifiers, made from the time a request came in.
use crate::text::string_of;
use vstd::prelude::*;

verus! {

pub open spec fn digit_char(d: int) -> char {
    seq!['0', '1', '2', '3', '4', '5', '6', '7', '8', '9'][d]
}

/// The decimal digits of `n`, most significant first.
pub open spec fn decimal(n: nat) -> Seq<char>
    decreases n,
{
    if n < 10 {
        seq![digit_char(n as int)]
    } else {
        decimal(n / 10).push(digit_char((n % 10) as int))
    }
}

/// The identifier of a request that came in `secs` seconds after the epoch.
pub open spec fn request_uid(secs: nat) -> Seq<char> {
    "request-"@ + decimal(secs)
}

/// Relies on `SystemTime::elapsed` of the epoch: the time since it, in whole
/// seconds, or `None` for a clock set before it.
#[verifier::external_body]
fn secs_since_epoch() -> (r: Option<u64>) {
    std::time::UNIX_EPOCH.elapsed().ok().map(|d| d.as_secs())
}

/// The identifier of a request that came in `secs` seconds after the epoch.
pub fn request_uid_at(secs: u64) -> (r: String)
    ensures
        r@ == request_uid(secs as nat),
{
    let digits: Vec<char> = vec!['0', '1', '2', '3', '4', '5', '6', '7', '8', '9'];
    assert(digits@ =~= seq!['0', '1', '2', '3', '4', '5', '6', '7', '8', '9']);
    let mut n: u64 = secs;
    let mut d: Vec<char> = Vec::new();
    while n >= 10
        invariant
            digits@ == seq!['0', '1', '2', '3', '4', '5', '6', '7', '8', '9'],
            decimal(secs as nat) == decimal(n as nat) + d@,
        decreases n,
    {
        let c = digits[(n % 10) as usize];
        d.insert(0, c);
        assert(decimal(n as nat) == decimal((n / 10) as nat).push(c));
        n = n / 10;
        assert(decimal(secs as nat) =~= decimal(n as nat) + d@);
    }
    d.insert(0, digits[n as usize]);
    assert(decimal(secs as nat) =~= d@);
    let mut r = "request-".to_owned();
    r.append(string_of(&d).as_str());
    r
}

/// The identifier of a request that comes in now; a clock set before the
/// epoch counts as the epoch.
pub fn get_request_uid() -> (r: String)
    ensures
        exists|secs: nat| r@ == request_uid(secs),
{
    let secs = match secs_since_epoch() {
        Some(s) => s,
        None => 0,
    };
    request_uid_at(secs)
}

} // verus!
