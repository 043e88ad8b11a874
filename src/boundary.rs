use vstd::prelude::*;
use std::collections::hash_map::DefaultHasher;
use std::hash::Hasher;

verus! {

/// The decimal digit character for `d`.
pub open spec fn digit_char(d: int) -> char {
    ((48 + d) as u8) as char
}

/// The decimal rendering of `n`, without leading zeros.
pub open spec fn decimal(n: nat) -> Seq<char>
    decreases n,
{
    if n < 10 {
        seq![digit_char(n as int)]
    } else {
        decimal(n / 10).push(digit_char((n % 10) as int))
    }
}

/// Fifteen `=` characters.
pub open spec fn boundary_head() -> Seq<char> {
    Seq::new(15, |_i: int| '=')
}

/// The boundary built from the hash `h`: fifteen `=`, the decimal digits of `h`, then `==`.
pub open spec fn boundary_of(h: nat) -> Seq<char> {
    boundary_head() + decimal(h) + seq!['=', '=']
}

/// `s` has the boundary shape: fifteen `=`, one or more decimal digits, then `==`.
pub open spec fn is_boundary(s: Seq<char>) -> bool {
    &&& s.len() >= 18
    &&& forall|i: int| 0 <= i < 15 ==> s[i] == '='
    &&& forall|i: int| 15 <= i < s.len() - 2 ==> '0' <= #[trigger] s[i] <= '9'
    &&& s[s.len() - 2] == '='
    &&& s[s.len() - 1] == '='
}

/// A decimal rendering is one or more digits.
pub proof fn lemma_decimal_digits(n: nat)
    ensures
        decimal(n).len() >= 1,
        forall|i: int| 0 <= i < decimal(n).len() ==> '0' <= #[trigger] decimal(n)[i] <= '9',
    decreases n,
{
    if n >= 10 {
        lemma_decimal_digits(n / 10);
    }
}

/// Every boundary built from a hash has the boundary shape.
pub proof fn lemma_boundary_shape(h: nat)
    ensures
        is_boundary(boundary_of(h)),
{
    lemma_decimal_digits(h);
    let s = boundary_of(h);
    let d = decimal(h);
    assert forall|i: int| 15 <= i < s.len() - 2 implies '0' <= #[trigger] s[i] <= '9' by {
        assert(s[i] == d[i - 15]);
    }
}

/// Renders the boundary for the hash `h`.
pub fn format_boundary(h: u64) -> (r: String)
    ensures
        r@ == boundary_of(h as nat),
        is_boundary(r@),
{
    let mut rev: Vec<char> = Vec::new();
    let mut n: u64 = h;
    rev.push(((48 + n % 10) as u8) as char);
    n = n / 10;
    assert(rev@.reverse() =~= seq![digit_char((h % 10) as int)]);
    while n > 0
        invariant
            n > 0 ==> decimal(h as nat) == decimal(n as nat) + rev@.reverse(),
            n == 0 ==> decimal(h as nat) == rev@.reverse(),
        decreases n,
    {
        let ghost before = rev@;
        rev.push(((48 + n % 10) as u8) as char);
        proof {
            assert(rev@.reverse() =~= seq![digit_char((n % 10) as int)] + before.reverse());
            if n >= 10 {
                assert(decimal(n as nat) == decimal((n / 10) as nat).push(digit_char((n % 10) as int)));
                assert(decimal((n / 10) as nat).push(digit_char((n % 10) as int)) + before.reverse()
                    =~= decimal((n / 10) as nat) + rev@.reverse());
            } else {
                assert(decimal(n as nat) == seq![digit_char(n as int)]);
            }
        }
        n = n / 10;
    }
    let mut r = String::new();
    let mut i: usize = 0;
    while i < 15
        invariant
            i <= 15,
            r@ == Seq::new(i as nat, |_j: int| '='),
        decreases 15 - i,
    {
        r.push('=');
        i += 1;
        assert(r@ =~= Seq::new(i as nat, |_j: int| '='));
    }
    let mut k: usize = rev.len();
    while k > 0
        invariant
            k <= rev.len(),
            r@ == boundary_head() + rev@.reverse().take((rev.len() - k) as int),
        decreases k,
    {
        k -= 1;
        r.push(rev[k]);
        assert(rev@.reverse().take((rev.len() - k) as int) =~= rev@.reverse().take(
            (rev.len() - k - 1) as int,
        ).push(rev@[k as int]));
    }
    assert(rev@.reverse().take(rev.len() as int) =~= rev@.reverse());
    r.push('=');
    r.push('=');
    assert(r@ =~= boundary_of(h as nat));
    proof {
        lemma_boundary_shape(h as nat);
    }
    r
}

/// Relies on `mime_multipart::generate_boundary` for fresh random text on each call; nothing
/// is promised of its value.
#[verifier::external_body]
fn boundary_seed() -> (r: Vec<u8>) {
    mime_multipart::generate_boundary()
}

/// A fresh boundary: random text hashed to 64 bits and rendered in the boundary shape.
pub fn generate_boundary() -> (r: String)
    ensures
        is_boundary(r@),
        exists|h: u64| r@ == boundary_of(h as nat),
{
    let seed = boundary_seed();
    let mut hasher = DefaultHasher::new();
    hasher.write(seed.as_slice());
    let h = hasher.finish();
    format_boundary(h)
}

} // verus!
