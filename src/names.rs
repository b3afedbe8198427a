use heck::CamelCase;
use heck::MixedCase;
use vstd::prelude::*;
use vstd::string::StringExecFns;

verus! {

/// The upper camel case form that heck gives to a string.
pub uninterp spec fn camel_of(s: Seq<char>) -> Seq<char>;

/// Relies on heck's `CamelCase::to_camel_case` (upper camel case): the result
/// depends on the characters of `s` alone.
#[verifier::external_body]
pub(crate) fn upper_camel(s: &str) -> (r: String)
    ensures
        r@ == camel_of(s@),
{
    s.to_camel_case()
}

/// The lower camel case form that heck gives to a string.
pub uninterp spec fn mixed_of(s: Seq<char>) -> Seq<char>;

/// Relies on heck's `MixedCase::to_mixed_case` (lower camel case): the result
/// depends on the characters of `s` alone.
#[verifier::external_body]
pub(crate) fn lower_camel(s: &str) -> (r: String)
    ensures
        r@ == mixed_of(s@),
{
    s.to_mixed_case()
}

/// The character of a decimal digit.
pub open spec fn digit_char(d: nat) -> char {
    if d == 0 { '0' }
    else if d == 1 { '1' }
    else if d == 2 { '2' }
    else if d == 3 { '3' }
    else if d == 4 { '4' }
    else if d == 5 { '5' }
    else if d == 6 { '6' }
    else if d == 7 { '7' }
    else if d == 8 { '8' }
    else { '9' }
}

/// The decimal notation of `n`, without leading zeros.
pub open spec fn decimal(n: nat) -> Seq<char>
    decreases n,
{
    if n < 10 {
        seq![digit_char(n)]
    } else {
        decimal(n / 10).push(digit_char(n % 10))
    }
}

fn digit_str(d: usize) -> (r: &'static str)
    requires
        d < 10,
    ensures
        r@ == seq![digit_char(d as nat)],
{
    proof {
        reveal_strlit("0");
        reveal_strlit("1");
        reveal_strlit("2");
        reveal_strlit("3");
        reveal_strlit("4");
        reveal_strlit("5");
        reveal_strlit("6");
        reveal_strlit("7");
        reveal_strlit("8");
        reveal_strlit("9");
    }
    let r = if d == 0 { "0" }
    else if d == 1 { "1" }
    else if d == 2 { "2" }
    else if d == 3 { "3" }
    else if d == 4 { "4" }
    else if d == 5 { "5" }
    else if d == 6 { "6" }
    else if d == 7 { "7" }
    else if d == 8 { "8" }
    else { "9" };
    assert(r@ =~= seq![digit_char(d as nat)]);
    r
}

/// Writes `n` in decimal notation.
pub fn decimal_string(n: usize) -> (r: String)
    ensures
        r@ == decimal(n as nat),
    decreases n,
{
    if n < 10 {
        String::from_str(digit_str(n))
    } else {
        let mut s = decimal_string(n / 10);
        s.append(digit_str(n % 10));
        proof {
            assert(s@ =~= decimal(n as nat));
        }
        s
    }
}

/// A group-and-order token: the group name, `@`, then the index in decimal.
pub open spec fn group_token_of(group: Seq<char>, idx: nat) -> Seq<char> {
    group + seq!['@'] + decimal(idx)
}

/// Builds the token that places an entry in `group` at position `idx`.
pub fn group_token(group: &str, idx: usize) -> (r: String)
    ensures
        r@ == group_token_of(group@, idx as nat),
{
    proof {
        reveal_strlit("@");
    }
    let mut s = String::from_str(group);
    s.append("@");
    let d = decimal_string(idx);
    s.append(d.as_str());
    proof {
        assert("@"@ =~= seq!['@']);
    }
    s
}

} // verus!
