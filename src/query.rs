//! A SQL query that selects users by a list of consecutive account ids.
use vstd::prelude::*;

verus! {

/// The ASCII digit for `d < 10`.
pub open spec fn digit_char(d: nat) -> char {
    (d + 48) as char
}

/// The decimal digits of `n`, without sign or leading zeros.
pub open spec fn decimal(n: nat) -> Seq<char>
    decreases n,
{
    if n < 10 {
        seq![digit_char(n)]
    } else {
        decimal(n / 10).push(digit_char(n % 10))
    }
}

/// The ids `1` to `k` in decimal, separated by a comma and a space.
pub open spec fn id_list(k: nat) -> Seq<char>
    decreases k,
{
    if k == 0 {
        Seq::empty()
    } else if k == 1 {
        decimal(1)
    } else {
        id_list((k - 1) as nat) + seq![',', ' '] + decimal(k)
    }
}

/// Relies on u32's Display, through to_string: its decimal digits.
#[verifier::external_body]
fn decimal_string(n: u32) -> (r: String)
    ensures
        r@ == decimal(n as nat),
{
    n.to_string()
}

/// `SELECT * FROM User WHERE account_id IN (1, 2, ..., last)`.
pub fn in_list_query(last: u32) -> (r: String)
    ensures
        r@ == "SELECT * FROM User WHERE account_id IN ("@ + id_list(last as nat) + seq![')'],
{
    let mut query = String::from_str("SELECT * FROM User WHERE account_id IN (");
    let ghost head = query@;
    let mut i: u32 = 0;
    assert(head + id_list(0) =~= head);
    while i < last
        invariant
            i <= last,
            head == "SELECT * FROM User WHERE account_id IN ("@,
            query@ == head + id_list(i as nat),
        decreases last - i,
    {
        i = i + 1;
        if i > 1 {
            query.append(", ");
        }
        let digits = decimal_string(i);
        query.append(digits.as_str());
        proof {
            reveal_strlit(", ");
            assert(query@ =~= head + id_list(i as nat));
        }
    }
    query.append(")");
    proof {
        reveal_strlit(")");
    }
    query
}

} // verus!
