//! Settlement: exact conservation of funds.
//!
//! The native tendered amount of a request is the first native payment
//! component; every non-native component is returned to the payer
//! unconditionally, and of the native amount exactly the excess over the
//! price is returned.

use vstd::prelude::*;

use crate::data::{Payment, Token};

verus! {

/// Whether a token is the primary settlement currency.
pub open spec fn is_native(t: Token) -> bool {
    t == Token::Native
}

/// The native amount tendered with a request: the amount of the first native
/// payment component, or zero when there is none.
pub open spec fn spec_tendered(s: Seq<Payment>) -> u128
    decreases s.len(),
{
    if s.len() == 0 {
        0
    } else if is_native(s.first().token) {
        s.first().amount
    } else {
        spec_tendered(s.drop_first())
    }
}

/// The non-native payment components, in order.
pub open spec fn spec_foreign(s: Seq<Payment>) -> Seq<Payment>
    decreases s.len(),
{
    if s.len() == 0 {
        Seq::empty()
    } else if is_native(s.last().token) {
        spec_foreign(s.drop_last())
    } else {
        spec_foreign(s.drop_last()).push(s.last())
    }
}

/// The native amount tendered with the given payments.
pub fn first_native_amount(payments: &Vec<Payment>) -> (r: u128)
    ensures
        r == spec_tendered(payments@),
{
    let n = payments.len();
    let mut i: usize = 0;
    proof {
        assert(payments@.skip(0) =~= payments@);
    }
    while i < n
        invariant
            n == payments@.len(),
            0 <= i <= n,
            spec_tendered(payments@) == spec_tendered(payments@.skip(i as int)),
        decreases n - i,
    {
        proof {
            assert(payments@.skip(i as int).first() == payments@[i as int]);
            assert(payments@.skip(i as int).drop_first() =~= payments@.skip(i as int + 1));
        }
        if matches!(payments[i].token, Token::Native) {
            return payments[i].amount;
        }
        i = i + 1;
    }
    proof {
        assert(payments@.skip(n as int) =~= Seq::<Payment>::empty());
    }
    0
}

/// Returns every non-native payment component, which the registry never
/// retains.
pub fn refund_with_detail(payments: &Vec<Payment>) -> (r: Vec<Payment>)
    ensures
        r@ == spec_foreign(payments@),
{
    let n = payments.len();
    let mut out: Vec<Payment> = Vec::new();
    let mut i: usize = 0;
    while i < n
        invariant
            n == payments@.len(),
            0 <= i <= n,
            out@ =~= spec_foreign(payments@.take(i as int)),
        decreases n - i,
    {
        proof {
            let t = payments@.take(i as int + 1);
            assert(t.last() == payments@[i as int]);
            assert(t.drop_last() =~= payments@.take(i as int));
        }
        if !matches!(payments[i].token, Token::Native) {
            out.push(payments[i]);
        }
        i = i + 1;
    }
    proof {
        assert(payments@.take(n as int) =~= payments@);
    }
    out
}

/// Returns exactly the excess of the tendered amount over the price; the
/// guard `tendered >= price` is enforced earlier as `InsufficientFunds`.
pub fn settle_excess(price: u128, tendered: u128) -> (r: u128)
    requires
        tendered >= price,
    ensures
        r == tendered - price,
        price + r == tendered,
{
    tendered - price
}

} // verus!
