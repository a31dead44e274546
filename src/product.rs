//! A product line and the rule that derives its sales tax and total.
use vstd::prelude::*;
use crate::amount::{Amount, lemma_normalize, normalize, normalize_exec, same_value};
use crate::text::trimmed;

verus! {

/// The sales tax on one unit, a fifth of its price: `2m / 10^(s+1)` for a
/// price of `m / 10^s`, in lowest terms.
pub open spec fn tax_parts(price: (nat, nat)) -> (nat, nat) {
    normalize(2 * price.0, price.1 + 1)
}

/// The total of a line, the price and its tax times the quantity:
/// `12mq / 10^(s+1)` for a price of `m / 10^s`, in lowest terms.
pub open spec fn total_parts(price: (nat, nat), quantity: nat) -> (nat, nat) {
    normalize(12 * price.0 * quantity, price.1 + 1)
}

/// The derived amounts of a line fit the representation: the exact total is
/// formed in 128 bits, and tax and total in lowest terms fit 64 bits.
pub open spec fn derivable(price: (nat, nat), quantity: nat) -> bool {
    12 * price.0 * quantity <= u128::MAX && tax_parts(price).0 <= u64::MAX && total_parts(
        price,
        quantity,
    ).0 <= u64::MAX
}

/// A name that is not empty and has no blanks at either end.
pub open spec fn valid_name(s: Seq<char>) -> bool {
    s.len() > 0 && trimmed(s) == s
}

/// One inventory line.
#[derive(Debug)]
pub struct Product {
    pub product_type: String,
    pub quantity: u64,
    pub price_per_unit: Amount,
    pub sales_tax: Amount,
    pub total_price: Amount,
}

impl Product {
    /// The field constraints, and tax and total derived from price and
    /// quantity.
    pub open spec fn wf(&self) -> bool {
        &&& valid_name(self.product_type@)
        &&& self.quantity > 0
        &&& self.price_per_unit.wf()
        &&& self.price_per_unit.mantissa > 0
        &&& derivable(self.price_per_unit.parts(), self.quantity as nat)
        &&& self.sales_tax.parts() == tax_parts(self.price_per_unit.parts())
        &&& self.total_price.parts() == total_parts(
            self.price_per_unit.parts(),
            self.quantity as nat,
        )
    }

    /// A line with the given name, quantity and unit price, and its sales tax
    /// and total derived; `None` when those do not fit the representation.
    pub fn new(product_type: String, quantity: u64, price_per_unit: Amount) -> (r: Option<Product>)
        requires
            valid_name(product_type@),
            quantity > 0,
            price_per_unit.wf(),
            price_per_unit.mantissa > 0,
        ensures
            r is Some <==> derivable(price_per_unit.parts(), quantity as nat),
            r matches Some(p) ==> p.wf() && p.product_type@ == product_type@ && p.quantity
                == quantity && p.price_per_unit == price_per_unit,
    {
        let m = price_per_unit.mantissa as u128;
        let s = price_per_unit.scale;
        let q = quantity as u128;
        let base: u128 = 12 * m;
        if q > u128::MAX / base {
            assert(12 * m * q > u128::MAX) by (nonlinear_arith)
                requires
                    q > u128::MAX / base,
                    base == 12 * m,
                    base > 0,
            ;
            return None;
        }
        assert(base * q <= u128::MAX) by (nonlinear_arith)
            requires
                q <= u128::MAX / base,
                base > 0,
        ;
        let (tm, ts) = normalize_exec(2 * m, s + 1);
        let (pm, ps) = normalize_exec(base * q, s + 1);
        proof {
            lemma_normalize(2 * m as nat, s as nat + 1);
            lemma_normalize(12 * m as nat * q as nat, s as nat + 1);
        }
        if tm > u64::MAX as u128 || pm > u64::MAX as u128 {
            return None;
        }
        let tax = Amount { mantissa: tm as u64, scale: ts };
        let total = Amount { mantissa: pm as u64, scale: ps };
        Some(
            Product {
                product_type,
                quantity,
                price_per_unit,
                sales_tax: tax,
                total_price: total,
            },
        )
    }
}

/// The sales tax of a line is a fifth of its unit price, and its total is the
/// unit price and the tax together, times the quantity. With the price
/// `m / 10^s`, the tax equals `2m / 10^(s+1)` and the total equals
/// `(10m + 2m) q / 10^(s+1)`.
pub proof fn lemma_derived_amounts(p: Product)
    requires
        p.wf(),
    ensures
        ({
            let (m, s) = p.price_per_unit.parts();
            let q = p.quantity as nat;
            &&& same_value(p.sales_tax.parts().0, p.sales_tax.parts().1, 2 * m, s + 1)
            &&& same_value(
                p.total_price.parts().0,
                p.total_price.parts().1,
                (10 * m + 2 * m) * q,
                s + 1,
            )
        }),
{
    let (m, s) = p.price_per_unit.parts();
    let q = p.quantity as nat;
    lemma_normalize(2 * m, s + 1);
    lemma_normalize(12 * m * q, s + 1);
    assert((10 * m + 2 * m) * q == 12 * m * q) by (nonlinear_arith);
}

} // verus!
