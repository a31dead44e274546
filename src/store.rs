//! The inventory: an ordered list of product lines, with validated adding,
//! deletion by 1-based position, and the listing text.
use vstd::prelude::*;
use crate::amount::{Amount, NumberIssue, amount_text, parse_amount, parse_amount_spec};
use crate::product::{Product, derivable, valid_name};
use crate::text::{
    all_digits, digit_value, digits_of, is_digit_char, push_number, trim_blanks, trimmed,
    value_of,
};

verus! {

/// Why an add or a delete was refused before anything changed.
#[derive(Clone, Copy, Debug, PartialEq, Eq)]
pub enum InputError {
    /// The product name is empty once blanks are removed.
    ProductType,
    /// The quantity is not a whole number greater than zero.
    Quantity(NumberIssue),
    /// The unit price is not a number greater than zero, or the line's
    /// derived amounts cannot be represented.
    Price(NumberIssue),
    /// The position is not a number, or not that of a line.
    Id(NumberIssue),
}

/// Strips a leading plus sign.
pub open spec fn without_plus(s: Seq<char>) -> Seq<char> {
    if s.len() > 0 && s[0] == '+' {
        s.drop_first()
    } else {
        s
    }
}

/// The whole number that `s` writes: an optional `+`, then one or more
/// digits, with a value that fits 64 bits.
pub open spec fn parse_count_spec(s: Seq<char>) -> Result<nat, NumberIssue> {
    let b = without_plus(s);
    if b.len() == 0 || !all_digits(b) {
        Err(NumberIssue::NotANumber)
    } else if value_of(b) > u64::MAX {
        Err(NumberIssue::OutOfRange)
    } else {
        Ok(value_of(b))
    }
}

/// Parses a whole number.
pub fn parse_count(t: &str) -> (r: Result<u64, NumberIssue>)
    ensures
        match r {
            Ok(v) => parse_count_spec(t@) == Ok::<nat, NumberIssue>(v as nat),
            Err(e) => parse_count_spec(t@) == Err::<nat, NumberIssue>(e),
        },
{
    let n = t.unicode_len();
    let mut start: usize = 0;
    if n > 0 && t.get_char(0) == '+' {
        start = 1;
    }
    let ghost b = without_plus(t@);
    assert(b =~= t@.subrange(start as int, n as int));
    if start == n {
        return Err(NumberIssue::NotANumber);
    }
    let mut i: usize = start;
    let mut v: u64 = 0;
    let mut big = false;
    while i < n
        invariant
            n == t@.len(),
            start <= i <= n,
            b == t@.subrange(start as int, n as int),
            b == without_plus(t@),
            all_digits(b.subrange(0, i - start)),
            !big ==> v as nat == value_of(b.subrange(0, i - start)),
            big ==> value_of(b.subrange(0, i - start)) > u64::MAX,
        decreases n - i,
    {
        let c = t.get_char(i);
        let ghost k = i - start;
        let ghost before = value_of(b.subrange(0, k));
        assert(b.subrange(0, k + 1).drop_last() =~= b.subrange(0, k));
        assert(b[k] == c);
        if !('0' <= c && c <= '9') {
            assert(!is_digit_char(b[k]));
            assert(!all_digits(b));
            return Err(NumberIssue::NotANumber);
        }
        let d = (c as u32 - '0' as u32) as u64;
        assert(d as nat == digit_value(c));
        assert(value_of(b.subrange(0, k + 1)) == before * 10 + d);
        if !big {
            if v > (u64::MAX - d) / 10 {
                assert(v * 10 + d > u64::MAX) by (nonlinear_arith)
                    requires
                        v > (u64::MAX - d) / 10,
                        d < 10,
                ;
                big = true;
            } else {
                v = v * 10 + d;
            }
        }
        i = i + 1;
        assert(all_digits(b.subrange(0, i - start))) by {
            assert forall|j: int| 0 <= j < i - start implies is_digit_char(
                #[trigger] b.subrange(0, i - start)[j],
            ) by {
                if j < k {
                    assert(b.subrange(0, i - start)[j] == b.subrange(0, k)[j]);
                }
            }
        }
    }
    assert(b.subrange(0, n - start) =~= b);
    if big {
        return Err(NumberIssue::OutOfRange);
    }
    Ok(v)
}

/// What adding a line with these texts gives: the name, quantity and unit
/// price of the new line, or the first field that fails, checked in the
/// order name, quantity, price.
pub open spec fn add_check(product_type: Seq<char>, quantity: Seq<char>, price: Seq<char>) -> Result<
    (Seq<char>, nat, (nat, nat)),
    InputError,
> {
    if trimmed(product_type).len() == 0 {
        Err(InputError::ProductType)
    } else {
        match parse_count_spec(quantity) {
            Err(e) => Err(InputError::Quantity(e)),
            Ok(q) => if q == 0 {
                Err(InputError::Quantity(NumberIssue::OutOfRange))
            } else {
                match parse_amount_spec(price) {
                    Err(e) => Err(InputError::Price(e)),
                    Ok(p) => if !derivable(p, q) {
                        Err(InputError::Price(NumberIssue::OutOfRange))
                    } else {
                        Ok((trimmed(product_type), q, p))
                    },
                }
            },
        }
    }
}

/// What deleting the line at position text `id` in an inventory of `len`
/// lines gives: the 0-based index of the line, or why there is none.
pub open spec fn delete_check(id: Seq<char>, len: nat) -> Result<nat, InputError> {
    match parse_count_spec(id) {
        Err(e) => Err(InputError::Id(e)),
        Ok(k) => if 1 <= k <= len {
            Ok((k - 1) as nat)
        } else {
            Err(InputError::Id(NumberIssue::OutOfRange))
        },
    }
}

/// The product lines, in the order they were added.
pub struct Inventory {
    products: Vec<Product>,
}

impl View for Inventory {
    type V = Seq<Product>;

    closed spec fn view(&self) -> Seq<Product> {
        self.products@
    }
}

/// Every line meets the field constraints and carries its derived amounts.
pub open spec fn all_wf(ps: Seq<Product>) -> bool {
    forall|i: int| 0 <= i < ps.len() ==> (#[trigger] ps[i]).wf()
}

impl Inventory {
    pub open spec fn wf(&self) -> bool {
        all_wf(self@)
    }

    /// An empty inventory.
    pub fn new() -> (r: Inventory)
        ensures
            r@.len() == 0,
            r.wf(),
    {
        Inventory { products: Vec::new() }
    }

    /// An inventory of the given lines, in their order.
    pub fn from_products(products: Vec<Product>) -> (r: Inventory)
        requires
            all_wf(products@),
        ensures
            r@ == products@,
            r.wf(),
    {
        Inventory { products }
    }

    /// The number of lines.
    pub fn len(&self) -> (r: usize)
        ensures
            r == self@.len(),
    {
        self.products.len()
    }

    /// The lines, in order.
    pub fn products(&self) -> (r: &Vec<Product>)
        ensures
            r@ == self@,
    {
        &self.products
    }

    /// Adds a line from the texts of its name, quantity and unit price, or
    /// reports the first field that fails and leaves the inventory as it was.
    pub fn add(&mut self, product_type: &str, quantity: &str, price_per_unit: &str) -> (r: Result<
        (),
        InputError,
    >)
        requires
            old(self).wf(),
        ensures
            final(self).wf(),
            match add_check(product_type@, quantity@, price_per_unit@) {
                Err(e) => r == Err::<(), InputError>(e) && final(self)@ == old(self)@,
                Ok((name, q, price)) => {
                    &&& r is Ok
                    &&& final(self)@.len() == old(self)@.len() + 1
                    &&& final(self)@.subrange(0, old(self)@.len() as int) == old(self)@
                    &&& final(self)@.last().product_type@ == name
                    &&& final(self)@.last().quantity == q
                    &&& final(self)@.last().price_per_unit.parts() == price
                },
            },
    {
        let name = trim_blanks(product_type);
        if name.as_str().unicode_len() == 0 {
            return Err(InputError::ProductType);
        }
        let q = match parse_count(quantity) {
            Err(e) => {
                return Err(InputError::Quantity(e));
            },
            Ok(q) => q,
        };
        if q == 0 {
            return Err(InputError::Quantity(NumberIssue::OutOfRange));
        }
        let price = match parse_amount(price_per_unit) {
            Err(e) => {
                return Err(InputError::Price(e));
            },
            Ok(p) => p,
        };
        proof {
            crate::text::lemma_trimmed_is_trimmed(product_type@);
        }
        match Product::new(name, q, price) {
            None => Err(InputError::Price(NumberIssue::OutOfRange)),
            Some(p) => {
                self.products.push(p);
                assert(self@.subrange(0, old(self)@.len() as int) =~= old(self)@);
                Ok(())
            },
        }
    }

    /// Removes the line at the 1-based position that `id` writes, or reports
    /// why there is none and leaves the inventory as it was. The lines after
    /// it move up by one.
    pub fn delete(&mut self, id: &str) -> (r: Result<(), InputError>)
        requires
            old(self).wf(),
        ensures
            final(self).wf(),
            match delete_check(id@, old(self)@.len()) {
                Err(e) => r == Err::<(), InputError>(e) && final(self)@ == old(self)@,
                Ok(i) => r is Ok && final(self)@ == old(self)@.remove(i as int),
            },
    {
        let k = match parse_count(id) {
            Err(e) => {
                return Err(InputError::Id(e));
            },
            Ok(k) => k,
        };
        if k == 0 || k > self.products.len() as u64 {
            return Err(InputError::Id(NumberIssue::OutOfRange));
        }
        let i = (k - 1) as usize;
        self.products.remove(i);
        assert forall|j: int| 0 <= j < self@.len() implies (#[trigger] self@[j]).wf() by {
            if j < i {
                assert(self@[j] == old(self)@[j]);
            } else {
                assert(self@[j] == old(self)@[j + 1]);
            }
        }
        Ok(())
    }
}

/// One line of the listing, for the line at 1-based position `ordinal`.
pub open spec fn line_text(ordinal: nat, p: Product) -> Seq<char> {
    digits_of(ordinal) + ". Item: "@ + p.product_type@ + ", Qty: "@ + digits_of(p.quantity as nat)
        + ", Price: $"@ + amount_text(p.price_per_unit.parts().0, p.price_per_unit.parts().1)
        + ", Sales Tax: $"@ + amount_text(p.sales_tax.parts().0, p.sales_tax.parts().1)
        + ", T.Price: $"@ + amount_text(p.total_price.parts().0, p.total_price.parts().1) + "\n"@
}

/// The lines of `ps`, each numbered by its position and ended by a newline.
pub open spec fn lines_text(ps: Seq<Product>) -> Seq<char>
    decreases ps.len(),
{
    if ps.len() == 0 {
        Seq::empty()
    } else {
        lines_text(ps.drop_last()) + line_text(ps.len(), ps.last())
    }
}

/// The listing of an inventory: its lines, or a notice when it has none.
pub open spec fn listing_text(ps: Seq<Product>) -> Seq<char> {
    if ps.len() == 0 {
        "No products in the inventory."@
    } else {
        lines_text(ps)
    }
}

/// Appends the listing line of `p` at position `ordinal` to `out`.
fn push_line(out: &mut String, ordinal: u64, p: &Product)
    ensures
        final(out)@ == old(out)@ + line_text(ordinal as nat, *p),
{
    let ghost before = out@;
    push_number(out, ordinal);
    out.append(". Item: ");
    out.append(p.product_type.as_str());
    out.append(", Qty: ");
    push_number(out, p.quantity);
    out.append(", Price: $");
    out.append(p.price_per_unit.text().as_str());
    out.append(", Sales Tax: $");
    out.append(p.sales_tax.text().as_str());
    out.append(", T.Price: $");
    out.append(p.total_price.text().as_str());
    out.append("\n");
    assert(out@ =~= before + line_text(ordinal as nat, *p));
}

impl Inventory {
    /// The listing: one numbered line per product, or a notice when there is
    /// none.
    pub fn listing(&self) -> (r: String)
        ensures
            r@ == listing_text(self@),
    {
        if self.products.len() == 0 {
            return String::from_str("No products in the inventory.");
        }
        let mut out = String::new();
        let mut i: usize = 0;
        while i < self.products.len()
            invariant
                i <= self@.len(),
                out@ == lines_text(self@.subrange(0, i as int)),
            decreases self@.len() - i,
        {
            let ghost before = out@;
            push_line(&mut out, (i + 1) as u64, &self.products[i]);
            assert(self@.subrange(0, i + 1).drop_last() =~= self@.subrange(0, i as int));
            assert(out@ =~= before + line_text((i + 1) as nat, self@[i as int]));
            i = i + 1;
        }
        assert(self@.subrange(0, self@.len() as int) =~= self@);
        out
    }
}

/// A delete succeeds exactly when its text writes a position from 1 to the
/// number of lines; any other text, numeric or not, is refused.
pub proof fn lemma_delete_position(id: Seq<char>, len: nat)
    ensures
        delete_check(id, len) is Ok <==> (parse_count_spec(id) matches Ok(k) && 1 <= k <= len),
        delete_check(id, len) matches Ok(i) ==> parse_count_spec(id) == Ok::<nat, NumberIssue>(
            i + 1,
        ),
{
}

/// After deleting the line at position `k` of `n` lines, the lines before it
/// keep their positions and each line at position `j > k` moves to `j - 1`.
pub proof fn lemma_delete_shift(before: Seq<Product>, k: int)
    requires
        1 <= k <= before.len(),
    ensures
        ({
            let after = before.remove(k - 1);
            &&& after.len() == before.len() - 1
            &&& forall|j: int| 1 <= j < k ==> #[trigger] after[j - 1] == before[j - 1]
            &&& forall|j: int| k < j <= before.len() ==> #[trigger] after[j - 2] == before[j - 1]
        }),
{
}

/// When several fields of an add are wrong, the one reported is the first in
/// the order name, quantity, price.
pub proof fn lemma_add_check_order(product_type: Seq<char>, quantity: Seq<char>, price: Seq<char>)
    ensures
        trimmed(product_type).len() == 0 ==> add_check(product_type, quantity, price)
            == Err::<(Seq<char>, nat, (nat, nat)), InputError>(InputError::ProductType),
        trimmed(product_type).len() > 0 && !(parse_count_spec(quantity) matches Ok(q) && q > 0)
            ==> add_check(product_type, quantity, price) matches Err(InputError::Quantity(_)),
        trimmed(product_type).len() > 0 && (parse_count_spec(quantity) matches Ok(q) && q > 0)
            && parse_amount_spec(price) is Err ==> add_check(product_type, quantity, price) matches Err(
            InputError::Price(_),
        ),
{
}

} // verus!
