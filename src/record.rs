//! The stored form of an inventory: one record per line, with the amounts
//! written out as decimal text, and the way back from records to lines.
use vstd::prelude::*;
use crate::amount::{amount_text, lemma_amount_text_round_trip, parse_amount, parse_amount_spec};
use crate::product::{Product, derivable, valid_name};
use crate::store::{Inventory, all_wf};
use crate::text::trim_blanks;

verus! {

/// One stored line: the name, the quantity, and the unit price, sales tax
/// and total as decimal text.
#[derive(Debug)]
pub struct Record {
    pub product_type: String,
    pub quantity: u64,
    pub price_per_unit: String,
    pub sales_tax: String,
    pub total_price: String,
}

/// `r` is the stored form of `p`.
pub open spec fn encodes(r: Record, p: Product) -> bool {
    &&& r.product_type@ == p.product_type@
    &&& r.quantity == p.quantity
    &&& r.price_per_unit@ == amount_text(p.price_per_unit.parts().0, p.price_per_unit.parts().1)
    &&& r.sales_tax@ == amount_text(p.sales_tax.parts().0, p.sales_tax.parts().1)
    &&& r.total_price@ == amount_text(p.total_price.parts().0, p.total_price.parts().1)
}

/// The name, quantity and unit price of the line that a record holds, when
/// it holds a valid one. Tax and total are derived again from these, so
/// their stored text is not read.
pub open spec fn decode_spec(r: Record) -> Option<(Seq<char>, nat, (nat, nat))> {
    if valid_name(r.product_type@) && r.quantity > 0 {
        match parse_amount_spec(r.price_per_unit@) {
            Ok(p) => if derivable(p, r.quantity as nat) {
                Some((r.product_type@, r.quantity as nat, p))
            } else {
                None
            },
            Err(_) => None,
        }
    } else {
        None
    }
}

/// The name, quantity and unit price of a line.
pub open spec fn key_fields(p: Product) -> (Seq<char>, nat, (nat, nat)) {
    (p.product_type@, p.quantity as nat, p.price_per_unit.parts())
}

/// The stored form of each line, in order.
pub fn to_records(inv: &Inventory) -> (r: Vec<Record>)
    ensures
        r@.len() == inv@.len(),
        forall|i: int| 0 <= i < r@.len() ==> encodes(#[trigger] r@[i], inv@[i]),
{
    let ps = inv.products();
    let mut out: Vec<Record> = Vec::new();
    let mut i: usize = 0;
    while i < ps.len()
        invariant
            ps@ == inv@,
            i <= ps@.len(),
            out@.len() == i,
            forall|j: int| 0 <= j < i ==> encodes(#[trigger] out@[j], ps@[j]),
        decreases ps@.len() - i,
    {
        let p = &ps[i];
        let rec = Record {
            product_type: p.product_type.clone(),
            quantity: p.quantity,
            price_per_unit: p.price_per_unit.text(),
            sales_tax: p.sales_tax.text(),
            total_price: p.total_price.text(),
        };
        out.push(rec);
        i = i + 1;
    }
    out
}

/// The line that a record holds, or `None` when it holds no valid one.
pub fn decode(r: &Record) -> (res: Option<Product>)
    ensures
        match res {
            Some(p) => p.wf() && decode_spec(*r) == Some(key_fields(p)),
            None => decode_spec(*r) is None,
        },
{
    let name = trim_blanks(r.product_type.as_str());
    if r.quantity == 0 || name.as_str().unicode_len() == 0 || !(name == r.product_type) {
        return None;
    }
    let price = match parse_amount(r.price_per_unit.as_str()) {
        Ok(p) => p,
        Err(_) => {
            return None;
        },
    };
    Product::new(r.product_type.clone(), r.quantity, price)
}

/// The inventory that the records hold, in order, or `None` when one of
/// them holds no valid line.
pub fn from_records(rs: &Vec<Record>) -> (res: Option<Inventory>)
    ensures
        res is Some <==> forall|i: int| 0 <= i < rs@.len() ==> (decode_spec(#[trigger] rs@[i]) is Some),
        res matches Some(inv) ==> {
            &&& inv.wf()
            &&& inv@.len() == rs@.len()
            &&& forall|i: int| 0 <= i < rs@.len() ==> decode_spec(#[trigger] rs@[i]) == Some(key_fields(inv@[i]))
        },
{
    let mut ps: Vec<Product> = Vec::new();
    let mut i: usize = 0;
    while i < rs.len()
        invariant
            i <= rs@.len(),
            ps@.len() == i,
            all_wf(ps@),
            forall|j: int| 0 <= j < i ==> decode_spec(#[trigger] rs@[j]) == Some(key_fields(ps@[j])),
        decreases rs@.len() - i,
    {
        match decode(&rs[i]) {
            None => {
                return None;
            },
            Some(p) => {
                ps.push(p);
            },
        }
        i = i + 1;
    }
    let inv = Inventory::from_products(ps);
    Some(inv)
}

/// The inventory to start from: the one that the stored records hold, or an
/// empty one when there were no records to read (`None`) or one of them
/// holds no valid line.
pub fn restore(stored: Option<Vec<Record>>) -> (r: Inventory)
    ensures
        r.wf(),
        match stored {
            None => r@.len() == 0,
            Some(rs) => if forall|i: int| 0 <= i < rs@.len() ==> (decode_spec(#[trigger] rs@[i]) is Some) {
                r@.len() == rs@.len() && forall|i: int| 0 <= i < rs@.len() ==> decode_spec(#[trigger] rs@[i]) == Some(key_fields(r@[i]))
            } else {
                r@.len() == 0
            },
        },
{
    match stored {
        None => Inventory::new(),
        Some(rs) => match from_records(&rs) {
            Some(inv) => inv,
            None => Inventory::new(),
        },
    }
}

/// Storing lines and reading them back gives the same lines: each record
/// written for a valid line decodes to that line's name, quantity and unit
/// price, from which its tax and total are derived as before.
pub proof fn lemma_store_round_trip(ps: Seq<Product>, rs: Seq<Record>)
    requires
        all_wf(ps),
        rs.len() == ps.len(),
        forall|i: int| 0 <= i < rs.len() ==> encodes(#[trigger] rs[i], ps[i]),
    ensures
        forall|i: int| 0 <= i < rs.len() ==> decode_spec(#[trigger] rs[i]) == Some(key_fields(ps[i])),
{
    assert forall|i: int| 0 <= i < rs.len() implies decode_spec(#[trigger] rs[i]) == Some(
        key_fields(ps[i]),
    ) by {
        let p = ps[i];
        assert(p.wf());
        lemma_amount_text_round_trip(p.price_per_unit.parts().0, p.price_per_unit.parts().1);
    }
}

} // verus!
