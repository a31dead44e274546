use inventory_store::amount::{parse_amount, Amount, NumberIssue};
use inventory_store::command::{
    add_outcome, delete_outcome, list_outcome, CommandError, Severity,
};
use inventory_store::product::Product;
use inventory_store::record::{from_records, restore, to_records, Record};
use inventory_store::store::{parse_count, InputError, Inventory};
use inventory_store::text::{number_text, trim_blanks};

fn names(inv: &Inventory) -> Vec<String> {
    inv.products().iter().map(|p| p.product_type.clone()).collect()
}

#[test]
fn add_one_product_then_list() {
    let mut inv = Inventory::new();
    let r = inv.add("Pen", "3", "10").map_err(CommandError::Invalid);
    let o = add_outcome(&r);
    assert_eq!(o.severity, Severity::Info);
    assert_eq!(o.message, "Product saved successfully");
    assert_eq!(
        inv.listing(),
        "1. Item: Pen, Qty: 3, Price: $10, Sales Tax: $2, T.Price: $36\n"
    );
    let l = list_outcome(&inv);
    assert_eq!(l.severity, Severity::Info);
    assert!(l.message.starts_with("1. Item: Pen, Qty: 3, Price: $10, Sales Tax: $2, T.Price: $36"));
}

#[test]
fn stored_records_of_one_product() {
    let mut inv = Inventory::new();
    inv.add("Pen", "3", "10").unwrap();
    let rs = to_records(&inv);
    assert_eq!(rs.len(), 1);
    assert_eq!(rs[0].product_type, "Pen");
    assert_eq!(rs[0].quantity, 3);
    assert_eq!(rs[0].price_per_unit, "10");
    assert_eq!(rs[0].sales_tax, "2");
    assert_eq!(rs[0].total_price, "36");
}

#[test]
fn add_two_delete_first() {
    let mut inv = Inventory::new();
    inv.add("Pen", "3", "10").unwrap();
    inv.add("Book", "2", "20").unwrap();
    let r = inv.delete("1").map_err(CommandError::Invalid);
    let o = delete_outcome(&r);
    assert_eq!(o.severity, Severity::Info);
    assert_eq!(o.message, "Product deleted successfully!");
    assert_eq!(
        inv.listing(),
        "1. Item: Book, Qty: 2, Price: $20, Sales Tax: $4, T.Price: $48\n"
    );
}

#[test]
fn empty_product_type_rejected() {
    let mut inv = Inventory::new();
    let r = inv.add("", "1", "5");
    assert_eq!(r, Err(InputError::ProductType));
    let o = add_outcome(&r.map_err(CommandError::Invalid));
    assert_eq!(o.severity, Severity::Error);
    assert_eq!(o.message, "Error: Please enter a product type.");
    assert_eq!(inv.len(), 0);
    assert_eq!(inv.add("  \t ", "1", "5"), Err(InputError::ProductType));
    assert_eq!(inv.len(), 0);
}

#[test]
fn non_numeric_quantity_rejected() {
    let mut inv = Inventory::new();
    let r = inv.add("Pen", "abc", "10");
    assert_eq!(r, Err(InputError::Quantity(NumberIssue::NotANumber)));
    let o = add_outcome(&r.map_err(CommandError::Invalid));
    assert_eq!(o.message, "Error: Please enter a valid quantity.");
    assert_eq!(inv.len(), 0);
}

#[test]
fn delete_out_of_range_and_non_numeric() {
    let mut inv = Inventory::new();
    inv.add("Pen", "3", "10").unwrap();
    inv.add("Book", "2", "20").unwrap();
    let r = inv.delete("5");
    assert_eq!(r, Err(InputError::Id(NumberIssue::OutOfRange)));
    assert_eq!(
        delete_outcome(&r.map_err(CommandError::Invalid)).message,
        "Error: Invalid product ID."
    );
    let r = inv.delete("xyz");
    assert_eq!(r, Err(InputError::Id(NumberIssue::NotANumber)));
    assert_eq!(
        delete_outcome(&r.map_err(CommandError::Invalid)).message,
        "Error: Please enter a valid number."
    );
    assert_eq!(inv.len(), 2);
}

#[test]
fn unreadable_store_starts_empty() {
    let inv = restore(None);
    assert_eq!(inv.len(), 0);
    assert_eq!(list_outcome(&inv).message, "No products in the inventory.");
    let bad = Record {
        product_type: "Pen".to_string(),
        quantity: 3,
        price_per_unit: "not a number".to_string(),
        sales_tax: "2".to_string(),
        total_price: "36".to_string(),
    };
    assert_eq!(restore(Some(vec![bad])).len(), 0);
    let zero = Record {
        product_type: "Pen".to_string(),
        quantity: 0,
        price_per_unit: "10".to_string(),
        sales_tax: "2".to_string(),
        total_price: "0".to_string(),
    };
    assert!(from_records(&vec![zero]).is_none());
}

#[test]
fn records_round_trip() {
    let mut inv = Inventory::new();
    inv.add("Pen", "3", "10").unwrap();
    inv.add("Ink", "7", "0.05").unwrap();
    inv.add("Desk", "1", "123.45").unwrap();
    let back = from_records(&to_records(&inv)).unwrap();
    assert_eq!(back.len(), 3);
    for (a, b) in inv.products().iter().zip(back.products().iter()) {
        assert_eq!(a.product_type, b.product_type);
        assert_eq!(a.quantity, b.quantity);
        assert_eq!(a.price_per_unit, b.price_per_unit);
        assert_eq!(a.sales_tax, b.sales_tax);
        assert_eq!(a.total_price, b.total_price);
    }
    assert_eq!(back.listing(), inv.listing());
}

#[test]
fn restore_keeps_stored_order() {
    let mut inv = Inventory::new();
    inv.add("A", "1", "1").unwrap();
    inv.add("B", "2", "2").unwrap();
    let back = restore(Some(to_records(&inv)));
    assert_eq!(names(&back), vec!["A".to_string(), "B".to_string()]);
}

#[test]
fn derived_tax_and_total() {
    let price = parse_amount("2.5").unwrap();
    let p = Product::new("Cup".to_string(), 4, price).unwrap();
    assert_eq!(p.sales_tax, Amount { mantissa: 5, scale: 1 });
    assert_eq!(p.total_price, Amount { mantissa: 12, scale: 0 });
    assert_eq!(p.sales_tax.text(), "0.5");
    assert_eq!(p.total_price.text(), "12");
    let q = Product::new("Gum".to_string(), 3, parse_amount("0.1").unwrap()).unwrap();
    assert_eq!(q.sales_tax.text(), "0.02");
    assert_eq!(q.total_price.text(), "0.36");
}

#[test]
fn underivable_line_is_refused() {
    let price = Amount { mantissa: u64::MAX, scale: 0 };
    assert!(Product::new("Gold".to_string(), u64::MAX, price).is_none());
    let mut inv = Inventory::new();
    assert_eq!(
        inv.add("Gold", "18446744073709551615", "18446744073709551615"),
        Err(InputError::Price(NumberIssue::OutOfRange))
    );
    assert_eq!(inv.len(), 0);
}

#[test]
fn validation_order() {
    let mut inv = Inventory::new();
    assert_eq!(inv.add("", "abc", "x"), Err(InputError::ProductType));
    assert_eq!(
        inv.add("Pen", "abc", "x"),
        Err(InputError::Quantity(NumberIssue::NotANumber))
    );
    assert_eq!(
        inv.add("Pen", "0", "x"),
        Err(InputError::Quantity(NumberIssue::OutOfRange))
    );
    assert_eq!(
        inv.add("Pen", "3", "x"),
        Err(InputError::Price(NumberIssue::NotANumber))
    );
    assert_eq!(
        inv.add("Pen", "3", "-5"),
        Err(InputError::Price(NumberIssue::OutOfRange))
    );
    assert_eq!(
        inv.add("Pen", "3", "0"),
        Err(InputError::Price(NumberIssue::OutOfRange))
    );
    assert_eq!(
        add_outcome(&Err(CommandError::Invalid(InputError::Price(NumberIssue::OutOfRange)))).message,
        "Error: Please enter a valid price."
    );
    assert_eq!(inv.len(), 0);
}

#[test]
fn delete_positions() {
    let mut inv = Inventory::new();
    inv.add("A", "1", "1").unwrap();
    inv.add("B", "1", "1").unwrap();
    assert_eq!(inv.delete("0"), Err(InputError::Id(NumberIssue::OutOfRange)));
    assert_eq!(inv.delete("3"), Err(InputError::Id(NumberIssue::OutOfRange)));
    assert_eq!(inv.delete("-1"), Err(InputError::Id(NumberIssue::NotANumber)));
    assert_eq!(inv.delete("2"), Ok(()));
    assert_eq!(names(&inv), vec!["A".to_string()]);
}

#[test]
fn delete_shifts_later_lines() {
    let mut inv = Inventory::new();
    for n in ["A", "B", "C", "D"] {
        inv.add(n, "1", "1").unwrap();
    }
    inv.delete("2").unwrap();
    assert_eq!(
        names(&inv),
        vec!["A".to_string(), "C".to_string(), "D".to_string()]
    );
    assert!(inv.listing().starts_with("1. Item: A"));
    assert!(inv.listing().contains("2. Item: C"));
    assert!(inv.listing().contains("3. Item: D"));
}

#[test]
fn name_is_trimmed() {
    let mut inv = Inventory::new();
    inv.add("  Pen \n", "3", "10").unwrap();
    assert_eq!(names(&inv), vec!["Pen".to_string()]);
    assert_eq!(trim_blanks(" a b "), "a b");
}

#[test]
fn amount_parsing() {
    assert_eq!(parse_amount("0.50"), Ok(Amount { mantissa: 5, scale: 1 }));
    assert_eq!(parse_amount(".5"), Ok(Amount { mantissa: 5, scale: 1 }));
    assert_eq!(parse_amount("5."), Ok(Amount { mantissa: 5, scale: 0 }));
    assert_eq!(parse_amount("+7"), Ok(Amount { mantissa: 7, scale: 0 }));
    assert_eq!(parse_amount("100"), Ok(Amount { mantissa: 100, scale: 0 }));
    assert_eq!(parse_amount("1.2.3"), Err(NumberIssue::NotANumber));
    assert_eq!(parse_amount(""), Err(NumberIssue::NotANumber));
    assert_eq!(parse_amount("."), Err(NumberIssue::NotANumber));
    assert_eq!(parse_amount("0.0"), Err(NumberIssue::OutOfRange));
    assert_eq!(parse_amount("-0"), Err(NumberIssue::OutOfRange));
    assert_eq!(
        parse_amount("99999999999999999999"),
        Err(NumberIssue::OutOfRange)
    );
}

#[test]
fn count_parsing() {
    assert_eq!(parse_count("+3"), Ok(3));
    assert_eq!(parse_count("0"), Ok(0));
    assert_eq!(parse_count("18446744073709551615"), Ok(u64::MAX));
    assert_eq!(
        parse_count("18446744073709551616"),
        Err(NumberIssue::OutOfRange)
    );
    assert_eq!(parse_count("+"), Err(NumberIssue::NotANumber));
    assert_eq!(parse_count(" 3"), Err(NumberIssue::NotANumber));
}

#[test]
fn amount_and_number_text() {
    assert_eq!(Amount { mantissa: 5, scale: 3 }.text(), "0.005");
    assert_eq!(Amount { mantissa: 12345, scale: 2 }.text(), "123.45");
    assert_eq!(Amount { mantissa: 7, scale: 0 }.text(), "7");
    assert_eq!(number_text(0), "0");
    assert_eq!(number_text(1234), "1234");
}

#[test]
fn persist_failure_messages() {
    let r: Result<(), CommandError> = Err(CommandError::Persist("disk full".to_string()));
    let o = add_outcome(&r);
    assert_eq!(o.severity, Severity::Error);
    assert_eq!(o.message, "Error saving product: disk full");
    let o = delete_outcome(&r);
    assert_eq!(o.severity, Severity::Error);
    assert_eq!(o.message, "Error deleting product: disk full");
}
