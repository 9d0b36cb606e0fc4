use inventory::amount::{parse_amount, taxed_total, tenth, Amount};
use inventory::inventory::{DeletionError, Inventory};
use inventory::numeral::parse_usize;
use inventory::product::{Product, ValidationError};

fn as_f64(a: Amount) -> f64 {
    a.units as f64 / 10f64.powi(a.scale as i32)
}

fn product(kind: &str, quantity: &str, price: &str) -> Product {
    Product::new(kind.to_string(), quantity, price).unwrap()
}

fn filled(kinds: &[&str]) -> Inventory {
    let mut inv = Inventory::new();
    for k in kinds {
        inv.add(k.to_string(), "1", "2.5").unwrap();
    }
    inv
}

fn kinds(inv: &Inventory) -> Vec<String> {
    inv.list().iter().map(|p| p.product_type.clone()).collect()
}

#[test]
fn derived_fields_for_three_at_ten() {
    let p = product("Widget", "3", "10.0");
    assert_eq!(p.quantity, 3);
    assert_eq!(p.price_per_unit, Amount { units: 100, scale: 1 });
    assert_eq!(p.sales_tax, Amount { units: 100, scale: 2 });
    assert_eq!(p.total_price, Amount { units: 3300, scale: 2 });
    assert_eq!(as_f64(p.sales_tax), 1.0);
    assert_eq!(as_f64(p.total_price), 33.0);
}

#[test]
fn derived_fields_for_fractional_price() {
    let p = product("Cable", "2", "9.99");
    assert_eq!(p.sales_tax, Amount { units: 999, scale: 3 });
    assert_eq!(p.total_price, Amount { units: 21978, scale: 3 });
}

#[test]
fn empty_type_refused_whatever_else() {
    for (q, pr) in [("3", "10.0"), ("0", "0.0"), ("abc", "x"), ("1", "0")] {
        assert_eq!(Product::new(String::new(), q, pr), Err(ValidationError::EmptyType));
    }
}

#[test]
fn zero_or_unreadable_quantity_refused() {
    for q in ["0", "+0", "00", "abc", "", "-1", "1.5"] {
        assert_eq!(Product::new("Bolt".to_string(), q, "1.0"), Err(ValidationError::InvalidQuantity));
    }
}

#[test]
fn zero_or_unreadable_price_refused() {
    for pr in ["0.0", "0", ".0", "abc", "", "-5", "1e3", "1.2.3", "."] {
        assert_eq!(Product::new("Bolt".to_string(), "2", pr), Err(ValidationError::InvalidPrice));
    }
}

#[test]
fn checks_run_type_then_quantity_then_price() {
    assert_eq!(Product::new("".to_string(), "0", "0"), Err(ValidationError::EmptyType));
    assert_eq!(Product::new("Nut".to_string(), "0", "0"), Err(ValidationError::InvalidQuantity));
    assert_eq!(Product::new("Nut".to_string(), "4", "0"), Err(ValidationError::InvalidPrice));
}

#[test]
fn total_too_large_refused() {
    let price = "9".repeat(36);
    assert_eq!(
        Product::new("Gold".to_string(), "18446744073709551615", &price),
        Err(ValidationError::TotalTooLarge)
    );
}

#[test]
fn add_appends_in_order_and_refusal_keeps_list() {
    let mut inv = Inventory::new();
    assert!(inv.is_empty());
    let a = inv.add("A".to_string(), "1", "1").unwrap();
    inv.add("B".to_string(), "2", "2").unwrap();
    assert_eq!(inv.list()[0], a);
    assert_eq!(kinds(&inv), vec!["A", "B"]);
    assert_eq!(inv.add("C".to_string(), "0", "2"), Err(ValidationError::InvalidQuantity));
    assert_eq!(inv.len(), 2);
}

#[test]
fn duplicates_are_kept() {
    let inv = filled(&["A", "A"]);
    assert_eq!(kinds(&inv), vec!["A", "A"]);
}

#[test]
fn deletion_shifts_positions() {
    let mut inv = filled(&["A", "B", "C"]);
    assert_eq!(inv.delete_by_position("1"), Ok(()));
    assert_eq!(kinds(&inv), vec!["B", "C"]);
    assert_eq!(inv.delete_by_position("1"), Ok(()));
    assert_eq!(kinds(&inv), vec!["C"]);
}

#[test]
fn deletion_in_the_middle() {
    let mut inv = filled(&["A", "B", "C"]);
    assert_eq!(inv.delete_by_position("+2"), Ok(()));
    assert_eq!(kinds(&inv), vec!["A", "C"]);
}

#[test]
fn out_of_range_deletion_keeps_list() {
    let mut inv = filled(&["A", "B", "C"]);
    assert_eq!(inv.delete_by_position("0"), Err(DeletionError::OutOfRange));
    assert_eq!(inv.delete_by_position("4"), Err(DeletionError::OutOfRange));
    assert_eq!(inv.remove_at(4), Err(DeletionError::OutOfRange));
    assert_eq!(kinds(&inv), vec!["A", "B", "C"]);
    let mut empty = Inventory::new();
    assert_eq!(empty.delete_by_position("1"), Err(DeletionError::OutOfRange));
}

#[test]
fn unreadable_position_is_not_a_number() {
    let mut inv = filled(&["A"]);
    for raw in ["", "abc", "-1", "1.0", "+", "99999999999999999999999"] {
        assert_eq!(inv.delete_by_position(raw), Err(DeletionError::NotANumber));
    }
    assert_eq!(inv.len(), 1);
}

#[test]
fn restoring_what_was_listed_gives_the_same_list() {
    let inv = filled(&["A", "B", "C"]);
    let saved = inv.list().clone();
    let back = Inventory::from_loaded(Some(saved.clone()));
    assert_eq!(back.list(), &saved);
    let none = Inventory::from_loaded(Some(Vec::new()));
    assert!(none.is_empty());
}

#[test]
fn missing_store_restores_empty() {
    assert!(Inventory::from_loaded(None).is_empty());
}

#[test]
fn corrupt_records_restore_empty() {
    let mut bad = product("A", "3", "10.0");
    bad.total_price = Amount { units: 3200, scale: 2 };
    let good = product("B", "1", "1");
    assert!(Inventory::from_loaded(Some(vec![good.clone(), bad])).is_empty());
    let mut zero = good.clone();
    zero.quantity = 0;
    assert!(!zero.is_valid());
    assert!(good.is_valid());
}

#[test]
fn parse_usize_follows_std() {
    assert_eq!(parse_usize("42"), Some(42));
    assert_eq!(parse_usize("+7"), Some(7));
    assert_eq!(parse_usize("007"), Some(7));
    assert_eq!(parse_usize("18446744073709551615"), Some(usize::MAX));
    for s in ["", "+", "-3", "1 ", " 1", "18446744073709551616", "1.0"] {
        assert_eq!(parse_usize(s), None, "{s}");
        assert_eq!(s.parse::<usize>().ok(), None);
    }
}

#[test]
fn parse_amount_keeps_digits_and_scale() {
    assert_eq!(parse_amount("10.0"), Some(Amount { units: 100, scale: 1 }));
    assert_eq!(parse_amount("+0.25"), Some(Amount { units: 25, scale: 2 }));
    assert_eq!(parse_amount(".5"), Some(Amount { units: 5, scale: 1 }));
    assert_eq!(parse_amount("5."), Some(Amount { units: 5, scale: 0 }));
    assert_eq!(parse_amount("12"), Some(Amount { units: 12, scale: 0 }));
    assert_eq!(parse_amount("1.2.3"), None);
    assert_eq!(parse_amount(&"9".repeat(40)), None);
}

#[test]
fn tenth_and_total_arithmetic() {
    let price = Amount { units: 250, scale: 2 };
    assert_eq!(tenth(price), Amount { units: 250, scale: 3 });
    assert_eq!(taxed_total(price, 4), Some(Amount { units: 11000, scale: 3 }));
    assert_eq!(taxed_total(Amount { units: u128::MAX, scale: 0 }, 1), None);
}

#[test]
fn duplicate_copies_fields() {
    let p = product("Lamp", "5", "3.30");
    assert_eq!(p.duplicate(), p);
}

fn text(a: Amount) -> String {
    a.to_text().into_iter().collect()
}

#[test]
fn amount_text_keeps_scale() {
    assert_eq!(text(Amount { units: 3300, scale: 2 }), "33.00");
    assert_eq!(text(Amount { units: 5, scale: 2 }), "0.05");
    assert_eq!(text(Amount { units: 7, scale: 0 }), "7");
    assert_eq!(text(Amount { units: 0, scale: 1 }), "0.0");
    assert_eq!(text(Amount { units: 100, scale: 2 }), "1.00");
}

#[test]
fn amount_text_reads_back() {
    for a in [
        Amount { units: 3300, scale: 2 },
        Amount { units: 5, scale: 4 },
        Amount { units: 120, scale: 0 },
        Amount { units: u128::MAX, scale: 3 },
    ] {
        assert_eq!(parse_amount(&text(a)), Some(a));
    }
}

#[test]
fn listed_product_fields_as_text() {
    let p = product("Widget", "3", "10.0");
    assert_eq!(text(p.price_per_unit), "10.0");
    assert_eq!(text(p.sales_tax), "1.00");
    assert_eq!(text(p.total_price), "33.00");
}
