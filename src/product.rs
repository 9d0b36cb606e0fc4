//! Product records and the checks that admit them.
use vstd::prelude::*;
use crate::amount::{Amount, amount_of, tenth_of, taxed_total_of, parse_amount, tenth, taxed_total};
use crate::numeral::{usize_of, parse_usize};

verus! {

/// Why an entered product was refused.
#[derive(Clone, Copy, Debug, PartialEq, Eq, Structural)]
pub enum ValidationError {
    /// The product type is empty.
    EmptyType,
    /// The quantity is not a positive integer.
    InvalidQuantity,
    /// The price per unit is not a positive decimal number.
    InvalidPrice,
    /// The total price is too large to be held exactly.
    TotalTooLarge,
}

/// One inventory line. The tax is a tenth of the unit price, and the total is
/// `(price_per_unit + sales_tax) * quantity`; both are fixed when the record
/// is made (see `Product::wf`).
#[derive(Clone, Debug, PartialEq)]
pub struct Product {
    pub product_type: String,
    pub quantity: usize,
    pub price_per_unit: Amount,
    pub sales_tax: Amount,
    pub total_price: Amount,
}

impl Product {
    /// The record holds `product_type`, `quantity` and `price`, and the tax and
    /// total that follow from them.
    pub open spec fn is_record_of(&self, product_type: Seq<char>, quantity: nat, price: Amount) -> bool {
        &&& self.product_type@ == product_type
        &&& self.quantity as nat == quantity
        &&& self.price_per_unit == price
        &&& self.sales_tax == tenth_of(price)
        &&& taxed_total_of(price, quantity) == Some(self.total_price)
    }

    /// A record as entry admits it.
    pub open spec fn wf(&self) -> bool {
        &&& self.product_type@.len() > 0
        &&& self.quantity >= 1
        &&& self.price_per_unit.is_positive()
        &&& self.price_per_unit.scale < usize::MAX
        &&& self.is_record_of(self.product_type@, self.quantity as nat, self.price_per_unit)
    }

    /// Two records with the same fields.
    pub open spec fn same_as(&self, other: &Product) -> bool {
        &&& self.product_type@ == other.product_type@
        &&& self.quantity == other.quantity
        &&& self.price_per_unit == other.price_per_unit
        &&& self.sales_tax == other.sales_tax
        &&& self.total_price == other.total_price
    }

    /// Makes a record from entered text; checks the type, then the quantity,
    /// then the price (see `entry_outcome`).
    pub fn new(product_type: String, quantity: &str, price_per_unit: &str) -> (r: Result<Product, ValidationError>)
        ensures
            match entry_outcome(product_type@, quantity@, price_per_unit@) {
                Ok(t) => r is Ok && r.unwrap().is_record_of(product_type@, t.0, t.1) && r.unwrap().wf(),
                Err(e) => r == Err::<Product, ValidationError>(e),
            },
    {
        if product_type.unicode_len() == 0 {
            return Err(ValidationError::EmptyType);
        }
        let quantity = match parse_usize(quantity) {
            Some(n) => if n >= 1 {
                n
            } else {
                return Err(ValidationError::InvalidQuantity);
            },
            None => {
                return Err(ValidationError::InvalidQuantity);
            },
        };
        let price = match parse_amount(price_per_unit) {
            Some(a) => if a.units > 0 {
                a
            } else {
                return Err(ValidationError::InvalidPrice);
            },
            None => {
                return Err(ValidationError::InvalidPrice);
            },
        };
        let total_price = match taxed_total(price, quantity) {
            Some(t) => t,
            None => {
                return Err(ValidationError::TotalTooLarge);
            },
        };
        Ok(Product { product_type, quantity, price_per_unit: price, sales_tax: tenth(price), total_price })
    }

    /// Whether the record is one that entry admits (see `wf`).
    pub fn is_valid(&self) -> (r: bool)
        ensures
            r == self.wf(),
    {
        if self.product_type.unicode_len() == 0 || self.quantity == 0 || self.price_per_unit.units == 0
            || self.price_per_unit.scale == usize::MAX {
            return false;
        }
        if self.sales_tax != tenth(self.price_per_unit) {
            return false;
        }
        match taxed_total(self.price_per_unit, self.quantity) {
            Some(t) => t == self.total_price,
            None => false,
        }
    }

    /// A copy of the record.
    pub fn duplicate(&self) -> (r: Product)
        ensures
            r.same_as(self),
            self.wf() ==> r.wf(),
    {
        Product {
            product_type: self.product_type.clone(),
            quantity: self.quantity,
            price_per_unit: self.price_per_unit,
            sales_tax: self.sales_tax,
            total_price: self.total_price,
        }
    }
}

/// What entering a product gives: the quantity and price of the new record, or
/// the first check that fails, in the order type, quantity, price.
pub open spec fn entry_outcome(product_type: Seq<char>, quantity: Seq<char>, price: Seq<char>) -> Result<(nat, Amount), ValidationError> {
    if product_type.len() == 0 {
        Err(ValidationError::EmptyType)
    } else if !(usize_of(quantity) is Some && usize_of(quantity).unwrap() >= 1) {
        Err(ValidationError::InvalidQuantity)
    } else if !(amount_of(price) is Some && amount_of(price).unwrap().is_positive()) {
        Err(ValidationError::InvalidPrice)
    } else if taxed_total_of(amount_of(price).unwrap(), usize_of(quantity).unwrap()) is None {
        Err(ValidationError::TotalTooLarge)
    } else {
        Ok((usize_of(quantity).unwrap(), amount_of(price).unwrap()))
    }
}

/// An empty product type is refused, whatever the quantity and price.
pub proof fn lemma_empty_type_refused(quantity: Seq<char>, price: Seq<char>)
    ensures
        entry_outcome(Seq::empty(), quantity, price) == Err::<(nat, Amount), ValidationError>(ValidationError::EmptyType),
{
}

/// A quantity that reads as zero, or as no number, is refused; with a
/// product type given, as an invalid quantity.
pub proof fn lemma_zero_quantity_refused(product_type: Seq<char>, quantity: Seq<char>, price: Seq<char>)
    requires
        usize_of(quantity) == Some(0nat) || usize_of(quantity) is None,
    ensures
        entry_outcome(product_type, quantity, price) is Err,
        product_type.len() > 0 ==> entry_outcome(product_type, quantity, price)
            == Err::<(nat, Amount), ValidationError>(ValidationError::InvalidQuantity),
{
}

/// A price that reads as zero, or as no number, is refused; with a product
/// type and a valid quantity given, as an invalid price.
pub proof fn lemma_zero_price_refused(product_type: Seq<char>, quantity: Seq<char>, price: Seq<char>)
    requires
        amount_of(price) is None || amount_of(price).unwrap().units == 0,
    ensures
        entry_outcome(product_type, quantity, price) is Err,
        product_type.len() > 0 && usize_of(quantity) is Some && usize_of(quantity).unwrap() >= 1
            ==> entry_outcome(product_type, quantity, price)
            == Err::<(nat, Amount), ValidationError>(ValidationError::InvalidPrice),
{
}

} // verus!
