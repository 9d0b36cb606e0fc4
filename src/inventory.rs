//! The inventory: an ordered list of records, in the order they were entered.
use vstd::prelude::*;
use crate::numeral::{usize_of, parse_usize};
use crate::product::{Product, ValidationError, entry_outcome};

verus! {

/// Why a removal by position was refused.
#[derive(Clone, Copy, Debug, PartialEq, Eq, Structural)]
pub enum DeletionError {
    /// The position is not an unsigned integer.
    NotANumber,
    /// The position is 0 or past the last record.
    OutOfRange,
}

/// Every record is one that entry admits.
pub open spec fn all_wf(records: Seq<Product>) -> bool {
    forall|i: int| 0 <= i < records.len() ==> #[trigger] records[i].wf()
}

/// The list that records read back from storage give: all of them where each
/// is one that entry admits; none where any is not, or where nothing could be
/// read.
pub open spec fn restored(loaded: Option<Seq<Product>>) -> Seq<Product> {
    match loaded {
        Some(records) => if all_wf(records) {
            records
        } else {
            Seq::empty()
        },
        None => Seq::empty(),
    }
}

/// What removing at the 1-based `position` gives.
pub open spec fn removal(records: Seq<Product>, position: nat) -> Result<Seq<Product>, DeletionError> {
    if 1 <= position <= records.len() {
        Ok(records.remove(position - 1))
    } else {
        Err(DeletionError::OutOfRange)
    }
}

/// The records, in the order they were entered. Each change is made to the
/// list in memory; writing the list out afterwards is the caller's part, so
/// where that write fails the list in memory is ahead of what is stored.
pub struct Inventory {
    records: Vec<Product>,
}

impl View for Inventory {
    type V = Seq<Product>;

    closed spec fn view(&self) -> Seq<Product> {
        self.records@
    }
}

impl Inventory {
    pub open spec fn wf(&self) -> bool {
        all_wf(self@)
    }

    /// An empty inventory.
    pub fn new() -> (r: Inventory)
        ensures
            r@ == Seq::<Product>::empty(),
            r.wf(),
    {
        Inventory { records: Vec::new() }
    }

    /// The inventory that records read back from storage give (see `restored`);
    /// `None` stands for a store that could not be read or parsed.
    pub fn from_loaded(loaded: Option<Vec<Product>>) -> (r: Inventory)
        ensures
            r@ == restored(
                match loaded {
                    Some(v) => Some(v@),
                    None => None,
                },
            ),
            r.wf(),
    {
        match loaded {
            Some(records) => {
                let mut i: usize = 0;
                while i < records.len()
                    invariant
                        loaded == Some(records),
                        i <= records@.len(),
                        forall|j: int| 0 <= j < i ==> #[trigger] records@[j].wf(),
                    decreases records@.len() - i,
                {
                    if !records[i].is_valid() {
                        assert(!all_wf(records@)) by {
                            assert(!records@[i as int].wf());
                        }
                        return Inventory::new();
                    }
                    i = i + 1;
                }
                Inventory { records }
            },
            None => Inventory::new(),
        }
    }

    /// The records, in order; empty where there are none.
    pub fn list(&self) -> (r: &Vec<Product>)
        ensures
            r@ == self@,
    {
        &self.records
    }

    pub fn len(&self) -> (r: usize)
        ensures
            r == self@.len(),
    {
        self.records.len()
    }

    pub fn is_empty(&self) -> (r: bool)
        ensures
            r == (self@.len() == 0),
    {
        self.records.len() == 0
    }

    /// Enters a product from the text of its three fields and appends it; on
    /// a refusal the list is unchanged (see `entry_outcome`). Gives a copy of
    /// the new record.
    pub fn add(&mut self, product_type: String, quantity: &str, price_per_unit: &str) -> (r: Result<Product, ValidationError>)
        requires
            old(self).wf(),
        ensures
            final(self).wf(),
            match entry_outcome(product_type@, quantity@, price_per_unit@) {
                Ok(t) => {
                    &&& r is Ok
                    &&& r.unwrap().is_record_of(product_type@, t.0, t.1)
                    &&& final(self)@.len() == old(self)@.len() + 1
                    &&& final(self)@.take(old(self)@.len() as int) == old(self)@
                    &&& final(self)@.last().same_as(&r.unwrap())
                },
                Err(e) => r == Err::<Product, ValidationError>(e) && final(self)@ == old(self)@,
            },
    {
        match Product::new(product_type, quantity, price_per_unit) {
            Ok(p) => {
                let copy = p.duplicate();
                self.records.push(p);
                proof {
                    assert(self.records@.take(old(self)@.len() as int) =~= old(self)@);
                    assert forall|j: int| 0 <= j < self.records@.len() implies #[trigger] self.records@[j].wf() by {
                        if j < old(self)@.len() {
                            assert(self.records@[j] == old(self)@[j]);
                        }
                    }
                }
                Ok(copy)
            },
            Err(e) => Err(e),
        }
    }

    /// Removes the record at the 1-based `position` (see `removal`); the
    /// records after it move one place up.
    pub fn remove_at(&mut self, position: usize) -> (r: Result<(), DeletionError>)
        requires
            old(self).wf(),
        ensures
            final(self).wf(),
            match removal(old(self)@, position as nat) {
                Ok(s) => r is Ok && final(self)@ == s,
                Err(e) => r == Err::<(), DeletionError>(e) && final(self)@ == old(self)@,
            },
    {
        if position == 0 || position > self.records.len() {
            return Err(DeletionError::OutOfRange);
        }
        self.records.remove(position - 1);
        proof {
            assert forall|j: int| 0 <= j < self.records@.len() implies #[trigger] self.records@[j].wf() by {
                if j < position - 1 {
                    assert(self.records@[j] == old(self)@[j]);
                } else {
                    assert(self.records@[j] == old(self)@[j + 1]);
                }
            }
        }
        Ok(())
    }

    /// Removes the record at the position that `position` writes as an
    /// unsigned integer; `NotANumber` where it writes none, checked before the
    /// range (see `remove_at`).
    pub fn delete_by_position(&mut self, position: &str) -> (r: Result<(), DeletionError>)
        requires
            old(self).wf(),
        ensures
            final(self).wf(),
            match usize_of(position@) {
                None => r == Err::<(), DeletionError>(DeletionError::NotANumber) && final(self)@ == old(self)@,
                Some(n) => match removal(old(self)@, n) {
                    Ok(s) => r is Ok && final(self)@ == s,
                    Err(e) => r == Err::<(), DeletionError>(e) && final(self)@ == old(self)@,
                },
            },
    {
        match parse_usize(position) {
            Some(n) => self.remove_at(n),
            None => Err(DeletionError::NotANumber),
        }
    }
}

/// A list written out from an inventory and read back whole restores that
/// same list, in the same order.
pub proof fn lemma_restore_round_trip(inventory: Inventory)
    requires
        inventory.wf(),
    ensures
        restored(Some(inventory@)) == inventory@,
{
}

/// A store that cannot be read, and one whose records are not all ones that
/// entry admits, both restore an empty list.
pub proof fn lemma_unreadable_restores_empty(records: Seq<Product>)
    ensures
        restored(None) == Seq::<Product>::empty(),
        !all_wf(records) ==> restored(Some(records)) == Seq::<Product>::empty(),
{
}

/// Removing at position 1 from `[a, b, c]` leaves `[b, c]`, and removing at
/// position 1 again leaves `[c]`.
pub proof fn lemma_removal_shifts(a: Product, b: Product, c: Product)
    ensures
        removal(seq![a, b, c], 1) == Ok::<Seq<Product>, DeletionError>(seq![b, c]),
        removal(seq![b, c], 1) == Ok::<Seq<Product>, DeletionError>(seq![c]),
{
    assert(seq![a, b, c].remove(0) =~= seq![b, c]);
    assert(seq![b, c].remove(0) =~= seq![c]);
}

/// Positions 0 and one past the last are refused as out of range, and the
/// list is kept.
pub proof fn lemma_out_of_range(records: Seq<Product>)
    ensures
        removal(records, 0) == Err::<Seq<Product>, DeletionError>(DeletionError::OutOfRange),
        removal(records, records.len() + 1) == Err::<Seq<Product>, DeletionError>(DeletionError::OutOfRange),
{
}

} // verus!
