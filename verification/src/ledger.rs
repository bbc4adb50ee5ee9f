//! The stock ledger: per-product available quantities, mutated only through
//! conditional decrements and increments that keep every quantity
//! non-negative.
//!
//! The ledger's mathematical model is a map from product identifier to
//! available quantity.  A reservation is specified by [`reserve_seq`]: the
//! line items of one order are applied in order, each as a conditional
//! decrement, and the whole order takes effect only if every item succeeds.

use vstd::map::*;
use vstd::prelude::*;

use crate::event::{ItemModel, LineItem};

verus! {

/// One row of the ledger.  `updated_at` is a logical stamp that advances
/// whenever the row is mutated; it never exceeds the ledger's clock.
#[derive(Debug)]
pub struct StockRecord {
    pub product_id: String,
    pub quantity_available: u32,
    pub updated_at: u64,
}

/// The ledger itself: one record per product, products unique.
pub struct StockLedger {
    records: Vec<StockRecord>,
    clock: u64,
}

/// The quantity map described by a sequence of records.  Later records win,
/// but a well-formed ledger never holds a product twice.
pub open spec fn as_map(s: Seq<StockRecord>) -> Map<Seq<char>, u32>
    decreases s.len(),
{
    if s.len() == 0 {
        Map::empty()
    } else {
        as_map(s.drop_last()).insert(s.last().product_id@, s.last().quantity_available)
    }
}

/// No product occurs on two records.
pub open spec fn unique_products(s: Seq<StockRecord>) -> bool {
    forall|i: int, j: int|
        0 <= i < j < s.len() ==> (#[trigger] s[i].product_id@) != (#[trigger] s[j].product_id@)
}

/// A manual stock adjustment request from the write interface: a signed
/// delta to apply to one product's quantity through [`StockLedger::adjust`].
#[derive(Debug)]
pub struct UpdateStockRequest {
    pub quantity: i32,
}

/// Outcome of one reservation attempt, as reported to the caller.
#[derive(Debug)]
pub enum ReserveOutcome {
    Reserved,
    Insufficient { product_id: String, requested: u32, available: u32 },
    NotFound { product_id: String },
}

/// Outcome of one reservation attempt, in the mathematical model.  On
/// success it carries the stock map after every decrement; on failure the
/// stock is unchanged and the offending product is named.
pub enum ReserveModel {
    Reserved { stock: Map<Seq<char>, u32> },
    Insufficient { product_id: Seq<char>, requested: u32, available: u32 },
    NotFound { product_id: Seq<char> },
}

/// One conditional decrement: the product must exist and hold at least the
/// demanded quantity, otherwise nothing changes and the failure names it.
pub open spec fn reserve_one(m: Map<Seq<char>, u32>, item: ItemModel) -> ReserveModel {
    if !m.dom().contains(item.product_id) {
        ReserveModel::NotFound { product_id: item.product_id }
    } else if m[item.product_id] < item.quantity {
        ReserveModel::Insufficient {
            product_id: item.product_id,
            requested: item.quantity,
            available: m[item.product_id],
        }
    } else {
        ReserveModel::Reserved {
            stock: m.insert(item.product_id, (m[item.product_id] - item.quantity) as u32),
        }
    }
}

/// The line items of one order applied in order, each as a conditional
/// decrement.  The first failing item decides the failure; any failure
/// leaves the whole map unchanged.
pub open spec fn reserve_seq(m: Map<Seq<char>, u32>, items: Seq<ItemModel>) -> ReserveModel
    decreases items.len(),
{
    if items.len() == 0 {
        ReserveModel::Reserved { stock: m }
    } else {
        match reserve_seq(m, items.drop_last()) {
            ReserveModel::Reserved { stock } => reserve_one(stock, items.last()),
            failure => failure,
        }
    }
}

/// Extending the item list cannot recover from an earlier failure.
pub proof fn lemma_reserve_seq_extends_failure(
    m: Map<Seq<char>, u32>,
    items: Seq<ItemModel>,
    i: int,
)
    requires
        0 <= i <= items.len(),
        !(reserve_seq(m, items.take(i)) is Reserved),
    ensures
        reserve_seq(m, items) == reserve_seq(m, items.take(i)),
    decreases items.len() - i,
{
    if i < items.len() {
        assert(items.take(i + 1).drop_last() =~= items.take(i));
        assert(items.take(i + 1).last() == items[i]);
        lemma_reserve_seq_extends_failure(m, items, i + 1);
    } else {
        assert(items.take(i) =~= items);
    }
}

/// Unfolds one step of `reserve_seq` along a growing prefix.
pub proof fn lemma_reserve_seq_step(m: Map<Seq<char>, u32>, items: Seq<ItemModel>, i: int)
    requires
        0 <= i < items.len(),
    ensures
        reserve_seq(m, items.take(i + 1)) == (match reserve_seq(m, items.take(i)) {
            ReserveModel::Reserved { stock } => reserve_one(stock, items[i]),
            failure => failure,
        }),
{
    assert(items.take(i + 1).drop_last() =~= items.take(i));
    assert(items.take(i + 1).last() == items[i]);
}

/// Membership in the quantity map is exactly membership among the records.
proof fn lemma_as_map_contains(s: Seq<StockRecord>, p: Seq<char>)
    ensures
        as_map(s).dom().contains(p) <==> exists|i: int|
            0 <= i < s.len() && (#[trigger] s[i].product_id@) == p,
    decreases s.len(),
{
    if s.len() > 0 {
        lemma_as_map_contains(s.drop_last(), p);
        if s.last().product_id@ == p {
            assert(s[s.len() - 1].product_id@ == p);
        } else if as_map(s).dom().contains(p) {
            let i = choose|i: int| 0 <= i < s.drop_last().len() && (#[trigger] s.drop_last()[i].product_id@) == p;
            assert(s[i].product_id@ == p);
        } else if exists|i: int| 0 <= i < s.len() && (#[trigger] s[i].product_id@) == p {
            let i = choose|i: int| 0 <= i < s.len() && (#[trigger] s[i].product_id@) == p;
            assert(s.drop_last()[i].product_id@ == p);
        }
    }
}

/// With unique products, the map agrees with every record.
proof fn lemma_as_map_index(s: Seq<StockRecord>, i: int)
    requires
        unique_products(s),
        0 <= i < s.len(),
    ensures
        as_map(s).dom().contains(s[i].product_id@),
        as_map(s)[s[i].product_id@] == s[i].quantity_available,
    decreases s.len(),
{
    if i < s.len() - 1 {
        assert(s.drop_last()[i] == s[i]);
        lemma_as_map_index(s.drop_last(), i);
        assert(s[s.len() - 1].product_id@ != s[i].product_id@);
    }
}

impl View for StockLedger {
    type V = Map<Seq<char>, u32>;

    closed spec fn view(&self) -> Map<Seq<char>, u32> {
        as_map(self.records@)
    }
}

/// Finds the record holding `key`, if any.
fn find_index(records: &Vec<StockRecord>, key: &String) -> (r: Option<usize>)
    ensures
        match r {
            Some(j) => j < records@.len() && records@[j as int].product_id@ == key@,
            None => forall|i: int|
                0 <= i < records@.len() ==> (#[trigger] records@[i].product_id@) != key@,
        },
{
    let mut i: usize = 0;
    while i < records.len()
        invariant
            i <= records@.len(),
            forall|k: int| 0 <= k < i ==> (#[trigger] records@[k].product_id@) != key@,
        decreases records@.len() - i,
    {
        if records[i].product_id == *key {
            return Some(i);
        }
        i += 1;
    }
    None
}

impl StockLedger {
    /// Well-formedness: products unique, stamps behind the clock.
    pub closed spec fn wf(&self) -> bool {
        &&& unique_products(self.records@)
        &&& forall|i: int|
            0 <= i < self.records@.len() ==> (#[trigger] self.records@[i].updated_at) <= self.clock
    }

    /// An empty ledger.
    pub fn new() -> (r: StockLedger)
        ensures
            r.wf(),
            r@ == Map::<Seq<char>, u32>::empty(),
    {
        StockLedger { records: Vec::new(), clock: 0 }
    }

    /// Point read of the available quantity of one product.
    pub fn get_available(&self, product_id: &str) -> (r: Option<u32>)
        requires
            self.wf(),
        ensures
            self@.dom().contains(product_id@) ==> r == Some(self@[product_id@]),
            !self@.dom().contains(product_id@) ==> r is None,
    {
        let key: String = product_id.to_owned();
        proof {
            lemma_as_map_contains(self.records@, product_id@);
        }
        match find_index(&self.records, &key) {
            Some(j) => {
                proof {
                    lemma_as_map_index(self.records@, j as int);
                }
                Some(self.records[j].quantity_available)
            }
            None => None,
        }
    }

    /// Creates or overwrites the record of one product.  This is how the
    /// collaborator write path seeds the ledger; the reservation path never
    /// creates records.
    pub fn upsert(&mut self, product_id: String, quantity: u32)
        requires
            old(self).wf(),
        ensures
            final(self).wf(),
            final(self)@ == old(self)@.insert(product_id@, quantity),
    {
        let t: u64 = if self.clock < u64::MAX {
            self.clock + 1
        } else {
            self.clock
        };
        match find_index(&self.records, &product_id) {
            Some(j) => {
                let ghost s0 = self.records@;
                let record = StockRecord { product_id, quantity_available: quantity, updated_at: t };
                proof {
                    lemma_as_map_update(s0, j as int, record);
                }
                self.records[j] = record;
            }
            None => {
                let ghost s0 = self.records@;
                self.records.push(
                    StockRecord { product_id, quantity_available: quantity, updated_at: t },
                );
                proof {
                    assert(self.records@.drop_last() =~= s0);
                }
            }
        }
        self.clock = t;
    }

    /// Manual stock adjustment: applies a signed delta through the same
    /// conditional discipline as a reservation, so the quantity can neither
    /// go negative nor overflow.  A product without a record starts from
    /// zero.  Returns the new quantity, or `None` when the delta would
    /// leave the representable range, in which case nothing changes.
    pub fn adjust(&mut self, product_id: String, delta: i32) -> (r: Option<u32>)
        requires
            old(self).wf(),
        ensures
            final(self).wf(),
            match adjust_model(old(self)@, product_id@, delta as int) {
                Some(q) => r == Some(q) && final(self)@ == old(self)@.insert(product_id@, q),
                None => r is None && *final(self) == *old(self),
            },
    {
        proof {
            lemma_as_map_contains(self.records@, product_id@);
        }
        let base: u32 = match find_index(&self.records, &product_id) {
            Some(j) => {
                proof {
                    lemma_as_map_index(self.records@, j as int);
                }
                self.records[j].quantity_available
            }
            None => 0,
        };
        let next: i64 = base as i64 + delta as i64;
        if next < 0 || next > u32::MAX as i64 {
            return None;
        }
        self.upsert(product_id, next as u32);
        Some(next as u32)
    }

    /// Attempts to reserve stock for every line item of one order, within
    /// one unit of work: each item is checked and decremented in order
    /// against the working state, and the ledger is only written once all
    /// items have succeeded.  On any failure nothing changes and the
    /// outcome names the first offending product.
    #[verifier::loop_isolation(false)]
    pub fn reserve_all(&mut self, items: &Vec<LineItem>) -> (r: ReserveOutcome)
        requires
            old(self).wf(),
        ensures
            final(self).wf(),
            match reserve_seq(old(self)@, items.deep_view()) {
                ReserveModel::Reserved { stock } => final(self)@ == stock && r is Reserved,
                ReserveModel::Insufficient { product_id, requested, available } => {
                    &&& *final(self) == *old(self)
                    &&& (r matches ReserveOutcome::Insufficient {
                        product_id: p,
                        requested: rq,
                        available: av,
                    } && p@ == product_id && rq == requested && av == available)
                },
                ReserveModel::NotFound { product_id } => {
                    &&& *final(self) == *old(self)
                    &&& (r matches ReserveOutcome::NotFound { product_id: p } && p@ == product_id)
                },
            },
    {
        let ghost m0 = self@;
        let ghost itemsv = items.deep_view();

        // Working copy of the quantities, one per record.
        let n = self.records.len();
        let mut qty: Vec<u32> = Vec::new();
        let mut k: usize = 0;
        while k < n
            invariant
                k <= n,
                qty@.len() == k,
                forall|j: int| 0 <= j < k ==> qty@[j] == self.records@[j].quantity_available,
            decreases n - k,
        {
            qty.push(self.records[k].quantity_available);
            k += 1;
        }

        // Check and decrement the working copy, item by item.
        let ghost mut mcur = m0;
        proof {
            assert forall|j: int| 0 <= j < self.records@.len() implies mcur.dom().contains(
                #[trigger] self.records@[j].product_id@,
            ) && mcur[self.records@[j].product_id@] == qty@[j] by {
                lemma_as_map_index(self.records@, j);
            }
        }
        let mut i: usize = 0;
        while i < items.len()
            invariant
                *self == *old(self),
                i <= itemsv.len(),
                qty@.len() == self.records@.len(),
                reserve_seq(m0, itemsv.take(i as int)) == (ReserveModel::Reserved { stock: mcur }),
                mcur.dom() == m0.dom(),
                forall|j: int|
                    0 <= j < self.records@.len() ==> mcur.dom().contains(
                        #[trigger] self.records@[j].product_id@,
                    ) && mcur[self.records@[j].product_id@] == qty@[j],
            decreases itemsv.len() - i,
        {
            let item = &items[i];
            assert(itemsv[i as int] == item@);
            match find_index(&self.records, &item.product_id) {
                None => {
                    proof {
                        lemma_as_map_contains(self.records@, item.product_id@);
                        lemma_reserve_seq_step(m0, itemsv, i as int);
                        lemma_reserve_seq_extends_failure(m0, itemsv, i + 1);
                    }
                    return ReserveOutcome::NotFound { product_id: item.product_id.clone() };
                }
                Some(j) => {
                    let available = qty[j];
                    if available < item.quantity {
                        proof {
                            lemma_reserve_seq_step(m0, itemsv, i as int);
                            lemma_reserve_seq_extends_failure(m0, itemsv, i + 1);
                        }
                        return ReserveOutcome::Insufficient {
                            product_id: item.product_id.clone(),
                            requested: item.quantity,
                            available,
                        };
                    }
                    qty[j] = available - item.quantity;
                    proof {
                        lemma_reserve_seq_step(m0, itemsv, i as int);
                        mcur = mcur.insert(item.product_id@, (available - item.quantity) as u32);
                    }
                }
            }
            i += 1;
        }
        proof {
            assert(itemsv.take(itemsv.len() as int) =~= itemsv);
        }

        // Every item succeeded: commit the working copy.
        let t: u64 = if self.clock < u64::MAX {
            self.clock + 1
        } else {
            self.clock
        };
        let mut w: usize = 0;
        while w < self.records.len()
            invariant
                w <= self.records@.len(),
                self.records@.len() == old(self).records@.len(),
                qty@.len() == self.records@.len(),
                self.clock == old(self).clock,
                old(self).clock <= t,
                forall|j: int|
                    0 <= j < self.records@.len() ==> (#[trigger] self.records@[j].product_id@)
                        == old(self).records@[j].product_id@,
                forall|j: int|
                    0 <= j < w ==> (#[trigger] self.records@[j].quantity_available) == qty@[j],
                forall|j: int| 0 <= j < w ==> (#[trigger] self.records@[j].updated_at) <= t,
                forall|j: int|
                    w <= j < self.records@.len() ==> (#[trigger] self.records@[j])
                        == old(self).records@[j],
            decreases self.records@.len() - w,
        {
            if self.records[w].quantity_available != qty[w] {
                let pid = self.records[w].product_id.clone();
                let newq = qty[w];
                self.records[w] = StockRecord {
                    product_id: pid,
                    quantity_available: newq,
                    updated_at: t,
                };
            } else {
                proof {
                    assert(old(self).records@[w as int].updated_at <= old(self).clock);
                }
            }
            w += 1;
        }
        self.clock = t;
        proof {
            assert forall|a: int, b: int| 0 <= a < b < self.records@.len() implies (
            #[trigger] self.records@[a].product_id@) != (#[trigger] self.records@[b].product_id@) by {
                assert(old(self).records@[a].product_id@ != old(self).records@[b].product_id@);
            }
            assert(unique_products(self.records@));
            let mfinal = self@;
            assert_maps_equal!(mfinal, mcur, p => {
                if mcur.dom().contains(p) {
                    lemma_as_map_contains(old(self).records@, p);
                    let j = choose|j: int|
                        0 <= j < old(self).records@.len() && (#[trigger] old(
                            self,
                        ).records@[j].product_id@) == p;
                    assert(self.records@[j].product_id@ == p);
                    lemma_as_map_index(self.records@, j);
                    assert(self.records@[j].quantity_available == qty@[j]);
                    assert(mcur[p] == qty@[j]);
                }
                if mfinal.dom().contains(p) {
                    lemma_as_map_contains(self.records@, p);
                    let j = choose|j: int|
                        0 <= j < self.records@.len() && (#[trigger] self.records@[j].product_id@)
                            == p;
                    assert(old(self).records@[j].product_id@ == p);
                    lemma_as_map_contains(old(self).records@, p);
                }
            });
            assert(self@ == mcur);
        }
        ReserveOutcome::Reserved
    }
}

/// The quantity a manual adjustment would leave, if it stays representable.
pub open spec fn adjust_model(m: Map<Seq<char>, u32>, pid: Seq<char>, delta: int) -> Option<u32> {
    let base: int = if m.dom().contains(pid) {
        m[pid] as int
    } else {
        0
    };
    if 0 <= base + delta <= u32::MAX {
        Some((base + delta) as u32)
    } else {
        None
    }
}

/// Replacing a record in place updates exactly its product's entry.
proof fn lemma_as_map_update(s: Seq<StockRecord>, j: int, r: StockRecord)
    requires
        unique_products(s),
        0 <= j < s.len(),
        r.product_id@ == s[j].product_id@,
    ensures
        as_map(s.update(j, r)) == as_map(s).insert(r.product_id@, r.quantity_available),
        unique_products(s.update(j, r)),
    decreases s.len(),
{
    if j == s.len() - 1 {
        assert(s.update(j, r).drop_last() =~= s.drop_last());
        assert(s.update(j, r).last() == r);
        assert(as_map(s.update(j, r)) =~= as_map(s).insert(r.product_id@, r.quantity_available));
    } else {
        assert(s.drop_last().update(j, r) =~= s.update(j, r).drop_last());
        lemma_as_map_update(s.drop_last(), j, r);
        assert(s.last().product_id@ != r.product_id@);
        assert(as_map(s.update(j, r)) =~= as_map(s).insert(r.product_id@, r.quantity_available));
    }
}

} // verus!
