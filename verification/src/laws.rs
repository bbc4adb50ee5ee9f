//! The guarantees the reservation core gives, stated once over the
//! mathematical model and proved for every input.  The function contracts
//! in `ledger` and `coordinator` tie the executable code to this model.

use vstd::prelude::*;

use crate::coordinator::{StepModel, coordinator_step};
use crate::event::{EnvelopeModel, ItemModel};
use crate::ledger::{ReserveModel, reserve_seq, reserve_one};

verus! {

/// A successful reservation never creates or removes a product and never
/// increases a quantity.
pub proof fn lemma_reserve_seq_monotone(m: Map<Seq<char>, u32>, items: Seq<ItemModel>)
    ensures
        reserve_seq(m, items) matches ReserveModel::Reserved { stock } ==> stock.dom() == m.dom()
            && forall|p: Seq<char>|
            m.dom().contains(p) ==> (#[trigger] stock[p]) <= m[p],
    decreases items.len(),
{
    if items.len() > 0 {
        lemma_reserve_seq_monotone(m, items.drop_last());
        match reserve_seq(m, items.drop_last()) {
            ReserveModel::Reserved { stock: s1 } => {
                match reserve_one(s1, items.last()) {
                    ReserveModel::Reserved { stock: s2 } => {
                        assert(s2.dom() =~= s1.dom());
                    },
                    _ => {},
                }
            },
            _ => {},
        }
    }
}

/// A reservation demanding `n` units of one product with `q >= n` units
/// available takes effect: the product drops to `q - n` and the attempt
/// succeeds, so the coordinator emits the success outcome.
pub proof fn lemma_single_item_reservation(stock: Map<Seq<char>, u32>, pid: Seq<char>, n: u32)
    requires
        stock.dom().contains(pid),
        n <= stock[pid],
    ensures
        reserve_seq(stock, seq![ItemModel { product_id: pid, quantity: n }])
            == (ReserveModel::Reserved { stock: stock.insert(pid, (stock[pid] - n) as u32) }),
{
    let items = seq![ItemModel { product_id: pid, quantity: n }];
    assert(items.drop_last() =~= Seq::<ItemModel>::empty());
    assert(reserve_seq(stock, items.drop_last()) == (ReserveModel::Reserved { stock }));
    assert(items.last() == ItemModel { product_id: pid, quantity: n });
}

/// A reservation holding an item that demands more than its product's
/// available quantity cannot succeed, however the other items fare; by the
/// reservation contract the ledger is then left unchanged and the failure
/// names the first offending product.
pub proof fn lemma_oversized_request_rejected(
    stock: Map<Seq<char>, u32>,
    items: Seq<ItemModel>,
    i: int,
)
    requires
        0 <= i < items.len(),
        stock.dom().contains(items[i].product_id),
        items[i].quantity > stock[items[i].product_id],
    ensures
        !(reserve_seq(stock, items) is Reserved),
    decreases items.len(),
{
    if i == items.len() - 1 {
        lemma_reserve_seq_monotone(stock, items.drop_last());
    } else {
        assert(items.drop_last()[i] == items[i]);
        lemma_oversized_request_rejected(stock, items.drop_last(), i);
    }
}

/// A reservation naming a product the ledger has no record of cannot
/// succeed; by the reservation contract the ledger is then left unchanged
/// and the failure names the first offending product.
pub proof fn lemma_unknown_product_rejected(
    stock: Map<Seq<char>, u32>,
    items: Seq<ItemModel>,
    i: int,
)
    requires
        0 <= i < items.len(),
        !stock.dom().contains(items[i].product_id),
    ensures
        !(reserve_seq(stock, items) is Reserved),
    decreases items.len(),
{
    if i == items.len() - 1 {
        lemma_reserve_seq_monotone(stock, items.drop_last());
    } else {
        assert(items.drop_last()[i] == items[i]);
        lemma_unknown_product_rejected(stock, items.drop_last(), i);
    }
}

/// A failed reservation names one of the order's own line items: an
/// unknown product is an item the ledger has no record of, and an
/// insufficient product is an item whose demand exceeded what was still
/// available when its turn came.
pub proof fn lemma_failure_names_an_item(m: Map<Seq<char>, u32>, items: Seq<ItemModel>)
    ensures
        match reserve_seq(m, items) {
            ReserveModel::Insufficient { product_id, requested, available } => available
                < requested && exists|i: int|
                0 <= i < items.len() && (#[trigger] items[i].product_id) == product_id,
            ReserveModel::NotFound { product_id } => !m.dom().contains(product_id) && exists|
                i: int,
            |
                0 <= i < items.len() && (#[trigger] items[i].product_id) == product_id,
            ReserveModel::Reserved { .. } => true,
        },
    decreases items.len(),
{
    if items.len() > 0 {
        lemma_failure_names_an_item(m, items.drop_last());
        lemma_reserve_seq_monotone(m, items.drop_last());
        match reserve_seq(m, items.drop_last()) {
            ReserveModel::Reserved { stock: s1 } => {
                match reserve_one(s1, items.last()) {
                    ReserveModel::Reserved { .. } => {},
                    _ => {
                        assert(items[items.len() - 1].product_id == items.last().product_id);
                    },
                }
            },
            ReserveModel::Insufficient { product_id, .. } => {
                let i = choose|i: int|
                    0 <= i < items.drop_last().len() && (#[trigger] items.drop_last()[i].product_id)
                        == product_id;
                assert(items[i].product_id == product_id);
            },
            ReserveModel::NotFound { product_id } => {
                let i = choose|i: int|
                    0 <= i < items.drop_last().len() && (#[trigger] items.drop_last()[i].product_id)
                        == product_id;
                assert(items[i].product_id == product_id);
            },
        }
    }
}

/// Settling an order is idempotent under redelivery: once a checkout event
/// has been processed to an outcome, delivering the same event again is a
/// duplicate step, and a duplicate step leaves the stock untouched and
/// produces no further outcome.
pub proof fn lemma_redelivery_is_skipped(
    stock: Map<Seq<char>, u32>,
    processed: Set<u128>,
    env: EnvelopeModel,
)
    ensures
        match coordinator_step(stock, processed, env) {
            StepModel::Reserved { stock: s2 } => env matches EnvelopeModel::CheckoutInitiated(ev)
                && coordinator_step(s2, processed.insert(ev.order_id), env) is Duplicate,
            StepModel::Rejected { .. } => env matches EnvelopeModel::CheckoutInitiated(ev)
                && coordinator_step(stock, processed.insert(ev.order_id), env) is Duplicate,
            _ => true,
        },
{
}

/// One reservation attempt demanding a single unit of one product.
pub open spec fn unit_item(pid: Seq<char>) -> ItemModel {
    ItemModel { product_id: pid, quantity: 1 }
}

/// The stock map and the number of successes after `n` reservation
/// attempts in sequence, each demanding one unit of `pid`.  Attempts
/// against overlapping products are serialized by the ledger's locking
/// discipline, so competing orders are exactly such a sequence.
pub open spec fn unit_attempts(stock: Map<Seq<char>, u32>, pid: Seq<char>, n: nat) -> (
    Map<Seq<char>, u32>,
    nat,
)
    decreases n,
{
    if n == 0 {
        (stock, 0nat)
    } else {
        let prev = unit_attempts(stock, pid, (n - 1) as nat);
        match reserve_seq(prev.0, seq![unit_item(pid)]) {
            ReserveModel::Reserved { stock: s } => (s, prev.1 + 1nat),
            _ => prev,
        }
    }
}

/// Of `n` competing single-unit reservations against a product holding
/// `q` units, exactly `min(q, n)` succeed and the rest fail; the product
/// ends at `q - min(q, n)` -- never negative -- and no other product
/// changes.
pub proof fn lemma_unit_contention(stock: Map<Seq<char>, u32>, pid: Seq<char>, n: nat)
    requires
        stock.dom().contains(pid),
    ensures
        ({
            let r = unit_attempts(stock, pid, n);
            &&& r.1 == if n <= stock[pid] {
                n
            } else {
                stock[pid] as nat
            }
            &&& r.0.dom() == stock.dom()
            &&& r.0[pid] == stock[pid] - r.1
            &&& forall|q: Seq<char>|
                stock.dom().contains(q) && q != pid ==> (#[trigger] r.0[q]) == stock[q]
        }),
    decreases n,
{
    if n > 0 {
        lemma_unit_contention(stock, pid, (n - 1) as nat);
        let prev = unit_attempts(stock, pid, (n - 1) as nat);
        let items = seq![unit_item(pid)];
        assert(items.drop_last() =~= Seq::<ItemModel>::empty());
        assert(reserve_seq(prev.0, items.drop_last()) == (ReserveModel::Reserved { stock: prev.0 }));
        assert(items.last() == unit_item(pid));
        if prev.0[pid] >= 1 {
            let s2 = prev.0.insert(pid, (prev.0[pid] - 1) as u32);
            assert(s2.dom() =~= prev.0.dom());
        }
    }
}

} // verus!
