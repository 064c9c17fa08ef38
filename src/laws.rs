use vstd::prelude::*;

use crate::engine::{
    demand, demand_before, first_missing, first_short, frozen_items, item_ok, items_total,
    lemma_demand_monotone, lemma_first_missing_found, lemma_first_short_found, lemma_no_item_error,
    plan_error, request_error, stock_ok, total_fits,
};
use crate::error::{AppError, ErrorKind};
use crate::model::{OrderItem, OrderItemRequest, ProductSnapshot};
use crate::store::{
    catalog_lookup, has_order_id, lemma_demand_covered, lemma_lookup_at, lookups,
    place_order_outcome, placed_items, product_with_id, InventoryView,
};

verus! {

/// A successful placement leaves a well-formed store with one more order. That
/// order's total is the sum of quantity times unit price over its lines; each
/// line keeps the requested product and quantity, with the catalog price read
/// at placement; and each product's stock has dropped by exactly the units
/// requested of it.
pub proof fn lemma_placed_order_consistent(
    v: InventoryView,
    reqs: Seq<OrderItemRequest>,
    id: Seq<char>,
    now: Seq<char>,
)
    requires
        v.wf(),
        place_order_outcome(v, reqs, id, now).1 is Ok,
    ensures
        place_order_outcome(v, reqs, id, now).0.wf(),
        place_order_outcome(v, reqs, id, now).0.orders.len() == v.orders.len() + 1,
        place_order_outcome(v, reqs, id, now).0.orders.last().id == id,
        place_order_outcome(v, reqs, id, now).0.orders.last().total_cents == items_total(
            place_order_outcome(v, reqs, id, now).0.orders.last().items,
        ),
        place_order_outcome(v, reqs, id, now).1 == Ok::<int, AppError>(
            place_order_outcome(v, reqs, id, now).0.orders.last().total_cents,
        ),
        place_order_outcome(v, reqs, id, now).0.orders.last().items.len() == reqs.len(),
        forall|i: int|
            0 <= i < reqs.len() ==> {
                let line = #[trigger] place_order_outcome(v, reqs, id, now).0.orders.last().items[i];
                &&& line.product_id == reqs[i].product_id
                &&& line.quantity == reqs[i].quantity
                &&& product_with_id(v.products, reqs[i].product_id) is Some
                &&& line.unit_price_cents == product_with_id(
                    v.products,
                    reqs[i].product_id,
                )->Some_0.price_cents
            },
        place_order_outcome(v, reqs, id, now).0.products.len() == v.products.len(),
        forall|k: int|
            0 <= k < v.products.len() ==> {
                let p = #[trigger] place_order_outcome(v, reqs, id, now).0.products[k];
                &&& p.id == v.products[k].id
                &&& p.price_cents == v.products[k].price_cents
                &&& p.stock == v.products[k].stock - demand(reqs, v.products[k].id)
            },
{
    let w = place_order_outcome(v, reqs, id, now).0;
    let found = lookups(v.products, reqs);
    lemma_no_item_error(reqs, found, 0);
    assert forall|k: int| 0 <= k < v.products.len() implies {
        &&& w.products[k].id == v.products[k].id
        &&& w.products[k].stock == v.products[k].stock - demand(reqs, v.products[k].id)
        &&& w.products[k].stock >= 0
    } by {
        lemma_demand_covered(v, reqs, reqs.len() as int, k);
    }
    assert forall|a: int, b: int| 0 <= a < b < w.products.len() implies #[trigger] w.products[a].id
        < #[trigger] w.products[b].id by {
        assert(v.products[a].id < v.products[b].id);
    }
    assert forall|i: int| 0 <= i < reqs.len() implies product_with_id(
        v.products,
        reqs[i].product_id,
    ) is Some by {
        assert(item_ok(reqs, found, i));
    }
    assert forall|a: int, b: int| 0 <= a < b < w.orders.len() implies #[trigger] w.orders[a].id
        != #[trigger] w.orders[b].id by {
        if b == w.orders.len() - 1 {
            assert(!has_order_id(v.orders, id));
            assert(v.orders[a].id != id);
        }
    }
}

/// A request with no lines, or with a line whose quantity is not positive,
/// fails with a validation error and changes nothing.
pub proof fn lemma_invalid_request_changes_nothing(
    v: InventoryView,
    reqs: Seq<OrderItemRequest>,
    id: Seq<char>,
    now: Seq<char>,
)
    requires
        reqs.len() == 0 || exists|i: int| 0 <= i < reqs.len() && #[trigger] reqs[i].quantity <= 0,
    ensures
        place_order_outcome(v, reqs, id, now).0 == v,
        place_order_outcome(v, reqs, id, now).1 is Err,
        place_order_outcome(v, reqs, id, now).1->Err_0.kind_spec() == ErrorKind::Validation,
{
}

/// A request naming an absent product fails and changes nothing, whatever its
/// other lines hold. When the request passes validation, the error is
/// `ProductNotFound` for the first line whose product is absent.
pub proof fn lemma_unknown_product_changes_nothing(
    v: InventoryView,
    reqs: Seq<OrderItemRequest>,
    id: Seq<char>,
    now: Seq<char>,
    i: int,
)
    requires
        v.wf(),
        0 <= i < reqs.len(),
        product_with_id(v.products, reqs[i].product_id) is None,
    ensures
        place_order_outcome(v, reqs, id, now).0 == v,
        place_order_outcome(v, reqs, id, now).1 is Err,
        request_error(reqs) is None ==> exists|j: int|
            0 <= j <= i && product_with_id(v.products, reqs[j].product_id) is None && (forall|m: int|
                0 <= m < j ==> (#[trigger] product_with_id(v.products, reqs[m].product_id)) is Some)
                && place_order_outcome(v, reqs, id, now).1 == Err::<int, AppError>(
                AppError::ProductNotFound(reqs[j].product_id),
            ),
{
    let found = lookups(v.products, reqs);
    assert(found[i] is None);
    lemma_first_missing_found(reqs, found, 0, i);
    let j = choose|j: int|
        0 <= j <= i && found[j] is None && (forall|m: int| 0 <= m < j ==> (#[trigger] found[m]) is Some)
            && first_missing(reqs, found, 0) == Some(AppError::ProductNotFound(reqs[j].product_id));
    assert(found[j] == catalog_lookup(v.products, reqs[j].product_id));
    assert forall|m: int| 0 <= m < j implies (#[trigger] product_with_id(
        v.products,
        reqs[m].product_id,
    )) is Some by {
        assert(found[m] is Some);
    }
}

/// A request whose products all exist, with a line asking for more units than
/// its product has in stock, fails and changes nothing. When the request
/// passes validation, the error is `InsufficientStock` for the first line
/// whose product's stock does not cover the units asked for so far.
pub proof fn lemma_short_stock_changes_nothing(
    v: InventoryView,
    reqs: Seq<OrderItemRequest>,
    id: Seq<char>,
    now: Seq<char>,
    i: int,
)
    requires
        v.wf(),
        0 <= i < reqs.len(),
        forall|m: int|
            0 <= m < reqs.len() ==> (#[trigger] product_with_id(v.products, reqs[m].product_id)) is Some,
        reqs[i].quantity > product_with_id(v.products, reqs[i].product_id)->Some_0.stock,
    ensures
        place_order_outcome(v, reqs, id, now).0 == v,
        place_order_outcome(v, reqs, id, now).1 is Err,
        request_error(reqs) is None ==> exists|j: int|
            0 <= j <= i && place_order_outcome(v, reqs, id, now).1 == Err::<int, AppError>(
                AppError::InsufficientStock(reqs[j].product_id),
            ) && !stock_ok(reqs, lookups(v.products, reqs), j),
{
    let found = lookups(v.products, reqs);
    if request_error(reqs) is None {
        assert forall|j: int| 0 <= j < reqs.len() implies #[trigger] reqs[j].quantity > 0 by {
            if reqs[j].quantity <= 0 {
                assert(request_error(reqs) is Some);
            }
        }
        assert forall|m: int| 0 <= m < reqs.len() implies (#[trigger] found[m]) is Some by {
            assert(product_with_id(v.products, reqs[m].product_id) is Some);
        }
        if first_missing(reqs, found, 0) is Some {
            lemma_none_missing_contra(reqs, found, 0);
        }
        lemma_demand_monotone(reqs, i, i, reqs[i].product_id);
        assert(demand_before(reqs, i + 1, reqs[i].product_id) >= reqs[i].quantity);
        assert(found[i] == catalog_lookup(v.products, reqs[i].product_id));
        assert(!stock_ok(reqs, found, i));
        lemma_first_short_found(reqs, found, 0, i);
    }
}

/// `first_missing` finds nothing when every line was found.
proof fn lemma_none_missing_contra(
    reqs: Seq<OrderItemRequest>,
    found: Seq<Option<ProductSnapshot>>,
    a: int,
)
    requires
        0 <= a <= reqs.len(),
        forall|m: int| 0 <= m < reqs.len() ==> (#[trigger] found[m]) is Some,
    ensures
        first_missing(reqs, found, a) is None,
    decreases reqs.len() - a,
{
    if a < reqs.len() {
        lemma_none_missing_contra(reqs, found, a + 1);
    }
}

/// Placing the same request twice, the second time under an id that no order
/// has yet, with stock enough for both: the second placement succeeds too,
/// with the same total. The store then holds two orders with distinct ids,
/// and each product's requested units have left its stock twice.
pub proof fn lemma_repeat_order_not_deduplicated(
    v: InventoryView,
    reqs: Seq<OrderItemRequest>,
    id1: Seq<char>,
    now1: Seq<char>,
    id2: Seq<char>,
    now2: Seq<char>,
)
    requires
        v.wf(),
        place_order_outcome(v, reqs, id1, now1).1 is Ok,
        id2 != id1,
        !has_order_id(v.orders, id2),
        forall|k: int|
            0 <= k < v.products.len() ==> 2 * demand(reqs, (#[trigger] v.products[k]).id)
                <= v.products[k].stock,
    ensures
        place_order_outcome(place_order_outcome(v, reqs, id1, now1).0, reqs, id2, now2).1
            == place_order_outcome(v, reqs, id1, now1).1,
        place_order_outcome(place_order_outcome(v, reqs, id1, now1).0, reqs, id2, now2).0.orders
            == v.orders.push(place_order_outcome(v, reqs, id1, now1).0.orders.last()).push(
            place_order_outcome(place_order_outcome(v, reqs, id1, now1).0, reqs, id2, now2).0.orders.last(),
        ),
        place_order_outcome(v, reqs, id1, now1).0.orders.last().id == id1,
        place_order_outcome(place_order_outcome(v, reqs, id1, now1).0, reqs, id2, now2).0.orders.last().id
            == id2,
        forall|k: int|
            0 <= k < v.products.len() ==> #[trigger] place_order_outcome(
                place_order_outcome(v, reqs, id1, now1).0,
                reqs,
                id2,
                now2,
            ).0.products[k].stock == v.products[k].stock - 2 * demand(reqs, v.products[k].id),
{
    let v1 = place_order_outcome(v, reqs, id1, now1).0;
    lemma_placed_order_consistent(v, reqs, id1, now1);
    let f1 = lookups(v.products, reqs);
    let f2 = lookups(v1.products, reqs);
    lemma_no_item_error(reqs, f1, 0);
    assert forall|j: int| 0 <= j < reqs.len() implies #[trigger] reqs[j].quantity > 0 by {
        if reqs[j].quantity <= 0 {
            assert(request_error(reqs) is Some);
        }
    }
    assert forall|i: int| 0 <= i < reqs.len() implies (#[trigger] f2[i]) is Some && f2[i]->Some_0.price_cents
        == f1[i]->Some_0.price_cents && stock_ok(reqs, f2, i) by {
        assert(item_ok(reqs, f1, i));
        let pid = reqs[i].product_id;
        let k = choose|k: int| 0 <= k < v.products.len() && #[trigger] v.products[k].id == pid;
        lemma_lookup_at(v, k);
        lemma_lookup_at(v1, k);
        assert(v1.products[k].id == pid);
        lemma_demand_monotone(reqs, i + 1, reqs.len() as int, pid);
        assert(2 * demand(reqs, v.products[k].id) <= v.products[k].stock);
    }
    lemma_none_missing_contra(reqs, f2, 0);
    lemma_none_short_contra(reqs, f2, 0);
    assert(frozen_items(reqs, f2) =~= frozen_items(reqs, f1));
    assert(!has_order_id(v1.orders, id2)) by {
        if has_order_id(v1.orders, id2) {
            let m = choose|m: int| 0 <= m < v1.orders.len() && #[trigger] v1.orders[m].id == id2;
            if m < v.orders.len() {
                assert(v.orders[m].id == id2);
            }
        }
    }
    let v2 = place_order_outcome(v1, reqs, id2, now2).0;
    lemma_placed_order_consistent(v1, reqs, id2, now2);
    assert(v2.orders =~= v.orders.push(v1.orders.last()).push(v2.orders.last()));
    assert forall|k: int| 0 <= k < v.products.len() implies #[trigger] v2.products[k].stock
        == v.products[k].stock - 2 * demand(reqs, v.products[k].id) by {
        assert(v1.products[k].id == v.products[k].id);
        assert(v2.products[k].stock == v1.products[k].stock - demand(reqs, v1.products[k].id));
    }
}

/// `first_short` finds nothing when every line's stock suffices.
proof fn lemma_none_short_contra(
    reqs: Seq<OrderItemRequest>,
    found: Seq<Option<ProductSnapshot>>,
    a: int,
)
    requires
        0 <= a <= reqs.len(),
        forall|m: int| 0 <= m < reqs.len() ==> stock_ok(reqs, found, m),
    ensures
        first_short(reqs, found, a) is None,
    decreases reqs.len() - a,
{
    if a < reqs.len() {
        lemma_none_short_contra(reqs, found, a + 1);
    }
}

/// Two orders for the last unit of a product: the first one, under an id not
/// yet used, succeeds and leaves a stock of zero; the second then fails with
/// `InsufficientStock` and changes nothing.
pub proof fn lemma_last_unit_sold_once(
    v: InventoryView,
    k: int,
    id1: Seq<char>,
    now1: Seq<char>,
    id2: Seq<char>,
    now2: Seq<char>,
)
    requires
        v.wf(),
        0 <= k < v.products.len(),
        v.products[k].stock == 1,
        !has_order_id(v.orders, id1),
    ensures
        ({
            let reqs = seq![OrderItemRequest { product_id: v.products[k].id, quantity: 1 }];
            let first = place_order_outcome(v, reqs, id1, now1);
            let second = place_order_outcome(first.0, reqs, id2, now2);
            &&& first.1 is Ok
            &&& first.0.products[k].stock == 0
            &&& second.0 == first.0
            &&& second.1 == Err::<int, AppError>(AppError::InsufficientStock(v.products[k].id))
        }),
{
    let pid = v.products[k].id;
    let reqs = seq![OrderItemRequest { product_id: pid, quantity: 1 }];
    let found = lookups(v.products, reqs);
    lemma_lookup_at(v, k);
    assert(demand_before(reqs, 0, pid) == 0);
    assert(demand_before(reqs, 1, pid) == 1);
    assert(item_ok(reqs, found, 0));
    assert(first_missing(reqs, found, 1) is None);
    assert(first_short(reqs, found, 1) is None);
    assert(request_error(reqs) is None);
    let items = placed_items(v, reqs);
    assert(items.drop_last() =~= Seq::<OrderItem>::empty());
    assert(items_total(items.drop_last()) == 0);
    assert(items.take(0) =~= Seq::<OrderItem>::empty());
    assert(items.take(1) =~= items);
    assert(first_missing(reqs, found, 0) is None);
    assert(first_short(reqs, found, 0) is None);
    assert(items[0].unit_price_cents == v.products[k].price_cents);
    assert(items.len() == 1 && items.last() == items[0] && items[0].quantity == 1);
    let last = items.last();
    assert(last.quantity * last.unit_price_cents == last.unit_price_cents) by (nonlinear_arith)
        requires
            last.quantity == 1,
    ;
    assert(items_total(items) == items[0].unit_price_cents);
    assert forall|m: int| 0 <= m <= items.len() implies i64::MIN <= #[trigger] items_total(
        items.take(m),
    ) <= i64::MAX by {
        if m == 0 {
            assert(items_total(items.take(0)) == 0);
        }
    }
    assert(total_fits(items));
    assert(plan_error(reqs, found) is None);
    lemma_demand_covered(v, reqs, 1, k);
    let first = place_order_outcome(v, reqs, id1, now1);
    assert(first.1 is Ok);
    lemma_placed_order_consistent(v, reqs, id1, now1);
    let w = first.0;
    let found2 = lookups(w.products, reqs);
    lemma_lookup_at(w, k);
    assert(found2[0] == Some(ProductSnapshot { price_cents: w.products[k].price_cents, stock: 0 }));
    assert(!stock_ok(reqs, found2, 0));
    assert(first_missing(reqs, found2, 1) is None);
    assert(first_missing(reqs, found2, 0) is None);
    assert(first_short(reqs, found2, 0) == Some(AppError::InsufficientStock(pid)));
}

} // verus!
