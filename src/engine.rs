use vstd::prelude::*;

use crate::error::AppError;
use crate::model::{OrderItem, OrderItemRequest, OrderPlan, ProductSnapshot};

verus! {

/// Units of product `pid` asked for by the first `k` lines of a request.
pub open spec fn demand_before(reqs: Seq<OrderItemRequest>, k: int, pid: i64) -> int
    decreases k,
{
    if k <= 0 {
        0
    } else {
        demand_before(reqs, k - 1, pid) + if reqs[k - 1].product_id == pid {
            reqs[k - 1].quantity as int
        } else {
            0
        }
    }
}

/// Units of product `pid` asked for by the whole request.
pub open spec fn demand(reqs: Seq<OrderItemRequest>, pid: i64) -> int {
    demand_before(reqs, reqs.len() as int, pid)
}

/// The validation error of a request, checked before any store access.
pub open spec fn request_error(reqs: Seq<OrderItemRequest>) -> Option<AppError> {
    if reqs.len() == 0 {
        Some(AppError::EmptyOrder)
    } else if exists|i: int| 0 <= i < reqs.len() && #[trigger] reqs[i].quantity <= 0 {
        Some(AppError::NonPositiveQuantity)
    } else {
        None
    }
}

/// The stock found for line `i` covers every unit of that line's product asked
/// for up to and including this line.
pub open spec fn stock_ok(
    reqs: Seq<OrderItemRequest>,
    found: Seq<Option<ProductSnapshot>>,
    i: int,
) -> bool {
    demand_before(reqs, i + 1, reqs[i].product_id) <= found[i]->Some_0.stock
}

/// Line `i` names a product that exists, and its stock covers the line.
pub open spec fn item_ok(
    reqs: Seq<OrderItemRequest>,
    found: Seq<Option<ProductSnapshot>>,
    i: int,
) -> bool {
    &&& found[i] is Some
    &&& stock_ok(reqs, found, i)
}

/// `ProductNotFound` for the first line at index `i` or later whose product
/// was not found.
pub open spec fn first_missing(
    reqs: Seq<OrderItemRequest>,
    found: Seq<Option<ProductSnapshot>>,
    i: int,
) -> Option<AppError>
    decreases reqs.len() - i,
{
    if i < 0 || i >= reqs.len() {
        None
    } else if found[i] is None {
        Some(AppError::ProductNotFound(reqs[i].product_id))
    } else {
        first_missing(reqs, found, i + 1)
    }
}

/// `InsufficientStock` for the first line at index `i` or later whose stock
/// does not cover it.
pub open spec fn first_short(
    reqs: Seq<OrderItemRequest>,
    found: Seq<Option<ProductSnapshot>>,
    i: int,
) -> Option<AppError>
    decreases reqs.len() - i,
{
    if i < 0 || i >= reqs.len() {
        None
    } else if !stock_ok(reqs, found, i) {
        Some(AppError::InsufficientStock(reqs[i].product_id))
    } else {
        first_short(reqs, found, i + 1)
    }
}

/// The line recorded for a request line, with the price frozen from `snap`.
pub open spec fn frozen_item(req: OrderItemRequest, snap: ProductSnapshot) -> OrderItem {
    OrderItem {
        product_id: req.product_id,
        quantity: req.quantity,
        unit_price_cents: snap.price_cents,
    }
}

/// The lines recorded for a whole request.
pub open spec fn frozen_items(
    reqs: Seq<OrderItemRequest>,
    found: Seq<Option<ProductSnapshot>>,
) -> Seq<OrderItem> {
    Seq::new(reqs.len(), |i: int| frozen_item(reqs[i], found[i]->Some_0))
}

/// The sum of `quantity * unit_price_cents` over the lines.
pub open spec fn items_total(items: Seq<OrderItem>) -> int
    decreases items.len(),
{
    if items.len() == 0 {
        0
    } else {
        items_total(items.drop_last()) + items.last().quantity * items.last().unit_price_cents
    }
}

/// Every running total over the lines fits in an `i64`.
pub open spec fn total_fits(items: Seq<OrderItem>) -> bool {
    forall|k: int|
        0 <= k <= items.len() ==> i64::MIN <= #[trigger] items_total(items.take(k)) <= i64::MAX
}

/// The error with which an order is refused, if any: validation first, then
/// the first line whose product is absent, then the first line whose stock
/// falls short, then the range of the total.
pub open spec fn plan_error(
    reqs: Seq<OrderItemRequest>,
    found: Seq<Option<ProductSnapshot>>,
) -> Option<AppError> {
    if request_error(reqs) is Some {
        request_error(reqs)
    } else if first_missing(reqs, found, 0) is Some {
        first_missing(reqs, found, 0)
    } else if first_short(reqs, found, 0) is Some {
        first_short(reqs, found, 0)
    } else if !total_fits(frozen_items(reqs, found)) {
        Some(AppError::TotalOutOfRange)
    } else {
        None
    }
}

proof fn lemma_demand_bound(reqs: Seq<OrderItemRequest>, k: int, pid: i64)
    requires
        0 <= k <= reqs.len(),
    ensures
        -k * 0x8000_0000 <= demand_before(reqs, k, pid) <= k * 0x8000_0000,
    decreases k,
{
    if k > 0 {
        lemma_demand_bound(reqs, k - 1, pid);
    }
}

/// Demand never drops when every quantity is positive.
pub proof fn lemma_demand_monotone(reqs: Seq<OrderItemRequest>, j: int, k: int, pid: i64)
    requires
        0 <= j <= k <= reqs.len(),
        forall|i: int| 0 <= i < reqs.len() ==> #[trigger] reqs[i].quantity > 0,
    ensures
        0 <= demand_before(reqs, j, pid) <= demand_before(reqs, k, pid),
    decreases k,
{
    if k > j {
        lemma_demand_monotone(reqs, j, k - 1, pid);
    } else if j > 0 {
        lemma_demand_monotone(reqs, 0, j - 1, pid);
    }
}

/// When neither lookups nor stock fail from index `i` on, every such line is
/// fine.
pub proof fn lemma_no_item_error(
    reqs: Seq<OrderItemRequest>,
    found: Seq<Option<ProductSnapshot>>,
    i: int,
)
    requires
        0 <= i <= reqs.len(),
        first_missing(reqs, found, i) is None,
        first_short(reqs, found, i) is None,
    ensures
        forall|j: int| i <= j < reqs.len() ==> item_ok(reqs, found, j),
    decreases reqs.len() - i,
{
    if i < reqs.len() {
        lemma_no_item_error(reqs, found, i + 1);
    }
}

/// When no line from index `i` on is missing, every such line was found.
pub proof fn lemma_none_missing(
    reqs: Seq<OrderItemRequest>,
    found: Seq<Option<ProductSnapshot>>,
    i: int,
)
    requires
        0 <= i <= reqs.len(),
        first_missing(reqs, found, i) is None,
    ensures
        forall|j: int| i <= j < reqs.len() ==> (#[trigger] found[j]) is Some,
    decreases reqs.len() - i,
{
    if i < reqs.len() {
        lemma_none_missing(reqs, found, i + 1);
    }
}

/// Lines whose product was found do not change which line is missing first.
pub proof fn lemma_skip_found(
    reqs: Seq<OrderItemRequest>,
    found: Seq<Option<ProductSnapshot>>,
    a: int,
    i: int,
)
    requires
        0 <= a <= i <= reqs.len(),
        forall|j: int| a <= j < i ==> (#[trigger] found[j]) is Some,
    ensures
        first_missing(reqs, found, a) == first_missing(reqs, found, i),
    decreases i - a,
{
    if a < i {
        lemma_skip_found(reqs, found, a + 1, i);
    }
}

/// Lines whose stock suffices do not change which line falls short first.
pub proof fn lemma_skip_stocked(
    reqs: Seq<OrderItemRequest>,
    found: Seq<Option<ProductSnapshot>>,
    a: int,
    i: int,
)
    requires
        0 <= a <= i <= reqs.len(),
        forall|j: int| a <= j < i ==> stock_ok(reqs, found, j),
    ensures
        first_short(reqs, found, a) == first_short(reqs, found, i),
    decreases i - a,
{
    if a < i {
        lemma_skip_stocked(reqs, found, a + 1, i);
    }
}

/// A line at index `i` or later with no product makes `first_missing` name
/// the first such line.
pub proof fn lemma_first_missing_found(
    reqs: Seq<OrderItemRequest>,
    found: Seq<Option<ProductSnapshot>>,
    a: int,
    i: int,
)
    requires
        0 <= a <= i < reqs.len(),
        found[i] is None,
    ensures
        exists|j: int|
            a <= j <= i && found[j] is None && (forall|m: int|
                a <= m < j ==> (#[trigger] found[m]) is Some) && first_missing(reqs, found, a)
                == Some(AppError::ProductNotFound(reqs[j].product_id)),
    decreases i - a,
{
    if found[a] is None {
        assert(forall|m: int| a <= m < a ==> (#[trigger] found[m]) is Some);
    } else {
        lemma_first_missing_found(reqs, found, a + 1, i);
        let j = choose|j: int|
            a + 1 <= j <= i && found[j] is None && (forall|m: int|
                a + 1 <= m < j ==> (#[trigger] found[m]) is Some) && first_missing(
                reqs,
                found,
                a + 1,
            ) == Some(AppError::ProductNotFound(reqs[j].product_id));
        assert(forall|m: int| a <= m < j ==> (#[trigger] found[m]) is Some);
    }
}

/// A line at index `i` or later whose stock falls short makes `first_short`
/// name the first such line.
pub proof fn lemma_first_short_found(
    reqs: Seq<OrderItemRequest>,
    found: Seq<Option<ProductSnapshot>>,
    a: int,
    i: int,
)
    requires
        0 <= a <= i < reqs.len(),
        !stock_ok(reqs, found, i),
    ensures
        exists|j: int|
            a <= j <= i && !stock_ok(reqs, found, j) && first_short(reqs, found, a) == Some(
                AppError::InsufficientStock(reqs[j].product_id),
            ),
    decreases i - a,
{
    if stock_ok(reqs, found, a) {
        lemma_first_short_found(reqs, found, a + 1, i);
    }
}

/// Checks a request before any store access: it must have at least one line,
/// and every quantity must be positive.
pub fn validate_order(reqs: &Vec<OrderItemRequest>) -> (r: Result<(), AppError>)
    ensures
        match r {
            Ok(_) => request_error(reqs@) is None,
            Err(e) => request_error(reqs@) == Some(e),
        },
{
    if reqs.len() == 0 {
        return Err(AppError::EmptyOrder);
    }
    let mut i: usize = 0;
    while i < reqs.len()
        invariant
            0 <= i <= reqs.len(),
            reqs.len() > 0,
            forall|j: int| 0 <= j < i ==> #[trigger] reqs@[j].quantity > 0,
        decreases reqs.len() - i,
    {
        if reqs[i].quantity <= 0 {
            return Err(AppError::NonPositiveQuantity);
        }
        i += 1;
    }
    Ok(())
}

/// Units of the product of line `i` asked for by lines `0..=i`.
fn demand_through(reqs: &Vec<OrderItemRequest>, i: usize) -> (r: i128)
    requires
        i < reqs.len(),
    ensures
        r == demand_before(reqs@, i + 1, reqs@[i as int].product_id),
{
    let pid = reqs[i].product_id;
    let mut acc: i128 = 0;
    let mut j: usize = 0;
    while j <= i
        invariant
            i < reqs.len(),
            j <= i + 1,
            pid == reqs@[i as int].product_id,
            acc == demand_before(reqs@, j as int, pid),
        decreases i + 1 - j,
    {
        proof {
            lemma_demand_bound(reqs@, j as int, pid);
        }
        if reqs[j].product_id == pid {
            acc = acc + reqs[j].quantity as i128;
        }
        j += 1;
    }
    acc
}

/// The total of the lines, or `TotalOutOfRange` as soon as a running total
/// leaves the range of `i64`.
pub fn order_total(items: &Vec<OrderItem>) -> (r: Result<i64, AppError>)
    ensures
        match r {
            Ok(t) => total_fits(items@) && t == items_total(items@),
            Err(e) => !total_fits(items@) && e == AppError::TotalOutOfRange,
        },
{
    let mut acc: i64 = 0;
    let mut k: usize = 0;
    proof {
        assert(items@.take(0) =~= Seq::<OrderItem>::empty());
    }
    while k < items.len()
        invariant
            0 <= k <= items.len(),
            acc == items_total(items@.take(k as int)),
            forall|m: int|
                0 <= m <= k ==> i64::MIN <= #[trigger] items_total(items@.take(m)) <= i64::MAX,
        decreases items.len() - k,
    {
        let it = items[k];
        proof {
            assert(items@.take(k + 1).drop_last() =~= items@.take(k as int));
            assert(-0x8000_0000 <= it.quantity <= 0x7fff_ffff);
            assert(-0x8000_0000_0000_0000 <= it.unit_price_cents <= 0x7fff_ffff_ffff_ffff);
            assert(-0x4000_0000_0000_0000_0000_0000 <= (it.quantity as int) * (
            it.unit_price_cents as int) <= 0x4000_0000_0000_0000_0000_0000) by (nonlinear_arith)
                requires
                    -0x8000_0000 <= it.quantity <= 0x7fff_ffff,
                    -0x8000_0000_0000_0000 <= it.unit_price_cents <= 0x7fff_ffff_ffff_ffff,
            ;
        }
        let term: i128 = (it.quantity as i128) * (it.unit_price_cents as i128);
        let next: i128 = acc as i128 + term;
        proof {
            assert(items_total(items@.take(k + 1)) == next);
        }
        if next < i64::MIN as i128 || next > i64::MAX as i128 {
            proof {
                assert(!(i64::MIN <= items_total(items@.take(k + 1)) <= i64::MAX));
            }
            return Err(AppError::TotalOutOfRange);
        }
        acc = next as i64;
        k += 1;
    }
    proof {
        assert(items@.take(items@.len() as int) =~= items@);
    }
    Ok(acc)
}

/// Decides an order from its lines and what the unit of work found for each
/// line's product (`found[i]` for line `i`). On success the plan holds one
/// line per request line, with the price frozen from the snapshot, and their
/// total.
pub fn plan_order(reqs: &Vec<OrderItemRequest>, found: &Vec<Option<ProductSnapshot>>) -> (r:
    Result<OrderPlan, AppError>)
    requires
        found@.len() == reqs@.len(),
    ensures
        match r {
            Ok(plan) => {
                &&& plan_error(reqs@, found@) is None
                &&& plan.items@ == frozen_items(reqs@, found@)
                &&& plan.total_cents == items_total(plan.items@)
            },
            Err(e) => plan_error(reqs@, found@) == Some(e),
        },
{
    match validate_order(reqs) {
        Ok(_) => {},
        Err(e) => return Err(e),
    }
    let mut i: usize = 0;
    while i < reqs.len()
        invariant
            0 <= i <= reqs.len(),
            found@.len() == reqs@.len(),
            request_error(reqs@) is None,
            first_missing(reqs@, found@, 0) == first_missing(reqs@, found@, i as int),
        decreases reqs.len() - i,
    {
        if found[i].is_none() {
            return Err(AppError::ProductNotFound(reqs[i].product_id));
        }
        i += 1;
    }
    proof {
        lemma_none_missing(reqs@, found@, 0);
    }
    let mut items: Vec<OrderItem> = Vec::new();
    let mut i: usize = 0;
    while i < reqs.len()
        invariant
            0 <= i <= reqs.len(),
            found@.len() == reqs@.len(),
            request_error(reqs@) is None,
            first_missing(reqs@, found@, 0) is None,
            forall|j: int| 0 <= j < reqs.len() ==> (#[trigger] found@[j]) is Some,
            first_short(reqs@, found@, 0) == first_short(reqs@, found@, i as int),
            items@ =~= frozen_items(reqs@, found@).take(i as int),
        decreases reqs.len() - i,
    {
        let req = reqs[i];
        let need = demand_through(reqs, i);
        match found[i] {
            None => {
                return Err(AppError::ProductNotFound(req.product_id));
            },
            Some(snap) => {
                if need > snap.stock as i128 {
                    return Err(AppError::InsufficientStock(req.product_id));
                }
                items.push(
                    OrderItem {
                        product_id: req.product_id,
                        quantity: req.quantity,
                        unit_price_cents: snap.price_cents,
                    },
                );
            },
        }
        i += 1;
    }
    proof {
        assert(frozen_items(reqs@, found@).take(reqs@.len() as int) =~= frozen_items(
            reqs@,
            found@,
        ));
    }
    match order_total(&items) {
        Ok(total) => Ok(OrderPlan { items, total_cents: total }),
        Err(e) => Err(e),
    }
}

} // verus!
