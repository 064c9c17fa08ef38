use vstd::prelude::*;

use crate::engine::{
    demand, demand_before, frozen_items, item_ok, items_total, lemma_demand_monotone,
    lemma_no_item_error, plan_error, plan_order,
};
use crate::error::AppError;
use crate::model::{
    CreateOrder, CreateProduct, Order, OrderItem, OrderItemRequest, OrderRecord, OrderResponse,
    Product, ProductSnapshot, UpdateProduct,
};
use crate::support::{new_order_id, now_rfc3339, trim_of, trimmed};

verus! {

/// The mathematical state of an inventory: its products in order of
/// creation, its orders in order of placement, and the next product id.
pub ghost struct InventoryView {
    pub products: Seq<Product>,
    pub orders: Seq<OrderRecord>,
    pub next_product_id: int,
}

impl InventoryView {
    /// Product ids are positive, increase with position and lie below the
    /// next id; no stock is negative; no two orders share an id.
    pub open spec fn wf(self) -> bool {
        &&& 1 <= self.next_product_id <= i64::MAX
        &&& forall|i: int, j: int|
            0 <= i < j < self.products.len() ==> #[trigger] self.products[i].id
                < #[trigger] self.products[j].id
        &&& forall|i: int|
            0 <= i < self.products.len() ==> 1 <= #[trigger] self.products[i].id
                < self.next_product_id
        &&& forall|i: int| 0 <= i < self.products.len() ==> #[trigger] self.products[i].stock >= 0
        &&& forall|i: int, j: int|
            0 <= i < j < self.orders.len() ==> #[trigger] self.orders[i].id
                != #[trigger] self.orders[j].id
    }
}

/// The product with id `id`, if there is one.
pub open spec fn product_with_id(ps: Seq<Product>, id: i64) -> Option<Product> {
    if exists|k: int| 0 <= k < ps.len() && #[trigger] ps[k].id == id {
        Some(ps[choose|k: int| 0 <= k < ps.len() && #[trigger] ps[k].id == id])
    } else {
        None
    }
}

/// What the order engine reads of a product.
pub open spec fn snapshot_of(p: Product) -> ProductSnapshot {
    ProductSnapshot { price_cents: p.price_cents, stock: p.stock }
}

/// What a lookup of `id` finds among `ps`.
pub open spec fn catalog_lookup(ps: Seq<Product>, id: i64) -> Option<ProductSnapshot> {
    match product_with_id(ps, id) {
        Some(p) => Some(snapshot_of(p)),
        None => None,
    }
}

/// The lookups for each line of a request, in input order.
pub open spec fn lookups(ps: Seq<Product>, reqs: Seq<OrderItemRequest>) -> Seq<
    Option<ProductSnapshot>,
> {
    Seq::new(reqs.len(), |i: int| catalog_lookup(ps, reqs[i].product_id))
}

/// `p` with its stock set to `stock`.
pub open spec fn with_stock(p: Product, stock: int) -> Product {
    Product { stock: stock as i32, ..p }
}

/// The products after every product's stock has dropped by its demand.
pub open spec fn stock_after(ps: Seq<Product>, reqs: Seq<OrderItemRequest>) -> Seq<Product> {
    ps.map_values(|p: Product| with_stock(p, p.stock - demand(reqs, p.id)))
}

/// The products after the stock of product `id` has dropped by `amount`.
pub open spec fn stock_decremented(ps: Seq<Product>, id: i64, amount: int) -> Seq<Product> {
    ps.map_values(|p: Product| if p.id == id { with_stock(p, p.stock - amount) } else { p })
}

/// Some order of `orders` has the id `id`.
pub open spec fn has_order_id(orders: Seq<OrderRecord>, id: Seq<char>) -> bool {
    exists|k: int| 0 <= k < orders.len() && #[trigger] orders[k].id == id
}

/// The error with which placing the request fails, if any: the engine's
/// decision on what the catalog holds, then the uniqueness of the order id.
pub open spec fn order_error(v: InventoryView, reqs: Seq<OrderItemRequest>, id: Seq<char>) -> Option<
    AppError,
> {
    let pe = plan_error(reqs, lookups(v.products, reqs));
    if pe is Some {
        pe
    } else if has_order_id(v.orders, id) {
        Some(AppError::DuplicateOrderId)
    } else {
        None
    }
}

/// The lines that an order for `reqs` records, prices frozen from the catalog.
pub open spec fn placed_items(v: InventoryView, reqs: Seq<OrderItemRequest>) -> Seq<OrderItem> {
    frozen_items(reqs, lookups(v.products, reqs))
}

/// The state after an order for `reqs` was placed under id `id` at `now`.
pub open spec fn placed(
    v: InventoryView,
    reqs: Seq<OrderItemRequest>,
    id: Seq<char>,
    now: Seq<char>,
) -> InventoryView {
    InventoryView {
        products: stock_after(v.products, reqs),
        orders: v.orders.push(
            OrderRecord {
                id,
                total_cents: items_total(placed_items(v, reqs)),
                created_at: now,
                items: placed_items(v, reqs),
            },
        ),
        next_product_id: v.next_product_id,
    }
}

/// Placing an order as one unit of work: on failure nothing changes; on
/// success the order and its lines exist and the stock has dropped, together.
/// The result is the order's total or the error.
pub open spec fn place_order_outcome(
    v: InventoryView,
    reqs: Seq<OrderItemRequest>,
    id: Seq<char>,
    now: Seq<char>,
) -> (InventoryView, Result<int, AppError>) {
    match order_error(v, reqs, id) {
        Some(e) => (v, Err(e)),
        None => (placed(v, reqs, id, now), Ok(items_total(placed_items(v, reqs)))),
    }
}

/// With unique ids, the product found under the id of `ps[k]` is `ps[k]`.
pub proof fn lemma_lookup_at(v: InventoryView, k: int)
    requires
        v.wf(),
        0 <= k < v.products.len(),
    ensures
        product_with_id(v.products, v.products[k].id) == Some(v.products[k]),
{
    let ps = v.products;
    assert(ps[k].id == ps[k].id);
    let c = choose|c: int| 0 <= c < ps.len() && #[trigger] ps[c].id == ps[k].id;
    if c < k {
        assert(ps[c].id < ps[k].id);
    } else if c > k {
        assert(ps[k].id < ps[c].id);
    }
}

/// Demand over a prefix of a request is demand over the first lines.
pub proof fn lemma_demand_prefix(reqs: Seq<OrderItemRequest>, n: int, k: int, pid: i64)
    requires
        0 <= k <= n <= reqs.len(),
    ensures
        demand_before(reqs.take(n), k, pid) == demand_before(reqs, k, pid),
    decreases k,
{
    if k > 0 {
        lemma_demand_prefix(reqs, n, k - 1, pid);
    }
}

/// When the engine accepts a request on a well-formed catalog, no product's
/// demand exceeds its stock.
pub proof fn lemma_demand_covered(v: InventoryView, reqs: Seq<OrderItemRequest>, k: int, j: int)
    requires
        v.wf(),
        plan_error(reqs, lookups(v.products, reqs)) is None,
        0 <= k <= reqs.len(),
        0 <= j < v.products.len(),
    ensures
        0 <= demand_before(reqs, k, v.products[j].id) <= v.products[j].stock,
    decreases k,
{
    let found = lookups(v.products, reqs);
    let pid = v.products[j].id;
    lemma_no_item_error(reqs, found, 0);
    lemma_demand_monotone(reqs, k, k, pid);
    if k > 0 {
        lemma_demand_covered(v, reqs, k - 1, j);
        if reqs[k - 1].product_id == pid {
            assert(item_ok(reqs, found, k - 1));
            lemma_lookup_at(v, j);
        }
    }
}

/// What is wrong with the fields of a new product, if anything: the name is
/// empty after trimming, the price is not positive, or the stock is negative.
pub open spec fn new_product_error(payload: CreateProduct) -> Option<AppError> {
    if trim_of(payload.name@).len() == 0 {
        Some(AppError::EmptyName)
    } else if payload.price_cents <= 0 {
        Some(AppError::NonPositivePrice)
    } else if payload.stock < 0 {
        Some(AppError::NegativeStock)
    } else {
        None
    }
}

/// The error with which creating a product fails, if any.
pub open spec fn create_error(payload: CreateProduct, next_id: int) -> Option<AppError> {
    if new_product_error(payload) is Some {
        new_product_error(payload)
    } else if next_id >= i64::MAX {
        Some(AppError::IdsExhausted)
    } else {
        None
    }
}

/// `p` with each field that the update carries replaced.
pub open spec fn updated(p: Product, u: UpdateProduct) -> Product {
    Product {
        id: p.id,
        name: match u.name {
            Some(n) => n,
            None => p.name,
        },
        description: match u.description {
            Some(d) => Some(d),
            None => p.description,
        },
        price_cents: match u.price_cents {
            Some(c) => c,
            None => p.price_cents,
        },
        stock: match u.stock {
            Some(s) => s,
            None => p.stock,
        },
        created_at: p.created_at,
    }
}

/// Checks the fields of a new product.
pub fn validate_new_product(payload: &CreateProduct) -> (r: Result<(), AppError>)
    ensures
        match r {
            Ok(_) => new_product_error(*payload) is None,
            Err(e) => new_product_error(*payload) == Some(e),
        },
{
    if trimmed(payload.name.as_str()).is_empty() {
        Err(AppError::EmptyName)
    } else if payload.price_cents <= 0 {
        Err(AppError::NonPositivePrice)
    } else if payload.stock < 0 {
        Err(AppError::NegativeStock)
    } else {
        Ok(())
    }
}

/// Checks a partial update: a stock it carries must not be negative.
pub fn validate_update(payload: &UpdateProduct) -> (r: Result<(), AppError>)
    ensures
        r is Err <==> (payload.stock matches Some(s) && s < 0),
        r is Err ==> r == Err::<(), AppError>(AppError::NegativeStock),
{
    match payload.stock {
        Some(s) => if s < 0 {
            Err(AppError::NegativeStock)
        } else {
            Ok(())
        },
        None => Ok(()),
    }
}

/// The orders of an inventory.
pub open spec fn order_records(orders: Seq<Order>) -> Seq<OrderRecord> {
    orders.map_values(|o: Order| o@)
}

/// An in-memory catalog and order store. Every operation that changes it is
/// one unit of work: it either applies whole or leaves the store as it was.
pub struct Inventory {
    products: Vec<Product>,
    orders: Vec<Order>,
    next_product_id: i64,
}

impl View for Inventory {
    type V = InventoryView;

    closed spec fn view(&self) -> InventoryView {
        InventoryView {
            products: self.products@,
            orders: order_records(self.orders@),
            next_product_id: self.next_product_id as int,
        }
    }
}

fn copy_text(s: &Option<String>) -> (r: Option<String>)
    ensures
        r == *s,
{
    match s {
        Some(t) => Some(t.clone()),
        None => None,
    }
}

fn copy_order(o: &Order) -> (r: Order)
    ensures
        r@ == o@,
{
    let mut items: Vec<OrderItem> = Vec::new();
    let mut i: usize = 0;
    while i < o.items.len()
        invariant
            i <= o.items@.len(),
            items@ =~= o.items@.take(i as int),
        decreases o.items.len() - i,
    {
        items.push(o.items[i]);
        i += 1;
    }
    proof {
        assert(o.items@.take(o.items@.len() as int) =~= o.items@);
    }
    Order {
        id: o.id.clone(),
        total_cents: o.total_cents,
        created_at: o.created_at.clone(),
        items,
    }
}

fn copy_product(p: &Product) -> (r: Product)
    ensures
        r == *p,
{
    Product {
        id: p.id,
        name: p.name.clone(),
        description: copy_text(&p.description),
        price_cents: p.price_cents,
        stock: p.stock,
        created_at: p.created_at.clone(),
    }
}

impl Inventory {
    pub open spec fn well_formed(&self) -> bool {
        self@.wf()
    }

    /// An empty store whose first product gets id 1.
    pub fn new() -> (r: Self)
        ensures
            r.well_formed(),
            r@.products.len() == 0,
            r@.orders.len() == 0,
            r@.next_product_id == 1,
    {
        let r = Inventory { products: Vec::new(), orders: Vec::new(), next_product_id: 1 };
        proof {
            assert(r@.orders =~= Seq::<OrderRecord>::empty());
        }
        r
    }

    fn find_index(&self, id: i64) -> (r: Option<usize>)
        requires
            self.well_formed(),
        ensures
            match r {
                Some(k) => k < self@.products.len() && self@.products[k as int].id == id
                    && product_with_id(self@.products, id) == Some(self@.products[k as int]),
                None => product_with_id(self@.products, id) is None,
            },
    {
        let mut k: usize = 0;
        while k < self.products.len()
            invariant
                self.well_formed(),
                k <= self.products@.len(),
                forall|j: int| 0 <= j < k ==> #[trigger] self.products@[j].id != id,
            decreases self.products.len() - k,
        {
            if self.products[k].id == id {
                proof {
                    lemma_lookup_at(self@, k as int);
                }
                return Some(k);
            }
            k += 1;
        }
        None
    }

    /// The product with id `id`, or `NotFound`.
    pub fn get_product(&self, id: i64) -> (r: Result<Product, AppError>)
        requires
            self.well_formed(),
        ensures
            match product_with_id(self@.products, id) {
                Some(p) => r == Ok::<Product, AppError>(p),
                None => r == Err::<Product, AppError>(AppError::NotFound),
            },
    {
        match self.find_index(id) {
            Some(k) => Ok(copy_product(&self.products[k])),
            None => Err(AppError::NotFound),
        }
    }

    /// Reads price and stock of each line's product, in input order.
    pub fn lookup_all(&self, reqs: &Vec<OrderItemRequest>) -> (r: Vec<Option<ProductSnapshot>>)
        requires
            self.well_formed(),
        ensures
            r@ == lookups(self@.products, reqs@),
    {
        let mut r: Vec<Option<ProductSnapshot>> = Vec::new();
        let mut i: usize = 0;
        while i < reqs.len()
            invariant
                i <= reqs@.len(),
                self.well_formed(),
                r@ =~= lookups(self@.products, reqs@).take(i as int),
            decreases reqs.len() - i,
        {
            let found = match self.find_index(reqs[i].product_id) {
                Some(k) => Some(
                    ProductSnapshot {
                        price_cents: self.products[k].price_cents,
                        stock: self.products[k].stock,
                    },
                ),
                None => None,
            };
            r.push(found);
            i += 1;
        }
        proof {
            assert(lookups(self@.products, reqs@).take(reqs@.len() as int) =~= lookups(
                self@.products,
                reqs@,
            ));
        }
        r
    }

    fn has_order(&self, id: &String) -> (r: bool)
        ensures
            r == has_order_id(self@.orders, id@),
    {
        let mut k: usize = 0;
        while k < self.orders.len()
            invariant
                k <= self.orders@.len(),
                forall|j: int| 0 <= j < k ==> #[trigger] self@.orders[j].id != id@,
            decreases self.orders.len() - k,
        {
            if self.orders[k].id == *id {
                assert(self@.orders[k as int].id == id@);
                return true;
            }
            k += 1;
        }
        false
    }

    /// Takes `amount` units of product `id` out of stock. Fails without effect
    /// when the product is absent, the amount is not positive, or the stock
    /// would go negative.
    pub fn decrement_stock(&mut self, id: i64, amount: i32) -> (r: Result<(), AppError>)
        requires
            old(self).well_formed(),
        ensures
            final(self).well_formed(),
            match product_with_id(old(self)@.products, id) {
                None => r == Err::<(), AppError>(AppError::NotFound) && final(self)@ == old(self)@,
                Some(p) => if amount <= 0 {
                    r == Err::<(), AppError>(AppError::NonPositiveQuantity) && final(self)@ == old(
                        self,
                    )@
                } else if amount > p.stock {
                    r == Err::<(), AppError>(AppError::InsufficientStock(id)) && final(self)@
                        == old(self)@
                } else {
                    &&& r is Ok
                    &&& final(self)@ == InventoryView {
                        products: stock_decremented(old(self)@.products, id, amount as int),
                        ..old(self)@
                    }
                },
            },
    {
        let k = match self.find_index(id) {
            Some(k) => k,
            None => return Err(AppError::NotFound),
        };
        if amount <= 0 {
            return Err(AppError::NonPositiveQuantity);
        }
        if amount > self.products[k].stock {
            return Err(AppError::InsufficientStock(id));
        }
        let mut p = copy_product(&self.products[k]);
        p.stock = p.stock - amount;
        let ghost before = self@;
        self.products.set(k, p);
        proof {
            let after = stock_decremented(before.products, id, amount as int);
            assert forall|j: int| 0 <= j < self.products@.len() implies self.products@[j] == after[j] by {
                if j != k {
                    if j < k {
                        assert(before.products[j].id < before.products[k as int].id);
                    } else {
                        assert(before.products[k as int].id < before.products[j].id);
                    }
                }
            }
            assert(self.products@ =~= after);
        }
        Ok(())
    }

    /// Places an order as one unit of work under the id `order_id`, created
    /// at `created_at`. The engine decides on the catalog as it stands; on
    /// success the order with its frozen lines is recorded and each product's
    /// stock drops by the units requested of it.
    pub fn create_order(&mut self, payload: &CreateOrder, order_id: String, created_at: String) -> (r:
        Result<OrderResponse, AppError>)
        requires
            old(self).well_formed(),
        ensures
            final(self).well_formed(),
            final(self)@ == place_order_outcome(
                old(self)@,
                payload.items@,
                order_id@,
                created_at@,
            ).0,
            match r {
                Ok(resp) => resp.id@ == order_id@ && place_order_outcome(
                    old(self)@,
                    payload.items@,
                    order_id@,
                    created_at@,
                ).1 == Ok::<int, AppError>(resp.total_cents as int),
                Err(e) => place_order_outcome(
                    old(self)@,
                    payload.items@,
                    order_id@,
                    created_at@,
                ).1 == Err::<int, AppError>(e),
            },
    {
        let reqs = &payload.items;
        let found = self.lookup_all(reqs);
        let plan = match plan_order(reqs, &found) {
            Ok(plan) => plan,
            Err(e) => return Err(e),
        };
        if self.has_order(&order_id) {
            return Err(AppError::DuplicateOrderId);
        }
        let ghost v0 = self@;
        proof {
            assert forall|j: int| 0 <= j < v0.products.len() implies stock_after(
                v0.products,
                reqs@.take(0),
            )[j] == v0.products[j] by {
                assert(demand(reqs@.take(0), v0.products[j].id) == 0);
            }
            assert(stock_after(v0.products, reqs@.take(0)) =~= v0.products);
        }
        let mut i: usize = 0;
        while i < reqs.len()
            invariant
                i <= reqs@.len(),
                v0.wf(),
                self.well_formed(),
                plan_error(reqs@, lookups(v0.products, reqs@)) is None,
                self@ == (InventoryView {
                    products: stock_after(v0.products, reqs@.take(i as int)),
                    ..v0
                }),
            decreases reqs.len() - i,
        {
            let req = reqs[i];
            let ghost cur = self@;
            proof {
                let found0 = lookups(v0.products, reqs@);
                lemma_no_item_error(reqs@, found0, 0);
                assert(item_ok(reqs@, found0, i as int));
                assert(catalog_lookup(v0.products, req.product_id) is Some);
                let j = choose|j: int|
                    0 <= j < v0.products.len() && #[trigger] v0.products[j].id == req.product_id;
                lemma_lookup_at(v0, j);
                lemma_demand_prefix(reqs@, i as int, i as int, req.product_id);
                lemma_lookup_at(cur, j);
                lemma_demand_covered(v0, reqs@, i as int, j);
                lemma_demand_covered(v0, reqs@, i + 1, j);
                assert(reqs@.take(i as int).len() == i);
                assert(cur.products[j].id == req.product_id);
                assert(cur.products[j].stock == v0.products[j].stock - demand_before(
                    reqs@,
                    i as int,
                    req.product_id,
                ));
                lemma_demand_monotone(reqs@, i as int, i as int + 1, req.product_id);
                assert(req.quantity > 0) by {
                    assert(reqs@[i as int].quantity > 0);
                }
            }
            match self.decrement_stock(req.product_id, req.quantity) {
                Ok(_) => {},
                Err(e) => return Err(e),
            }
            proof {
                let a = stock_after(v0.products, reqs@.take(i + 1));
                let b = stock_decremented(cur.products, req.product_id, req.quantity as int);
                assert forall|j: int| 0 <= j < a.len() implies a[j] == b[j] by {
                    lemma_demand_prefix(reqs@, i + 1, i + 1, v0.products[j].id);
                    lemma_demand_prefix(reqs@, i as int, i as int, v0.products[j].id);
                    assert(reqs@.take(i + 1).len() == i + 1);
                    assert(reqs@.take(i as int).len() == i);
                    lemma_demand_covered(v0, reqs@, i as int, j);
                    lemma_demand_covered(v0, reqs@, i + 1, j);
                }
                assert(a =~= b);
            }
            i += 1;
        }
        proof {
            assert(reqs@.take(reqs@.len() as int) =~= reqs@);
        }
        let resp = OrderResponse { id: order_id.clone(), total_cents: plan.total_cents };
        let order = Order {
            id: order_id,
            total_cents: plan.total_cents,
            created_at,
            items: plan.items,
        };
        let ghost before = self@;
        self.orders.push(order);
        proof {
            assert(order_records(self.orders@) =~= before.orders.push(order@));
            assert(!has_order_id(v0.orders, order_id@));
            assert forall|a: int, b: int|
                0 <= a < b < self@.orders.len() implies #[trigger] self@.orders[a].id
                != #[trigger] self@.orders[b].id by {
                if b == self@.orders.len() - 1 {
                    assert(v0.orders[a].id != order_id@);
                }
            }
            assert(self@ =~= placed(v0, reqs@, order_id@, created_at@));
        }
        Ok(resp)
    }

    /// Places an order under a fresh random id, stamped with the current
    /// time. The outcome is that of `create_order` for the id and time drawn.
    pub fn place_order(&mut self, payload: &CreateOrder) -> (r: Result<OrderResponse, AppError>)
        requires
            old(self).well_formed(),
        ensures
            final(self).well_formed(),
            match r {
                Ok(resp) => {
                    &&& resp.id@.len() == 36
                    &&& exists|now: Seq<char>|
                        place_order_outcome(old(self)@, payload.items@, resp.id@, now) == (
                        final(self)@,
                        Ok::<int, AppError>(resp.total_cents as int),
                    )
                },
                Err(e) => exists|id: Seq<char>, now: Seq<char>|
                    place_order_outcome(old(self)@, payload.items@, id, now) == (
                    final(self)@,
                    Err::<int, AppError>(e),
                ),
            },
    {
        let order_id = new_order_id();
        let now = now_rfc3339();
        let ghost id_v = order_id@;
        let ghost now_v = now@;
        let r = self.create_order(payload, order_id, now);
        proof {
            match &r {
                Ok(resp) => {
                    assert(place_order_outcome(old(self)@, payload.items@, resp.id@, now_v) == (
                    self@, Ok::<int, AppError>(resp.total_cents as int)));
                },
                Err(e) => {
                    assert(place_order_outcome(old(self)@, payload.items@, id_v, now_v) == (
                    self@, Err::<int, AppError>(*e)));
                },
            }
        }
        r
    }

    /// The order with id `id`, with its lines, or `NotFound`.
    pub fn get_order(&self, id: &String) -> (r: Result<Order, AppError>)
        requires
            self.well_formed(),
        ensures
            match r {
                Ok(o) => exists|k: int|
                    0 <= k < self@.orders.len() && self@.orders[k] == o@ && o.id@ == id@,
                Err(e) => e == AppError::NotFound && !has_order_id(self@.orders, id@),
            },
    {
        let mut k: usize = 0;
        while k < self.orders.len()
            invariant
                k <= self.orders@.len(),
                forall|j: int| 0 <= j < k ==> #[trigger] self@.orders[j].id != id@,
            decreases self.orders.len() - k,
        {
            if self.orders[k].id == *id {
                let o = copy_order(&self.orders[k]);
                assert(self@.orders[k as int] == o@);
                return Ok(o);
            }
            k += 1;
        }
        Err(AppError::NotFound)
    }

    /// Every product, newest (highest id) first.
    pub fn list_products(&self) -> (r: Vec<Product>)
        ensures
            r@ == self@.products.reverse(),
    {
        let mut r: Vec<Product> = Vec::new();
        let n = self.products.len();
        let mut i: usize = 0;
        while i < n
            invariant
                n == self.products@.len(),
                i <= n,
                r@.len() == i,
                forall|j: int| 0 <= j < i ==> #[trigger] r@[j] == self.products@[n - 1 - j],
            decreases n - i,
        {
            r.push(copy_product(&self.products[n - 1 - i]));
            i += 1;
        }
        assert(r@ =~= self@.products.reverse());
        r
    }

    /// Adds a product under the next id. The name must not be empty after
    /// trimming, the price must be positive and the stock not negative.
    pub fn create_product(&mut self, payload: &CreateProduct, created_at: String) -> (r: Result<
        Product,
        AppError,
    >)
        requires
            old(self).well_formed(),
        ensures
            final(self).well_formed(),
            match create_error(*payload, old(self)@.next_product_id) {
                Some(e) => r == Err::<Product, AppError>(e) && final(self)@ == old(self)@,
                None => {
                    let p = Product {
                        id: old(self)@.next_product_id as i64,
                        name: payload.name,
                        description: payload.description,
                        price_cents: payload.price_cents,
                        stock: payload.stock,
                        created_at,
                    };
                    &&& r == Ok::<Product, AppError>(p)
                    &&& final(self)@ == InventoryView {
                        products: old(self)@.products.push(p),
                        next_product_id: old(self)@.next_product_id + 1,
                        ..old(self)@
                    }
                },
            },
    {
        match validate_new_product(payload) {
            Ok(_) => {},
            Err(e) => return Err(e),
        }
        if self.next_product_id == i64::MAX {
            return Err(AppError::IdsExhausted);
        }
        let p = Product {
            id: self.next_product_id,
            name: payload.name.clone(),
            description: copy_text(&payload.description),
            price_cents: payload.price_cents,
            stock: payload.stock,
            created_at,
        };
        let out = copy_product(&p);
        self.products.push(p);
        self.next_product_id = self.next_product_id + 1;
        Ok(out)
    }

    /// Replaces the fields that the update carries. Fails with `NotFound`
    /// for an absent product and with `NegativeStock` for a negative stock.
    pub fn update_product(&mut self, id: i64, payload: &UpdateProduct) -> (r: Result<
        Product,
        AppError,
    >)
        requires
            old(self).well_formed(),
        ensures
            final(self).well_formed(),
            match product_with_id(old(self)@.products, id) {
                None => r == Err::<Product, AppError>(AppError::NotFound) && final(self)@ == old(
                    self,
                )@,
                Some(p) => if payload.stock matches Some(s) && s < 0 {
                    r == Err::<Product, AppError>(AppError::NegativeStock) && final(self)@ == old(
                        self,
                    )@
                } else {
                    &&& r == Ok::<Product, AppError>(updated(p, *payload))
                    &&& final(self)@ == InventoryView {
                        products: old(self)@.products.map_values(
                            |q: Product| if q.id == id { updated(q, *payload) } else { q },
                        ),
                        ..old(self)@
                    }
                },
            },
    {
        let k = match self.find_index(id) {
            Some(k) => k,
            None => return Err(AppError::NotFound),
        };
        let old_p = &self.products[k];
        match validate_update(payload) {
            Ok(_) => {},
            Err(e) => return Err(e),
        }
        let stock = match payload.stock {
            Some(s) => s,
            None => old_p.stock,
        };
        let p = Product {
            id: old_p.id,
            name: match &payload.name {
                Some(n) => n.clone(),
                None => old_p.name.clone(),
            },
            description: match &payload.description {
                Some(d) => Some(d.clone()),
                None => copy_text(&old_p.description),
            },
            price_cents: match payload.price_cents {
                Some(c) => c,
                None => old_p.price_cents,
            },
            stock,
            created_at: old_p.created_at.clone(),
        };
        let out = copy_product(&p);
        let ghost before = self@;
        self.products.set(k, p);
        proof {
            let after = before.products.map_values(
                |q: Product| if q.id == id { updated(q, *payload) } else { q },
            );
            assert forall|j: int| 0 <= j < self.products@.len() implies self.products@[j]
                == after[j] by {
                if j < k {
                    assert(before.products[j].id < before.products[k as int].id);
                } else if j > k {
                    assert(before.products[k as int].id < before.products[j].id);
                }
            }
            assert(self.products@ =~= after);
        }
        Ok(out)
    }

    /// Removes the product with id `id`, if there is one. Orders keep their
    /// lines and frozen prices.
    pub fn delete_product(&mut self, id: i64)
        requires
            old(self).well_formed(),
        ensures
            final(self).well_formed(),
            final(self)@.orders == old(self)@.orders,
            final(self)@.next_product_id == old(self)@.next_product_id,
            product_with_id(old(self)@.products, id) is None ==> final(self)@ == old(self)@,
            product_with_id(old(self)@.products, id) is Some ==> exists|k: int|
                0 <= k < old(self)@.products.len() && old(self)@.products[k].id == id
                    && final(self)@.products == old(self)@.products.remove(k),
    {
        match self.find_index(id) {
            Some(k) => {
                let ghost before = self@;
                let _ = self.products.remove(k);
                proof {
                    let after = self@.products;
                    assert forall|a: int, b: int| 0 <= a < b < after.len() implies #[trigger] after[a].id
                        < #[trigger] after[b].id by {
                        let a0 = if a < k { a } else { a + 1 };
                        let b0 = if b < k { b } else { b + 1 };
                        assert(after[a] == before.products[a0]);
                        assert(after[b] == before.products[b0]);
                    }
                    assert forall|a: int| 0 <= a < after.len() implies #[trigger] after[a].stock >= 0 by {
                        let a0 = if a < k { a } else { a + 1 };
                        assert(after[a] == before.products[a0]);
                    }
                    assert forall|a: int| 0 <= a < after.len() implies 1 <= #[trigger] after[a].id
                        < before.next_product_id by {
                        let a0 = if a < k { a } else { a + 1 };
                        assert(after[a] == before.products[a0]);
                    }
                    assert(self@.orders == before.orders);
                }
            },
            None => {},
        }
    }
}

} // verus!
