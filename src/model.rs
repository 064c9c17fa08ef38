use vstd::prelude::*;

verus! {

/// A catalog entry. Prices are in cents.
#[derive(Debug, Clone, PartialEq, Eq)]
pub struct Product {
    pub id: i64,
    pub name: String,
    pub description: Option<String>,
    pub price_cents: i64,
    pub stock: i32,
    pub created_at: String,
}

/// The fields a caller supplies to create a product.
#[derive(Debug, Clone, PartialEq, Eq)]
pub struct CreateProduct {
    pub name: String,
    pub description: Option<String>,
    pub price_cents: i64,
    pub stock: i32,
}

/// A partial update: each absent field keeps its current value.
#[derive(Debug, Clone, PartialEq, Eq)]
pub struct UpdateProduct {
    pub name: Option<String>,
    pub description: Option<String>,
    pub price_cents: Option<i64>,
    pub stock: Option<i32>,
}

/// One requested line of an order.
#[derive(Debug, Clone, Copy, PartialEq, Eq, Structural)]
pub struct OrderItemRequest {
    pub product_id: i64,
    pub quantity: i32,
}

/// An order request: the lines in the order the caller gave them.
#[derive(Debug, Clone, PartialEq, Eq)]
pub struct CreateOrder {
    pub items: Vec<OrderItemRequest>,
}

/// What a successful order placement reports.
#[derive(Debug, Clone, PartialEq, Eq)]
pub struct OrderResponse {
    pub id: String,
    pub total_cents: i64,
}

/// What the order engine reads of a product inside the unit of work.
#[derive(Debug, Clone, Copy, PartialEq, Eq, Structural)]
pub struct ProductSnapshot {
    pub price_cents: i64,
    pub stock: i32,
}

/// A persisted order line, with the unit price frozen at purchase time.
#[derive(Debug, Clone, Copy, PartialEq, Eq, Structural)]
pub struct OrderItem {
    pub product_id: i64,
    pub quantity: i32,
    pub unit_price_cents: i64,
}

/// A persisted order with the lines it owns.
#[derive(Debug, Clone, PartialEq, Eq)]
pub struct Order {
    pub id: String,
    pub total_cents: i64,
    pub created_at: String,
    pub items: Vec<OrderItem>,
}

/// The mathematical content of an order.
pub ghost struct OrderRecord {
    pub id: Seq<char>,
    pub total_cents: int,
    pub created_at: Seq<char>,
    pub items: Seq<OrderItem>,
}

impl View for Order {
    type V = OrderRecord;

    open spec fn view(&self) -> OrderRecord {
        OrderRecord {
            id: self.id@,
            total_cents: self.total_cents as int,
            created_at: self.created_at@,
            items: self.items@,
        }
    }
}

/// What the engine decided for a valid order: the frozen lines and their total.
#[derive(Debug, Clone, PartialEq, Eq)]
pub struct OrderPlan {
    pub items: Vec<OrderItem>,
    pub total_cents: i64,
}

} // verus!
