use shop_orders::engine::{order_total, plan_order, validate_order};
use shop_orders::error::{AppError, ErrorKind};
use shop_orders::model::{CreateOrder, CreateProduct, OrderItem, OrderItemRequest, ProductSnapshot};
use shop_orders::store::Inventory;

fn product(name: &str, price_cents: i64, stock: i32) -> CreateProduct {
    CreateProduct { name: name.to_string(), description: None, price_cents, stock }
}

fn line(product_id: i64, quantity: i32) -> OrderItemRequest {
    OrderItemRequest { product_id, quantity }
}

fn order(items: Vec<OrderItemRequest>) -> CreateOrder {
    CreateOrder { items }
}

fn stock_of(inv: &Inventory, id: i64) -> i32 {
    inv.get_product(id).unwrap().stock
}

fn inventory_with(products: &[(i64, i32)]) -> Inventory {
    let mut inv = Inventory::new();
    for (price, stock) in products {
        inv.create_product(&product("item", *price, *stock), "t0".to_string()).unwrap();
    }
    inv
}

#[test]
fn end_to_end_three_units() {
    let mut inv = inventory_with(&[(500, 10)]);
    let r = inv.create_order(&order(vec![line(1, 3)]), "o-1".to_string(), "t1".to_string());
    let resp = r.unwrap();
    assert_eq!(resp.id, "o-1");
    assert_eq!(resp.total_cents, 1500);
    assert_eq!(stock_of(&inv, 1), 7);
    let o = inv.get_order(&"o-1".to_string()).unwrap();
    assert_eq!(o.total_cents, 1500);
    assert_eq!(o.created_at, "t1");
    assert_eq!(o.items, vec![OrderItem { product_id: 1, quantity: 3, unit_price_cents: 500 }]);
}

#[test]
fn end_to_end_too_many_units() {
    let mut inv = inventory_with(&[(500, 7)]);
    let r = inv.create_order(&order(vec![line(1, 100)]), "o-1".to_string(), "t1".to_string());
    assert_eq!(r, Err(AppError::InsufficientStock(1)));
    assert_eq!(stock_of(&inv, 1), 7);
    assert_eq!(inv.get_order(&"o-1".to_string()), Err(AppError::NotFound));
}

#[test]
fn total_sums_lines_and_stock_drops_per_product() {
    let mut inv = inventory_with(&[(250, 5), (1000, 3)]);
    let r = inv.create_order(
        &order(vec![line(2, 2), line(1, 4), line(2, 1)]),
        "o-1".to_string(),
        "t1".to_string(),
    );
    assert_eq!(r.unwrap().total_cents, 2 * 1000 + 4 * 250 + 1000);
    assert_eq!(stock_of(&inv, 1), 1);
    assert_eq!(stock_of(&inv, 2), 0);
}

#[test]
fn empty_order_is_rejected() {
    let mut inv = inventory_with(&[(500, 10)]);
    let r = inv.create_order(&order(vec![]), "o-1".to_string(), "t1".to_string());
    assert_eq!(r, Err(AppError::EmptyOrder));
    assert_eq!(r.as_ref().unwrap_err().kind(), ErrorKind::Validation);
    assert_eq!(stock_of(&inv, 1), 10);
}

#[test]
fn non_positive_quantity_is_rejected() {
    let mut inv = inventory_with(&[(500, 10)]);
    for q in [0, -2] {
        let r = inv.create_order(&order(vec![line(1, 1), line(1, q)]), "o-1".to_string(), "t".to_string());
        assert_eq!(r, Err(AppError::NonPositiveQuantity));
    }
    assert_eq!(stock_of(&inv, 1), 10);
    assert_eq!(inv.get_order(&"o-1".to_string()), Err(AppError::NotFound));
}

#[test]
fn unknown_product_changes_no_stock() {
    let mut inv = inventory_with(&[(500, 10)]);
    let r = inv.create_order(&order(vec![line(1, 2), line(99, 1)]), "o-1".to_string(), "t".to_string());
    assert_eq!(r, Err(AppError::ProductNotFound(99)));
    assert_eq!(r.as_ref().unwrap_err().kind(), ErrorKind::NotFound);
    assert_eq!(r.as_ref().unwrap_err().status_code(), 400);
    assert_eq!(stock_of(&inv, 1), 10);
}

#[test]
fn short_stock_changes_no_stock() {
    let mut inv = inventory_with(&[(500, 10), (700, 5)]);
    let r = inv.create_order(&order(vec![line(1, 2), line(2, 6)]), "o-1".to_string(), "t".to_string());
    assert_eq!(r, Err(AppError::InsufficientStock(2)));
    assert_eq!(stock_of(&inv, 1), 10);
    assert_eq!(stock_of(&inv, 2), 5);
}

#[test]
fn missing_product_wins_over_short_stock() {
    let mut inv = inventory_with(&[(500, 7)]);
    let r = inv.create_order(&order(vec![line(1, 100), line(99, 1)]), "o-1".to_string(), "t".to_string());
    assert_eq!(r, Err(AppError::ProductNotFound(99)));
    assert_eq!(stock_of(&inv, 1), 7);
}

#[test]
fn first_short_line_decides_the_stock_error() {
    let mut inv = inventory_with(&[(500, 7), (300, 2)]);
    let r = inv.create_order(&order(vec![line(1, 1), line(2, 5), line(1, 100)]), "o-1".to_string(), "t".to_string());
    assert_eq!(r, Err(AppError::InsufficientStock(2)));
}

#[test]
fn repeated_lines_of_one_product_count_together() {
    let mut inv = inventory_with(&[(100, 10)]);
    let r = inv.create_order(&order(vec![line(1, 6), line(1, 6)]), "o-1".to_string(), "t".to_string());
    assert_eq!(r, Err(AppError::InsufficientStock(1)));
    assert_eq!(stock_of(&inv, 1), 10);
}

#[test]
fn same_payload_twice_gives_two_orders() {
    let mut inv = inventory_with(&[(500, 10)]);
    let payload = order(vec![line(1, 2)]);
    let a = inv.place_order(&payload).unwrap();
    let b = inv.place_order(&payload).unwrap();
    assert_ne!(a.id, b.id);
    assert_eq!(a.total_cents, 1000);
    assert_eq!(b.total_cents, 1000);
    assert_eq!(stock_of(&inv, 1), 6);
    assert!(inv.get_order(&a.id).is_ok());
    assert!(inv.get_order(&b.id).is_ok());
}

#[test]
fn fresh_order_ids_are_hyphenated_uuids() {
    let mut inv = inventory_with(&[(500, 10)]);
    let a = inv.place_order(&order(vec![line(1, 1)])).unwrap();
    assert_eq!(a.id.len(), 36);
    let dashes: Vec<usize> = a.id.char_indices().filter(|(_, c)| *c == '-').map(|(i, _)| i).collect();
    assert_eq!(dashes, vec![8, 13, 18, 23]);
}

#[test]
fn duplicate_order_id_is_a_store_error() {
    let mut inv = inventory_with(&[(500, 10)]);
    inv.create_order(&order(vec![line(1, 1)]), "same".to_string(), "t".to_string()).unwrap();
    let r = inv.create_order(&order(vec![line(1, 1)]), "same".to_string(), "t".to_string());
    assert_eq!(r, Err(AppError::DuplicateOrderId));
    assert_eq!(r.as_ref().unwrap_err().kind(), ErrorKind::Store);
    assert_eq!(r.as_ref().unwrap_err().status_code(), 500);
    assert_eq!(stock_of(&inv, 1), 9);
}

#[test]
fn last_unit_goes_to_one_of_two_orders() {
    let mut inv = inventory_with(&[(500, 1)]);
    let a = inv.create_order(&order(vec![line(1, 1)]), "a".to_string(), "t".to_string());
    let b = inv.create_order(&order(vec![line(1, 1)]), "b".to_string(), "t".to_string());
    assert!(a.is_ok());
    assert_eq!(b, Err(AppError::InsufficientStock(1)));
    assert_eq!(stock_of(&inv, 1), 0);
}

#[test]
fn order_keeps_price_frozen_after_price_change() {
    let mut inv = inventory_with(&[(500, 10)]);
    inv.create_order(&order(vec![line(1, 2)]), "o-1".to_string(), "t".to_string()).unwrap();
    let upd = shop_orders::model::UpdateProduct { name: None, description: None, price_cents: Some(900), stock: None };
    inv.update_product(1, &upd).unwrap();
    inv.delete_product(1);
    let o = inv.get_order(&"o-1".to_string()).unwrap();
    assert_eq!(o.total_cents, 1000);
    assert_eq!(o.items[0].unit_price_cents, 500);
}

#[test]
fn plan_freezes_snapshot_prices() {
    let reqs = vec![line(4, 2), line(9, 1)];
    let found = vec![
        Some(ProductSnapshot { price_cents: 300, stock: 2 }),
        Some(ProductSnapshot { price_cents: 50, stock: 8 }),
    ];
    let plan = plan_order(&reqs, &found).unwrap();
    assert_eq!(plan.total_cents, 650);
    assert_eq!(
        plan.items,
        vec![
            OrderItem { product_id: 4, quantity: 2, unit_price_cents: 300 },
            OrderItem { product_id: 9, quantity: 1, unit_price_cents: 50 },
        ]
    );
}

#[test]
fn plan_reports_missing_and_short_lines() {
    let reqs = vec![line(4, 2), line(9, 1)];
    let missing = vec![Some(ProductSnapshot { price_cents: 300, stock: 2 }), None];
    assert_eq!(plan_order(&reqs, &missing), Err(AppError::ProductNotFound(9)));
    let short_and_missing = vec![Some(ProductSnapshot { price_cents: 300, stock: 1 }), None];
    assert_eq!(plan_order(&reqs, &short_and_missing), Err(AppError::ProductNotFound(9)));
    let short = vec![
        Some(ProductSnapshot { price_cents: 300, stock: 1 }),
        Some(ProductSnapshot { price_cents: 50, stock: 8 }),
    ];
    assert_eq!(plan_order(&reqs, &short), Err(AppError::InsufficientStock(4)));
}

#[test]
fn total_out_of_range_is_reported() {
    let reqs = vec![line(1, 2)];
    let found = vec![Some(ProductSnapshot { price_cents: i64::MAX, stock: 5 })];
    assert_eq!(plan_order(&reqs, &found), Err(AppError::TotalOutOfRange));
    let items = vec![
        OrderItem { product_id: 1, quantity: 1, unit_price_cents: i64::MAX },
        OrderItem { product_id: 2, quantity: 1, unit_price_cents: 1 },
    ];
    assert_eq!(order_total(&items), Err(AppError::TotalOutOfRange));
    let fits = vec![
        OrderItem { product_id: 1, quantity: 1, unit_price_cents: i64::MAX },
        OrderItem { product_id: 2, quantity: 1, unit_price_cents: -1 },
    ];
    assert_eq!(order_total(&fits), Ok(i64::MAX - 1));
}

#[test]
fn validation_runs_before_lookups() {
    assert_eq!(validate_order(&vec![]), Err(AppError::EmptyOrder));
    assert_eq!(validate_order(&vec![line(1, 1), line(2, 0)]), Err(AppError::NonPositiveQuantity));
    assert_eq!(validate_order(&vec![line(1, 1)]), Ok(()));
}

#[test]
fn error_messages_name_the_product() {
    assert_eq!(AppError::ProductNotFound(99).message(), "product 99 not found");
    assert_eq!(AppError::InsufficientStock(1).message(), "not enough stock for product 1");
    assert_eq!(AppError::ProductNotFound(-40).message(), "product -40 not found");
    assert_eq!(
        AppError::InsufficientStock(i64::MIN).message(),
        "not enough stock for product -9223372036854775808"
    );
    assert_eq!(AppError::ProductNotFound(0).message(), "product 0 not found");
    assert_eq!(AppError::EmptyOrder.message(), "order must contain at least one item");
    assert_eq!(AppError::DuplicateOrderId.message(), "Internal error");
    assert_eq!(AppError::NotFound.message(), "Not Found");
}
