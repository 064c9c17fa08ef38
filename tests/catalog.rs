use shop_orders::error::AppError;
use shop_orders::model::{CreateProduct, UpdateProduct};
use shop_orders::store::{validate_new_product, validate_update, Inventory};

fn product(name: &str, price_cents: i64, stock: i32) -> CreateProduct {
    CreateProduct { name: name.to_string(), description: Some("d".to_string()), price_cents, stock }
}

fn no_change() -> UpdateProduct {
    UpdateProduct { name: None, description: None, price_cents: None, stock: None }
}

#[test]
fn products_get_increasing_ids() {
    let mut inv = Inventory::new();
    let a = inv.create_product(&product("pen", 120, 4), "t0".to_string()).unwrap();
    let b = inv.create_product(&product("cup", 800, 0), "t1".to_string()).unwrap();
    assert_eq!(a.id, 1);
    assert_eq!(b.id, 2);
    assert_eq!(b.name, "cup");
    assert_eq!(b.description, Some("d".to_string()));
    assert_eq!(b.created_at, "t1");
    assert_eq!(inv.get_product(2), Ok(b));
}

#[test]
fn blank_name_is_rejected() {
    let mut inv = Inventory::new();
    assert_eq!(inv.create_product(&product(" \t ", 120, 4), "t".to_string()), Err(AppError::EmptyName));
    assert_eq!(inv.create_product(&product("", 120, 4), "t".to_string()), Err(AppError::EmptyName));
    assert!(inv.create_product(&product("  pen ", 120, 4), "t".to_string()).is_ok());
    assert_eq!(validate_new_product(&product("\n", 1, 1)), Err(AppError::EmptyName));
}

#[test]
fn non_positive_price_is_rejected() {
    let mut inv = Inventory::new();
    assert_eq!(inv.create_product(&product("pen", 0, 4), "t".to_string()), Err(AppError::NonPositivePrice));
    assert_eq!(validate_new_product(&product("pen", -5, 4)), Err(AppError::NonPositivePrice));
    assert_eq!(inv.list_products().len(), 0);
}

#[test]
fn negative_stock_is_rejected() {
    let mut inv = Inventory::new();
    assert_eq!(inv.create_product(&product("pen", 10, -1), "t".to_string()), Err(AppError::NegativeStock));
    inv.create_product(&product("pen", 10, 1), "t".to_string()).unwrap();
    let upd = UpdateProduct { stock: Some(-3), ..no_change() };
    assert_eq!(inv.update_product(1, &upd), Err(AppError::NegativeStock));
    assert_eq!(validate_update(&upd), Err(AppError::NegativeStock));
    assert_eq!(inv.get_product(1).unwrap().stock, 1);
}

#[test]
fn update_keeps_absent_fields() {
    let mut inv = Inventory::new();
    inv.create_product(&product("pen", 120, 4), "t0".to_string()).unwrap();
    let upd = UpdateProduct { name: Some("ink pen".to_string()), stock: Some(9), ..no_change() };
    let p = inv.update_product(1, &upd).unwrap();
    assert_eq!(p.name, "ink pen");
    assert_eq!(p.stock, 9);
    assert_eq!(p.price_cents, 120);
    assert_eq!(p.description, Some("d".to_string()));
    assert_eq!(inv.get_product(1), Ok(p));
}

#[test]
fn missing_product_is_not_found() {
    let mut inv = Inventory::new();
    assert_eq!(inv.get_product(3), Err(AppError::NotFound));
    assert_eq!(inv.update_product(3, &no_change()), Err(AppError::NotFound));
    assert_eq!(AppError::NotFound.status_code(), 404);
}

#[test]
fn list_is_newest_first_and_delete_removes() {
    let mut inv = Inventory::new();
    for name in ["a", "b", "c"] {
        inv.create_product(&product(name, 10, 1), "t".to_string()).unwrap();
    }
    let ids: Vec<i64> = inv.list_products().iter().map(|p| p.id).collect();
    assert_eq!(ids, vec![3, 2, 1]);
    inv.delete_product(2);
    inv.delete_product(7);
    let ids: Vec<i64> = inv.list_products().iter().map(|p| p.id).collect();
    assert_eq!(ids, vec![3, 1]);
    let d = inv.create_product(&product("d", 10, 1), "t".to_string()).unwrap();
    assert_eq!(d.id, 4);
}

#[test]
fn decrement_stock_never_goes_negative() {
    let mut inv = Inventory::new();
    inv.create_product(&product("pen", 10, 3), "t".to_string()).unwrap();
    assert_eq!(inv.decrement_stock(1, 4), Err(AppError::InsufficientStock(1)));
    assert_eq!(inv.decrement_stock(1, 0), Err(AppError::NonPositiveQuantity));
    assert_eq!(inv.decrement_stock(5, 1), Err(AppError::NotFound));
    assert_eq!(inv.decrement_stock(1, 3), Ok(()));
    assert_eq!(inv.get_product(1).unwrap().stock, 0);
}
