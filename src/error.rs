use vstd::prelude::*;
use vstd::string::StringExecFns;

use crate::text::{decimal, push_decimal};

verus! {

/// Every way an operation of the library can fail.
#[derive(Debug, Clone, Copy, PartialEq, Eq, Structural)]
pub enum AppError {
    /// The entity named by the caller (a product or an order) does not exist.
    NotFound,
    /// An order request with no items.
    EmptyOrder,
    /// An order request with an item whose quantity is zero or negative.
    NonPositiveQuantity,
    /// An order item references a product that does not exist.
    ProductNotFound(i64),
    /// An order asks for more units of a product than are in stock.
    InsufficientStock(i64),
    /// The order total does not fit in a signed 64-bit amount of cents.
    TotalOutOfRange,
    /// A product name that is empty after trimming.
    EmptyName,
    /// A product price that is zero or negative at creation.
    NonPositivePrice,
    /// A negative stock count.
    NegativeStock,
    /// The store already holds an order with the same id.
    DuplicateOrderId,
    /// The store has no product id left to assign.
    IdsExhausted,
}

/// The broad classes of failure that callers distinguish.
#[derive(Debug, Clone, Copy, PartialEq, Eq, Structural)]
pub enum ErrorKind {
    /// Malformed or empty input: the caller's fault, never retried.
    Validation,
    /// A referenced entity is absent.
    NotFound,
    /// A business rule on stock was violated.
    InsufficientStock,
    /// The underlying store failed; nothing was applied.
    Store,
}

impl AppError {
    pub open spec fn kind_spec(self) -> ErrorKind {
        match self {
            AppError::NotFound => ErrorKind::NotFound,
            AppError::ProductNotFound(_) => ErrorKind::NotFound,
            AppError::InsufficientStock(_) => ErrorKind::InsufficientStock,
            AppError::DuplicateOrderId => ErrorKind::Store,
            AppError::IdsExhausted => ErrorKind::Store,
            _ => ErrorKind::Validation,
        }
    }

    /// The HTTP status with which the error is reported: 404 for an absent
    /// entity named in the path, 500 for a store failure, 400 otherwise.
    pub open spec fn status_spec(self) -> u16 {
        if self == AppError::NotFound {
            404
        } else if self.kind_spec() == ErrorKind::Store {
            500
        } else {
            400
        }
    }

    /// The text with which the error is reported to a caller. Store failures
    /// carry no internal detail.
    pub open spec fn message_spec(self) -> Seq<char> {
        match self {
            AppError::ProductNotFound(id) => "product "@ + decimal(id as int) + " not found"@,
            AppError::InsufficientStock(id) => "not enough stock for product "@ + decimal(
                id as int,
            ),
            AppError::NotFound => "Not Found"@,
            AppError::EmptyOrder => "order must contain at least one item"@,
            AppError::NonPositiveQuantity => "quantity must be > 0"@,
            AppError::TotalOutOfRange => "order total out of range"@,
            AppError::EmptyName => "name must not be empty"@,
            AppError::NonPositivePrice => "price_cents must be > 0"@,
            AppError::NegativeStock => "stock must be >= 0"@,
            AppError::DuplicateOrderId => "Internal error"@,
            AppError::IdsExhausted => "Internal error"@,
        }
    }

    pub fn message(&self) -> (r: String)
        ensures
            r@ == self.message_spec(),
    {
        match self {
            AppError::ProductNotFound(id) => {
                let mut s = String::from_str("product ");
                push_decimal(&mut s, *id);
                s.append(" not found");
                s
            },
            AppError::InsufficientStock(id) => {
                let mut s = String::from_str("not enough stock for product ");
                push_decimal(&mut s, *id);
                s
            },
            AppError::NotFound => String::from_str("Not Found"),
            AppError::EmptyOrder => String::from_str("order must contain at least one item"),
            AppError::NonPositiveQuantity => String::from_str("quantity must be > 0"),
            AppError::TotalOutOfRange => String::from_str("order total out of range"),
            AppError::EmptyName => String::from_str("name must not be empty"),
            AppError::NonPositivePrice => String::from_str("price_cents must be > 0"),
            AppError::NegativeStock => String::from_str("stock must be >= 0"),
            AppError::DuplicateOrderId => String::from_str("Internal error"),
            AppError::IdsExhausted => String::from_str("Internal error"),
        }
    }

    pub fn kind(&self) -> (r: ErrorKind)
        ensures
            r == self.kind_spec(),
    {
        match self {
            AppError::NotFound => ErrorKind::NotFound,
            AppError::ProductNotFound(_) => ErrorKind::NotFound,
            AppError::InsufficientStock(_) => ErrorKind::InsufficientStock,
            AppError::DuplicateOrderId => ErrorKind::Store,
            AppError::IdsExhausted => ErrorKind::Store,
            _ => ErrorKind::Validation,
        }
    }

    pub fn status_code(&self) -> (r: u16)
        ensures
            r == self.status_spec(),
    {
        match self {
            AppError::NotFound => 404,
            _ => match self.kind() {
                ErrorKind::Store => 500,
                _ => 400,
            },
        }
    }
}

} // verus!
