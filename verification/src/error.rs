//! Error types for the order book engine, with their recoverability and
//! severity classification.

use vstd::prelude::*;

use crate::types::{OrderId, Price, Qty};
use crate::textfmt::u64_to_string;

verus! {

/// Errors of the order book engine.
#[derive(Debug, Clone, PartialEq, Eq)]
pub enum EngineError {
    /// Order not found for cancellation or modification.
    UnknownOrder { order_id: OrderId },
    /// Invalid price value (zero for a limit order).
    InvalidPrice { price: Price },
    /// Invalid quantity value (zero).
    InvalidQty { qty: Qty },
    /// An order id that is already resting on the book.
    DuplicateOrderId { order_id: OrderId },
    /// Business logic rejection with a human-readable reason.
    Reject { reason: String },
    /// Market order placed with no opposite-side liquidity.
    NoLiquidity,
    /// Order would cross with an own order (reserved for an optional policy).
    SelfTrade { order_id: OrderId },
    /// Order size exceeds the maximum allowed.
    QtyTooLarge { qty: Qty, max_qty: Qty },
    /// Price is outside the allowed range.
    PriceOutOfRange { price: Price, min_price: Price, max_price: Price },
    /// The book is in an invalid state; the engine must not continue.
    InternalError { details: String },
    /// Data ingestion failure.
    DataError { message: String },
    /// Network or communication failure.
    NetworkError { message: String },
    /// Serialization or deserialization failure.
    SerializationError { message: String },
}

/// The log level type of the tracing facade, declared so severities can be
/// mapped onto it.
#[verifier::external_type_specification]
#[verifier::external_body]
pub struct ExTracingLevel(tracing::Level);

/// Result type alias for engine operations.
pub type EngineResult<T> = Result<T, EngineError>;

/// Error severity levels for logging and monitoring.
#[derive(Debug, Clone, Copy, PartialEq, Eq, Structural)]
pub enum ErrorSeverity {
    Info,
    Warning,
    Error,
    Critical,
}

impl EngineError {
    /// Whether the error is recoverable (spec level): a simulation step may
    /// swallow and count it rather than aborting.
    pub open spec fn spec_is_recoverable(&self) -> bool {
        match self {
            EngineError::UnknownOrder { .. } => true,
            EngineError::InvalidPrice { .. } => false,
            EngineError::InvalidQty { .. } => false,
            EngineError::DuplicateOrderId { .. } => true,
            EngineError::Reject { .. } => true,
            EngineError::NoLiquidity => true,
            EngineError::SelfTrade { .. } => true,
            EngineError::QtyTooLarge { .. } => false,
            EngineError::PriceOutOfRange { .. } => false,
            EngineError::InternalError { .. } => false,
            EngineError::DataError { .. } => true,
            EngineError::NetworkError { .. } => true,
            EngineError::SerializationError { .. } => false,
        }
    }

    /// The severity of the error (spec level).
    pub open spec fn spec_severity(&self) -> ErrorSeverity {
        match self {
            EngineError::UnknownOrder { .. } => ErrorSeverity::Warning,
            EngineError::InvalidPrice { .. } => ErrorSeverity::Error,
            EngineError::InvalidQty { .. } => ErrorSeverity::Error,
            EngineError::DuplicateOrderId { .. } => ErrorSeverity::Warning,
            EngineError::Reject { .. } => ErrorSeverity::Info,
            EngineError::NoLiquidity => ErrorSeverity::Warning,
            EngineError::SelfTrade { .. } => ErrorSeverity::Warning,
            EngineError::QtyTooLarge { .. } => ErrorSeverity::Error,
            EngineError::PriceOutOfRange { .. } => ErrorSeverity::Error,
            EngineError::InternalError { .. } => ErrorSeverity::Critical,
            EngineError::DataError { .. } => ErrorSeverity::Warning,
            EngineError::NetworkError { .. } => ErrorSeverity::Warning,
            EngineError::SerializationError { .. } => ErrorSeverity::Error,
        }
    }

    /// Create a rejection error with a custom reason.
    pub fn reject(reason: &str) -> (r: EngineError)
        ensures
            r matches EngineError::Reject { reason: m } && m@ == reason@,
    {
        EngineError::Reject { reason: reason.to_owned() }
    }

    /// Create an internal error with details.
    pub fn internal(details: &str) -> (r: EngineError)
        ensures
            r matches EngineError::InternalError { details: m } && m@ == details@,
    {
        EngineError::InternalError { details: details.to_owned() }
    }

    /// Create a data error with a message.
    pub fn data(message: &str) -> (r: EngineError)
        ensures
            r matches EngineError::DataError { message: m } && m@ == message@,
    {
        EngineError::DataError { message: message.to_owned() }
    }

    /// Create a network error with a message.
    pub fn network(message: &str) -> (r: EngineError)
        ensures
            r matches EngineError::NetworkError { message: m } && m@ == message@,
    {
        EngineError::NetworkError { message: message.to_owned() }
    }

    /// Create a serialization error with a message.
    pub fn serialization(message: &str) -> (r: EngineError)
        ensures
            r matches EngineError::SerializationError { message: m } && m@ == message@,
    {
        EngineError::SerializationError { message: message.to_owned() }
    }

    /// A human-readable description of the error.
    pub fn message(&self) -> (r: String)
        ensures
            r@.len() > 0,
    {
        proof {
            reveal_strlit("Order with ID ");
            reveal_strlit("Invalid price: ");
            reveal_strlit("Invalid quantity: ");
            reveal_strlit("Duplicate order id: ");
            reveal_strlit("Order rejected: ");
            reveal_strlit("Market order cannot be executed: no liquidity on opposite side");
            reveal_strlit("Self-trade detected for order ");
            reveal_strlit("Order quantity too large: ");
            reveal_strlit("Price outside allowed range: ");
            reveal_strlit("Order book internal error: ");
            reveal_strlit("Data ingestion error: ");
            reveal_strlit("Network error: ");
            reveal_strlit("Serialization error: ");
        }
        match self {
            EngineError::UnknownOrder { order_id } => {
                let mut s = ("Order with ID ").to_owned();
                let d = u64_to_string(*order_id);
                s.append(d.as_str());
                s.append(" not found");
                proof {
                    reveal_strlit(" not found");
                }
                s
            },
            EngineError::InvalidPrice { price } => {
                let mut s = ("Invalid price: ").to_owned();
                let d = u64_to_string(*price);
                s.append(d.as_str());
                s.append(". Price must be positive for limit orders");
                proof {
                    reveal_strlit(". Price must be positive for limit orders");
                }
                s
            },
            EngineError::InvalidQty { qty } => {
                let mut s = ("Invalid quantity: ").to_owned();
                let d = u64_to_string(*qty);
                s.append(d.as_str());
                s.append(". Quantity must be positive");
                proof {
                    reveal_strlit(". Quantity must be positive");
                }
                s
            },
            EngineError::DuplicateOrderId { order_id } => {
                let mut s = ("Duplicate order id: ").to_owned();
                let d = u64_to_string(*order_id);
                s.append(d.as_str());
                s
            },
            EngineError::Reject { reason } => {
                let mut s = ("Order rejected: ").to_owned();
                s.append(reason.as_str());
                s
            },
            EngineError::NoLiquidity => ("Market order cannot be executed: no liquidity on opposite side").to_owned(),
            EngineError::SelfTrade { order_id } => {
                let mut s = ("Self-trade detected for order ").to_owned();
                let d = u64_to_string(*order_id);
                s.append(d.as_str());
                s
            },
            EngineError::QtyTooLarge { qty, .. } => {
                let mut s = ("Order quantity too large: ").to_owned();
                let d = u64_to_string(*qty);
                s.append(d.as_str());
                s
            },
            EngineError::PriceOutOfRange { price, .. } => {
                let mut s = ("Price outside allowed range: ").to_owned();
                let d = u64_to_string(*price);
                s.append(d.as_str());
                s
            },
            EngineError::InternalError { details } => {
                let mut s = ("Order book internal error: ").to_owned();
                s.append(details.as_str());
                s
            },
            EngineError::DataError { message } => {
                let mut s = ("Data ingestion error: ").to_owned();
                s.append(message.as_str());
                s
            },
            EngineError::NetworkError { message } => {
                let mut s = ("Network error: ").to_owned();
                s.append(message.as_str());
                s
            },
            EngineError::SerializationError { message } => {
                let mut s = ("Serialization error: ").to_owned();
                s.append(message.as_str());
                s
            },
        }
    }

    /// Check if this is a recoverable error.
    pub fn is_recoverable(&self) -> (r: bool)
        ensures
            r == self.spec_is_recoverable(),
    {
        match self {
            EngineError::UnknownOrder { .. } => true,
            EngineError::InvalidPrice { .. } => false,
            EngineError::InvalidQty { .. } => false,
            EngineError::DuplicateOrderId { .. } => true,
            EngineError::Reject { .. } => true,
            EngineError::NoLiquidity => true,
            EngineError::SelfTrade { .. } => true,
            EngineError::QtyTooLarge { .. } => false,
            EngineError::PriceOutOfRange { .. } => false,
            EngineError::InternalError { .. } => false,
            EngineError::DataError { .. } => true,
            EngineError::NetworkError { .. } => true,
            EngineError::SerializationError { .. } => false,
        }
    }

    /// Get the error's severity level.
    pub fn severity(&self) -> (r: ErrorSeverity)
        ensures
            r == self.spec_severity(),
    {
        match self {
            EngineError::UnknownOrder { .. } => ErrorSeverity::Warning,
            EngineError::InvalidPrice { .. } => ErrorSeverity::Error,
            EngineError::InvalidQty { .. } => ErrorSeverity::Error,
            EngineError::DuplicateOrderId { .. } => ErrorSeverity::Warning,
            EngineError::Reject { .. } => ErrorSeverity::Info,
            EngineError::NoLiquidity => ErrorSeverity::Warning,
            EngineError::SelfTrade { .. } => ErrorSeverity::Warning,
            EngineError::QtyTooLarge { .. } => ErrorSeverity::Error,
            EngineError::PriceOutOfRange { .. } => ErrorSeverity::Error,
            EngineError::InternalError { .. } => ErrorSeverity::Critical,
            EngineError::DataError { .. } => ErrorSeverity::Warning,
            EngineError::NetworkError { .. } => ErrorSeverity::Warning,
            EngineError::SerializationError { .. } => ErrorSeverity::Error,
        }
    }
}

impl ErrorSeverity {
    /// Relies on tracing::Level: map a severity onto the facade's log
    /// levels (errors and critical failures both log as errors).
    #[verifier::external_body]
    pub fn to_tracing_level(&self) -> tracing::Level {
        match self {
            ErrorSeverity::Info => tracing::Level::INFO,
            ErrorSeverity::Warning => tracing::Level::WARN,
            ErrorSeverity::Error => tracing::Level::ERROR,
            ErrorSeverity::Critical => tracing::Level::ERROR,
        }
    }
}

} // verus!
