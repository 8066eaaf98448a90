//! The market event model and historical event ingest: typed events with
//! their validation rules, data errors, and a CSV replay source with
//! seek-by-timestamp, pause, playback speed and reset.

use vstd::prelude::*;

use crate::types::{Order, OrderId, Price, Qty, Side};

verus! {

/// Errors of data ingestion.
#[derive(Debug, Clone, PartialEq, Eq)]
pub enum DataError {
    /// File not found or cannot be opened.
    FileNotFound { path: String },
    /// Invalid file format or corrupted data.
    InvalidFormat { file: String, details: String },
    /// Parsing error for a specific record.
    ParseError { file: String, line: usize, message: String },
    /// Timestamp out of order or invalid.
    InvalidTimestamp { timestamp: u128, line: usize, reason: String },
    /// Seek operation failed.
    SeekFailed { reason: String },
    /// End of data stream reached.
    EndOfStream,
    /// IO error during file operations.
    IoError { message: String },
    /// Data validation error.
    ValidationError { message: String },
    /// Unsupported operation.
    UnsupportedOperation { operation: String },
}

/// Result type for data operations.
pub type DataResult<T> = Result<T, DataError>;

impl DataError {
    /// Create a file-not-found error.
    pub fn file_not_found(path: &str) -> (r: DataError)
        ensures
            r matches DataError::FileNotFound { path: p } && p@ == path@,
    {
        DataError::FileNotFound { path: path.to_owned() }
    }

    /// Create an invalid-format error.
    pub fn invalid_format(file: &str, details: &str) -> (r: DataError)
        ensures
            r matches DataError::InvalidFormat { file: f, details: d } && f@ == file@ && d@
                == details@,
    {
        DataError::InvalidFormat { file: file.to_owned(), details: details.to_owned() }
    }

    /// Create a parse error.
    pub fn parse_error(file: &str, line: usize, message: &str) -> (r: DataError)
        ensures
            r matches DataError::ParseError { file: f, line: l, message: m } && f@ == file@ && l
                == line && m@ == message@,
    {
        DataError::ParseError { file: file.to_owned(), line, message: message.to_owned() }
    }

    /// Create an invalid-timestamp error.
    pub fn invalid_timestamp(timestamp: u128, line: usize, reason: &str) -> (r: DataError)
        ensures
            r matches DataError::InvalidTimestamp { timestamp: t, line: l, reason: m } && t
                == timestamp && l == line && m@ == reason@,
    {
        DataError::InvalidTimestamp { timestamp, line, reason: reason.to_owned() }
    }

    /// Create a seek-failed error.
    pub fn seek_failed(reason: &str) -> (r: DataError)
        ensures
            r matches DataError::SeekFailed { reason: m } && m@ == reason@,
    {
        DataError::SeekFailed { reason: reason.to_owned() }
    }

    /// Create a validation error.
    pub fn validation(message: &str) -> (r: DataError)
        ensures
            r matches DataError::ValidationError { message: m } && m@ == message@,
    {
        DataError::ValidationError { message: message.to_owned() }
    }

    /// Create an unsupported-operation error.
    pub fn unsupported(operation: &str) -> (r: DataError)
        ensures
            r matches DataError::UnsupportedOperation { operation: m } && m@ == operation@,
    {
        DataError::UnsupportedOperation { operation: operation.to_owned() }
    }
}

/// Market status types.
#[derive(Debug, Clone, Copy, PartialEq, Eq, Structural)]
pub enum MarketStatusType {
    /// Market is open for trading.
    Open,
    /// Market is closed.
    Closed,
    /// Trading is halted.
    Halted,
    /// Pre-market session.
    PreMarket,
    /// After-hours session.
    AfterHours,
    /// Auction period.
    Auction,
}

/// Market events ingested from external data sources.
#[derive(Debug, Clone, PartialEq, Eq)]
pub enum MarketEvent {
    /// Trade execution event.
    Trade { price: Price, qty: Qty, side: Side, timestamp: u128, trade_id: Option<String> },
    /// Quote update event (bid/ask prices).
    Quote {
        bid: Option<Price>,
        ask: Option<Price>,
        bid_qty: Option<Qty>,
        ask_qty: Option<Qty>,
        timestamp: u128,
    },
    /// Order placement event.
    OrderPlacement(Order),
    /// Order cancellation event.
    OrderCancellation { order_id: OrderId, timestamp: u128, reason: Option<String> },
    /// Order modification event.
    OrderModification {
        order_id: OrderId,
        new_qty: Option<Qty>,
        new_price: Option<Price>,
        timestamp: u128,
    },
    /// Market status change (open, close, halt, ...).
    MarketStatus { status: MarketStatusType, timestamp: u128, message: Option<String> },
    /// Best bid/offer update.
    BestBidOffer {
        best_bid: Option<Price>,
        best_ask: Option<Price>,
        bid_qty: Option<Qty>,
        ask_qty: Option<Qty>,
        timestamp: u128,
    },
}

impl MarketEvent {
    /// The event's timestamp (spec level).
    pub open spec fn spec_timestamp(&self) -> u128 {
        match self {
            MarketEvent::Trade { timestamp, .. } => *timestamp,
            MarketEvent::Quote { timestamp, .. } => *timestamp,
            MarketEvent::OrderPlacement(order) => order.ts,
            MarketEvent::OrderCancellation { timestamp, .. } => *timestamp,
            MarketEvent::OrderModification { timestamp, .. } => *timestamp,
            MarketEvent::MarketStatus { timestamp, .. } => *timestamp,
            MarketEvent::BestBidOffer { timestamp, .. } => *timestamp,
        }
    }

    /// Whether the event affects the order book (spec level).
    pub open spec fn spec_affects_book(&self) -> bool {
        match self {
            MarketEvent::OrderPlacement(_) => true,
            MarketEvent::OrderCancellation { .. } => true,
            MarketEvent::OrderModification { .. } => true,
            MarketEvent::Trade { .. } => true,
            _ => false,
        }
    }

    /// The validation verdict (spec level): `None` means valid; `Some` names
    /// the rule broken. Trades need positive price and quantity; quotes and
    /// best-bid-offer updates need bid below ask and positive quantities;
    /// placements need positive quantity and (for limits) price; and
    /// modifications must not carry zero values.
    pub open spec fn spec_validation_issue(&self) -> Option<ValidationIssue> {
        match self {
            MarketEvent::Trade { price, qty, .. } => if *price == 0 {
                Some(ValidationIssue::ZeroTradePrice)
            } else if *qty == 0 {
                Some(ValidationIssue::ZeroTradeQty)
            } else {
                None
            },
            MarketEvent::Quote { bid, ask, bid_qty, ask_qty, .. } => if bid is Some && ask is Some
                && bid->0 >= ask->0 {
                Some(ValidationIssue::BidNotBelowAsk)
            } else if bid_qty == Some(0u64) {
                Some(ValidationIssue::ZeroBidQty)
            } else if ask_qty == Some(0u64) {
                Some(ValidationIssue::ZeroAskQty)
            } else {
                None
            },
            MarketEvent::OrderPlacement(order) => if order.qty == 0 {
                Some(ValidationIssue::ZeroOrderQty)
            } else if order.spec_price() == Some(0u64) {
                Some(ValidationIssue::ZeroOrderPrice)
            } else {
                None
            },
            MarketEvent::OrderModification { new_qty, new_price, .. } => if new_qty == Some(0u64) {
                Some(ValidationIssue::ZeroModifyQty)
            } else if new_price == Some(0u64) {
                Some(ValidationIssue::ZeroModifyPrice)
            } else {
                None
            },
            MarketEvent::BestBidOffer { best_bid, best_ask, bid_qty, ask_qty, .. } => if best_bid
                is Some && best_ask is Some && best_bid->0 >= best_ask->0 {
                Some(ValidationIssue::BidNotBelowAsk)
            } else if bid_qty == Some(0u64) {
                Some(ValidationIssue::ZeroBidQty)
            } else if ask_qty == Some(0u64) {
                Some(ValidationIssue::ZeroAskQty)
            } else {
                None
            },
            _ => None,
        }
    }

    /// Get the timestamp of this event.
    pub fn timestamp(&self) -> (r: u128)
        ensures
            r == self.spec_timestamp(),
    {
        match self {
            MarketEvent::Trade { timestamp, .. } => *timestamp,
            MarketEvent::Quote { timestamp, .. } => *timestamp,
            MarketEvent::OrderPlacement(order) => order.ts,
            MarketEvent::OrderCancellation { timestamp, .. } => *timestamp,
            MarketEvent::OrderModification { timestamp, .. } => *timestamp,
            MarketEvent::MarketStatus { timestamp, .. } => *timestamp,
            MarketEvent::BestBidOffer { timestamp, .. } => *timestamp,
        }
    }

    /// Check if this event affects the order book.
    pub fn affects_book(&self) -> (r: bool)
        ensures
            r == self.spec_affects_book(),
    {
        match self {
            MarketEvent::OrderPlacement(_) => true,
            MarketEvent::OrderCancellation { .. } => true,
            MarketEvent::OrderModification { .. } => true,
            MarketEvent::Trade { .. } => true,
            _ => false,
        }
    }

    /// Check if this is an observational market data event.
    pub fn is_market_data(&self) -> (r: bool)
        ensures
            r == (self matches MarketEvent::Quote { .. } || self matches MarketEvent::BestBidOffer {
                ..
            } || self matches MarketEvent::MarketStatus { .. }),
    {
        match self {
            MarketEvent::Quote { .. } => true,
            MarketEvent::BestBidOffer { .. } => true,
            MarketEvent::MarketStatus { .. } => true,
            _ => false,
        }
    }

    /// Validate the event data: `Ok` exactly when no rule is broken, and a
    /// `ValidationError` naming the broken rule otherwise.
    pub fn validate(&self) -> (r: DataResult<()>)
        ensures
            r is Ok <==> self.spec_validation_issue() is None,
            self.spec_validation_issue() is Some ==> (r matches Err(e) && e matches
                DataError::ValidationError { .. }),
    {
        match self.validation_issue() {
            Option::None => Ok(()),
            Option::Some(issue) => Err(DataError::ValidationError {
                message: issue.message().to_owned(),
            }),
        }
    }

    /// The broken validation rule, if any.
    pub fn validation_issue(&self) -> (r: Option<ValidationIssue>)
        ensures
            r == self.spec_validation_issue(),
    {
        match self {
            MarketEvent::Trade { price, qty, .. } => {
                if *price == 0 {
                    Some(ValidationIssue::ZeroTradePrice)
                } else if *qty == 0 {
                    Some(ValidationIssue::ZeroTradeQty)
                } else {
                    None
                }
            },
            MarketEvent::Quote { bid, ask, bid_qty, ask_qty, .. } => {
                let crossed = match (bid, ask) {
                    (Option::Some(b), Option::Some(a)) => *b >= *a,
                    _ => false,
                };
                if crossed {
                    Some(ValidationIssue::BidNotBelowAsk)
                } else if *bid_qty == Some(0u64) {
                    Some(ValidationIssue::ZeroBidQty)
                } else if *ask_qty == Some(0u64) {
                    Some(ValidationIssue::ZeroAskQty)
                } else {
                    None
                }
            },
            MarketEvent::OrderPlacement(order) => {
                if order.qty == 0 {
                    Some(ValidationIssue::ZeroOrderQty)
                } else if order.price() == Some(0u64) {
                    Some(ValidationIssue::ZeroOrderPrice)
                } else {
                    None
                }
            },
            MarketEvent::OrderModification { new_qty, new_price, .. } => {
                if *new_qty == Some(0u64) {
                    Some(ValidationIssue::ZeroModifyQty)
                } else if *new_price == Some(0u64) {
                    Some(ValidationIssue::ZeroModifyPrice)
                } else {
                    None
                }
            },
            MarketEvent::BestBidOffer { best_bid, best_ask, bid_qty, ask_qty, .. } => {
                let crossed = match (best_bid, best_ask) {
                    (Option::Some(b), Option::Some(a)) => *b >= *a,
                    _ => false,
                };
                if crossed {
                    Some(ValidationIssue::BidNotBelowAsk)
                } else if *bid_qty == Some(0u64) {
                    Some(ValidationIssue::ZeroBidQty)
                } else if *ask_qty == Some(0u64) {
                    Some(ValidationIssue::ZeroAskQty)
                } else {
                    None
                }
            },
            _ => None,
        }
    }
}

/// The validation rules an event can break.
#[derive(Debug, Clone, Copy, PartialEq, Eq, Structural)]
pub enum ValidationIssue {
    ZeroTradePrice,
    ZeroTradeQty,
    BidNotBelowAsk,
    ZeroBidQty,
    ZeroAskQty,
    ZeroOrderQty,
    ZeroOrderPrice,
    ZeroModifyQty,
    ZeroModifyPrice,
}

impl ValidationIssue {
    /// A human-readable description of the broken rule.
    pub fn message(&self) -> (r: &'static str)
        ensures
            r@.len() > 0,
    {
        let s = match self {
            ValidationIssue::ZeroTradePrice => "Trade price cannot be zero",
            ValidationIssue::ZeroTradeQty => "Trade quantity cannot be zero",
            ValidationIssue::BidNotBelowAsk => "Bid price must be less than ask price",
            ValidationIssue::ZeroBidQty => "Bid quantity cannot be zero",
            ValidationIssue::ZeroAskQty => "Ask quantity cannot be zero",
            ValidationIssue::ZeroOrderQty => "Order quantity cannot be zero",
            ValidationIssue::ZeroOrderPrice => "Order price cannot be zero",
            ValidationIssue::ZeroModifyQty => "Modified quantity cannot be zero",
            ValidationIssue::ZeroModifyPrice => "Modified price cannot be zero",
        };
        proof {
            reveal_strlit("Trade price cannot be zero");
            reveal_strlit("Trade quantity cannot be zero");
            reveal_strlit("Bid price must be less than ask price");
            reveal_strlit("Bid quantity cannot be zero");
            reveal_strlit("Ask quantity cannot be zero");
            reveal_strlit("Order quantity cannot be zero");
            reveal_strlit("Order price cannot be zero");
            reveal_strlit("Modified quantity cannot be zero");
            reveal_strlit("Modified price cannot be zero");
        }
        s
    }
}

/// Metadata about a data source.
#[derive(Debug, Clone, PartialEq)]
pub struct DataSourceMetadata {
    /// Name or identifier of the data source.
    pub name: String,
    /// Type of data source (CSV, JSON, binary, ...).
    pub source_type: String,
    /// Total number of events if known.
    pub event_count: Option<usize>,
    /// Time range covered by the data.
    pub time_range: Option<(u128, u128)>,
    /// File size in bytes if applicable.
    pub file_size: Option<u64>,
    /// Additional key/value properties.
    pub properties: Vec<(String, String)>,
}

impl DataSourceMetadata {
    /// Create new metadata with a name and a source type.
    pub fn new(name: &str, source_type: &str) -> (r: DataSourceMetadata)
        ensures
            r.name@ == name@,
            r.source_type@ == source_type@,
            r.event_count is None,
            r.time_range is None,
            r.file_size is None,
            r.properties@.len() == 0,
    {
        DataSourceMetadata {
            name: name.to_owned(),
            source_type: source_type.to_owned(),
            event_count: None,
            time_range: None,
            file_size: None,
            properties: Vec::new(),
        }
    }

    /// Add a key/value property.
    pub fn with_property(self, key: &str, value: &str) -> (r: DataSourceMetadata)
        ensures
            r.properties@.len() == self.properties@.len() + 1,
            r.name == self.name,
            r.source_type == self.source_type,
            r.event_count == self.event_count,
            r.time_range == self.time_range,
            r.file_size == self.file_size,
    {
        let mut s = self;
        s.properties.push((key.to_owned(), value.to_owned()));
        s
    }

    /// Set the event count.
    pub fn with_event_count(self, count: usize) -> (r: DataSourceMetadata)
        ensures
            r == (DataSourceMetadata { event_count: Some(count), ..self }),
    {
        DataSourceMetadata { event_count: Some(count), ..self }
    }

    /// Set the time range.
    pub fn with_time_range(self, start: u128, end: u128) -> (r: DataSourceMetadata)
        ensures
            r == (DataSourceMetadata { time_range: Some((start, end)), ..self }),
    {
        DataSourceMetadata { time_range: Some((start, end)), ..self }
    }

    /// Set the file size.
    pub fn with_file_size(self, size: u64) -> (r: DataSourceMetadata)
        ensures
            r == (DataSourceMetadata { file_size: Some(size), ..self }),
    {
        DataSourceMetadata { file_size: Some(size), ..self }
    }
}

/// Whether `b` is an ASCII decimal digit.
pub open spec fn is_digit_byte(b: u8) -> bool {
    48 <= b <= 57
}

/// All bytes are ASCII decimal digits.
pub open spec fn all_digits(s: Seq<u8>) -> bool {
    forall|i: int| 0 <= i < s.len() ==> is_digit_byte(#[trigger] s[i])
}

/// The number denoted by a digit string, read left to right.
pub open spec fn digits_val(s: Seq<u8>) -> int
    decreases s.len(),
{
    if s.len() == 0 {
        0
    } else {
        digits_val(s.drop_last()) * 10 + (s.last() - 48)
    }
}

/// Digit values are nonnegative and grow with extra digits.
proof fn lemma_digits_val_nonneg(s: Seq<u8>)
    requires
        all_digits(s),
    ensures
        digits_val(s) >= 0,
    decreases s.len(),
{
    if s.len() > 0 {
        assert(all_digits(s.drop_last())) by {
            assert(forall|i: int| 0 <= i < s.len() - 1 ==> (#[trigger] s.drop_last()[i]) == s[i]);
        }
        lemma_digits_val_nonneg(s.drop_last());
    }
}

/// A prefix of a digit string denotes at most the whole string's value.
proof fn lemma_digits_val_prefix_le(s: Seq<u8>, i: int)
    requires
        all_digits(s),
        0 <= i <= s.len(),
    ensures
        digits_val(s.subrange(0, i)) <= digits_val(s),
    decreases s.len() - i,
{
    if i < s.len() {
        lemma_digits_val_prefix_le(s, i + 1);
        let p = s.subrange(0, i + 1);
        assert(p.drop_last() =~= s.subrange(0, i));
        assert(all_digits(s.subrange(0, i))) by {
            assert(forall|k: int| 0 <= k < i ==> (#[trigger] s.subrange(0, i)[k]) == s[k]);
        }
        lemma_digits_val_nonneg(s.subrange(0, i));
        assert(digits_val(p) == digits_val(s.subrange(0, i)) * 10 + (p.last() - 48));
    } else {
        assert(s.subrange(0, i) =~= s);
    }
}

/// The `u64` denoted by an ASCII digit string, when well formed and in range.
pub open spec fn spec_u64_of(s: Seq<u8>) -> Option<u64> {
    if s.len() > 0 && all_digits(s) && digits_val(s) <= u64::MAX {
        Some(digits_val(s) as u64)
    } else {
        None
    }
}

/// The `u128` denoted by an ASCII digit string, when well formed and in range.
pub open spec fn spec_u128_of(s: Seq<u8>) -> Option<u128> {
    if s.len() > 0 && all_digits(s) && digits_val(s) <= u128::MAX {
        Some(digits_val(s) as u128)
    } else {
        None
    }
}

/// Parse an unsigned 64-bit integer from ASCII digits: succeeds exactly on
/// nonempty all-digit strings whose value fits.
pub fn parse_u64_bytes(b: &[u8]) -> (r: Option<u64>)
    ensures
        r == spec_u64_of(b@),
{
    if b.len() == 0 {
        return None;
    }
    let mut acc: u64 = 0;
    let mut i: usize = 0;
    while i < b.len()
        invariant
            0 <= i <= b@.len(),
            all_digits(b@.subrange(0, i as int)),
            acc == digits_val(b@.subrange(0, i as int)),
        decreases b@.len() - i,
    {
        let c = b[i];
        if c < 48 || c > 57 {
            proof {
                assert(!is_digit_byte(b@[i as int]));
            }
            return None;
        }
        let d = (c - 48) as u64;
        if acc > u64::MAX / 10 || (acc == u64::MAX / 10 && d > u64::MAX % 10) {
            proof {
                assert(acc * 10 + d > u64::MAX) by (nonlinear_arith)
                    requires
                        acc == u64::MAX / 10 && d > u64::MAX % 10 || acc > u64::MAX / 10,
                        d >= 0,
                        acc >= 0,
                ;
                if b@.len() > 0 && all_digits(b@) {
                    let p = b@.subrange(0, i as int + 1);
                    assert(p.drop_last() =~= b@.subrange(0, i as int));
                    assert(digits_val(p) == acc * 10 + d);
                    lemma_digits_val_prefix_le(b@, i as int + 1);
                }
            }
            return None;
        }
        proof {
            let p = b@.subrange(0, i as int + 1);
            assert(p.drop_last() =~= b@.subrange(0, i as int));
            assert(p.last() == b@[i as int]);
        }
        acc = acc * 10 + d;
        i = i + 1;
    }
    proof {
        assert(b@.subrange(0, b@.len() as int) =~= b@);
    }
    Some(acc)
}

/// Parse an unsigned 128-bit integer (timestamps) from ASCII digits.
pub fn parse_u128_bytes(b: &[u8]) -> (r: Option<u128>)
    ensures
        r == spec_u128_of(b@),
{
    if b.len() == 0 {
        return None;
    }
    let mut acc: u128 = 0;
    let mut i: usize = 0;
    while i < b.len()
        invariant
            0 <= i <= b@.len(),
            all_digits(b@.subrange(0, i as int)),
            acc == digits_val(b@.subrange(0, i as int)),
        decreases b@.len() - i,
    {
        let c = b[i];
        if c < 48 || c > 57 {
            proof {
                assert(!is_digit_byte(b@[i as int]));
            }
            return None;
        }
        let d = (c - 48) as u128;
        if acc > u128::MAX / 10 || (acc == u128::MAX / 10 && d > u128::MAX % 10) {
            proof {
                assert(acc * 10 + d > u128::MAX) by (nonlinear_arith)
                    requires
                        acc == u128::MAX / 10 && d > u128::MAX % 10 || acc > u128::MAX / 10,
                        d >= 0,
                        acc >= 0,
                ;
                if b@.len() > 0 && all_digits(b@) {
                    let p = b@.subrange(0, i as int + 1);
                    assert(p.drop_last() =~= b@.subrange(0, i as int));
                    assert(digits_val(p) == acc * 10 + d);
                    lemma_digits_val_prefix_le(b@, i as int + 1);
                }
            }
            return None;
        }
        proof {
            let p = b@.subrange(0, i as int + 1);
            assert(p.drop_last() =~= b@.subrange(0, i as int));
            assert(p.last() == b@[i as int]);
        }
        acc = acc * 10 + d;
        i = i + 1;
    }
    proof {
        assert(b@.subrange(0, b@.len() as int) =~= b@);
    }
    Some(acc)
}

/// The first index of byte `x` in `s` (or `s.len()` when absent).
pub open spec fn find_byte(s: Seq<u8>, x: u8) -> int
    decreases s.len(),
{
    if s.len() == 0 {
        0
    } else if s[0] == x {
        0
    } else {
        1 + find_byte(s.drop_first(), x)
    }
}

/// Facts about the first occurrence of a byte.
proof fn lemma_find_byte(s: Seq<u8>, x: u8)
    ensures
        0 <= find_byte(s, x) <= s.len(),
        forall|i: int| 0 <= i < find_byte(s, x) ==> s[i] != x,
        find_byte(s, x) < s.len() ==> s[find_byte(s, x)] == x,
    decreases s.len(),
{
    if s.len() > 0 && s[0] != x {
        lemma_find_byte(s.drop_first(), x);
        assert forall|i: int| 0 <= i < find_byte(s, x) implies s[i] != x by {
            if i > 0 {
                assert(s.drop_first()[i - 1] == s[i]);
            }
        }
        assert(find_byte(s, x) < s.len() ==> s.drop_first()[find_byte(s, x) - 1] == s[find_byte(
            s,
            x,
        )]);
    }
}

/// The integer-part digits of a price string (before any decimal point).
pub open spec fn int_part(s: Seq<u8>) -> Seq<u8> {
    s.subrange(0, find_byte(s, 46))
}

/// The fractional digits of a price string (after the decimal point).
pub open spec fn frac_part(s: Seq<u8>) -> Seq<u8> {
    if find_byte(s, 46) < s.len() {
        s.subrange(find_byte(s, 46) + 1, s.len() as int)
    } else {
        Seq::<u8>::empty()
    }
}

/// The first four fractional digits scaled to ticks (missing digits are 0).
pub open spec fn frac4_val(frac: Seq<u8>) -> int {
    (if frac.len() > 0 {
        (frac[0] - 48) * 1000
    } else {
        0
    }) + (if frac.len() > 1 {
        (frac[1] - 48) * 100
    } else {
        0
    }) + (if frac.len() > 2 {
        (frac[2] - 48) * 10
    } else {
        0
    }) + (if frac.len() > 3 {
        (frac[3] - 48) as int
    } else {
        0
    })
}

/// Whether digits beyond the fourth round the tick value up under
/// round-half-to-even.
pub open spec fn rounds_up_half_even(frac: Seq<u8>) -> bool {
    if frac.len() <= 4 {
        false
    } else if frac[4] > 53 {
        true
    } else if frac[4] < 53 {
        false
    } else if exists|i: int| 5 <= i < frac.len() && frac[i] != 48 {
        true
    } else {
        frac4_val(frac) % 2 == 1
    }
}

/// The tick value of a decimal price string: integer part scaled by 10^4
/// plus the fractional ticks, rounded half-to-even beyond four digits.
pub open spec fn price_val(s: Seq<u8>) -> int {
    digits_val(int_part(s)) * 10000 + frac4_val(frac_part(s)) + (if rounds_up_half_even(
        frac_part(s),
    ) {
        1int
    } else {
        0int
    })
}

/// A well-formed decimal price string: a nonempty integer part, all digits.
pub open spec fn valid_price_str(s: Seq<u8>) -> bool {
    &&& int_part(s).len() > 0
    &&& all_digits(int_part(s))
    &&& all_digits(frac_part(s))
}

/// The tick price denoted by a decimal string, when well formed and in range.
pub open spec fn spec_price_of(s: Seq<u8>) -> Option<Price> {
    if valid_price_str(s) && price_val(s) <= u64::MAX {
        Some(price_val(s) as u64)
    } else {
        None
    }
}

/// Parse a decimal price into ticks (10^-4 units), rounding half-to-even
/// beyond four fractional digits. Succeeds exactly on well-formed decimal
/// strings whose tick value fits in `u64`.
pub fn parse_price_bytes(b: &[u8]) -> (r: Option<Price>)
    ensures
        r == spec_price_of(b@),
{
    proof {
        lemma_find_byte(b@, 46);
    }
    // locate the decimal point
    let mut dot: usize = 0;
    while dot < b.len() && b[dot] != 46
        invariant
            0 <= dot <= b@.len(),
            forall|i: int| 0 <= i < dot ==> b@[i] != 46,
        decreases b@.len() - dot,
    {
        dot = dot + 1;
    }
    proof {
        assert(dot == find_byte(b@, 46)) by {
            let f = find_byte(b@, 46);
            if f < dot {
                assert(b@[f] != 46);
            }
            if dot < f {
                assert(b@[dot as int] != 46);
            }
        }
    }
    // integer part
    let mut ipv: u64 = 0;
    let mut i: usize = 0;
    if dot == 0 {
        proof {
            assert(int_part(b@).len() == 0);
        }
        return None;
    }
    while i < dot
        invariant
            0 < dot <= b@.len(),
            dot == find_byte(b@, 46),
            0 <= i <= dot,
            all_digits(b@.subrange(0, i as int)),
            ipv == digits_val(b@.subrange(0, i as int)),
        decreases dot - i,
    {
        let c = b[i];
        if c < 48 || c > 57 {
            proof {
                assert(int_part(b@)[i as int] == b@[i as int]);
                assert(!is_digit_byte(int_part(b@)[i as int]));
            }
            return None;
        }
        let d = (c - 48) as u64;
        if ipv > u64::MAX / 10 || (ipv == u64::MAX / 10 && d > u64::MAX % 10) {
            proof {
                assert(ipv * 10 + d > u64::MAX) by (nonlinear_arith)
                    requires
                        ipv == u64::MAX / 10 && d > u64::MAX % 10 || ipv > u64::MAX / 10,
                        d >= 0,
                        ipv >= 0,
                ;
                let ip = int_part(b@);
                if valid_price_str(b@) {
                    let p = ip.subrange(0, i as int + 1);
                    assert(p.drop_last() =~= ip.subrange(0, i as int));
                    assert(ip.subrange(0, i as int) =~= b@.subrange(0, i as int));
                    assert(p.last() == b@[i as int]);
                    assert(digits_val(p) == ipv * 10 + d);
                    lemma_digits_val_prefix_le(ip, i as int + 1);
                    assert(frac4_val(frac_part(b@)) >= 0);
                }
            }
            return None;
        }
        proof {
            let p = b@.subrange(0, i as int + 1);
            assert(p.drop_last() =~= b@.subrange(0, i as int));
            assert(p.last() == b@[i as int]);
        }
        ipv = ipv * 10 + d;
        i = i + 1;
    }
    proof {
        assert(b@.subrange(0, dot as int) =~= int_part(b@));
    }
    // fractional digits: verify they are digits and take the first four
    let mut f4: u64 = 0;
    let mut scale: u64 = 1000;
    let mut j: usize = if dot < b.len() {
        dot + 1
    } else {
        dot
    };
    let ghost frac = frac_part(b@);
    while j < b.len()
        invariant
            0 < dot < j || (dot == b@.len() && j == dot),
            dot == find_byte(b@, 46),
            dot < b@.len() ==> dot + 1 <= j <= b@.len(),
            frac == frac_part(b@),
            dot == b@.len() ==> f4 == 0,
            dot < b@.len() ==> all_digits(frac.subrange(0, j - dot - 1)),
            dot < b@.len() ==> f4 == frac4_val(frac.subrange(0, j - dot - 1)),
            dot < b@.len() ==> scale == (if j - dot - 1 >= 3 {
                1int
            } else if j - dot - 1 == 2 {
                10int
            } else if j - dot - 1 == 1 {
                100int
            } else {
                1000int
            }),
        decreases b@.len() - j,
    {
        let c = b[j];
        if c < 48 || c > 57 {
            proof {
                assert(frac[j - dot - 1] == b@[j as int]);
                assert(!is_digit_byte(frac[j - dot - 1]));
            }
            return None;
        }
        proof {
            let k = j - dot - 1;
            let p = frac.subrange(0, k + 1);
            assert(forall|t: int| 0 <= t <= k ==> (#[trigger] p[t]) == frac[t]);
            assert(frac.subrange(0, k)
                =~= p.subrange(0, k));
        }
        if j - dot - 1 < 4 {
            f4 = f4 + (c - 48) as u64 * scale;
            if j - dot - 1 < 3 {
                scale = scale / 10;
            } else {
                scale = 1;
            }
        }
        j = j + 1;
    }
    proof {
        if dot < b@.len() {
            assert(frac.subrange(0, frac.len() as int) =~= frac);
        }
    }
    // rounding of digits beyond the fourth, half to even
    let mut round_up = false;
    if dot < b.len() && b.len() - dot - 1 > 4 {
        let d5 = b[dot + 5];
        proof {
            assert(frac[4] == b@[dot + 5]);
        }
        if d5 > 53 {
            round_up = true;
        } else if d5 == 53 {
            let mut k: usize = dot + 6;
            let mut nonzero = false;
            while k < b.len()
                invariant
                    dot + 6 <= k <= b@.len(),
                    dot == find_byte(b@, 46),
                    dot + 5 < b@.len(),
                    frac == frac_part(b@),
                    nonzero == exists|i: int| 5 <= i < k - dot - 1 && frac[i] != 48,
                decreases b@.len() - k,
            {
                if b[k] != 48 {
                    proof {
                        assert(frac[k - dot - 1] == b@[k as int]);
                    }
                    nonzero = true;
                }
                proof {
                    if !nonzero {
                        assert forall|i: int| 5 <= i < k + 1 - dot - 1 implies frac[i] == 48 by {
                            assert(frac[i] == b@[dot + 1 + i]);
                            if i < k - dot - 1 {
                            }
                        }
                    }
                }
                k = k + 1;
            }
            if nonzero {
                round_up = true;
            } else {
                round_up = f4 % 2 == 1;
            }
        }
        proof {
            assert(round_up == rounds_up_half_even(frac));
        }
    }
    proof {
        if !(dot < b@.len() && b@.len() - dot - 1 > 4) {
            assert(frac.len() <= 4);
            assert(!rounds_up_half_even(frac));
        }
    }
    // assemble, watching the u64 bound
    let total: u128 = (ipv as u128) * 10000 + (f4 as u128) + (if round_up {
        1u128
    } else {
        0u128
    });
    proof {
        assert(total == price_val(b@));
    }
    if total > u64::MAX as u128 {
        return None;
    }
    Some(total as u64)
}

/// ASCII lowercase of one byte.
pub open spec fn to_lower_byte(x: u8) -> u8 {
    if 65 <= x <= 90 {
        (x + 32) as u8
    } else {
        x
    }
}

/// ASCII lowercase of a byte string.
pub open spec fn lower_seq(s: Seq<u8>) -> Seq<u8> {
    s.map_values(|x: u8| to_lower_byte(x))
}

/// Whether `b` lowercased equals the pattern.
fn matches_lower(b: &[u8], pat: &Vec<u8>) -> (r: bool)
    ensures
        r == (lower_seq(b@) == pat@),
{
    if b.len() != pat.len() {
        proof {
            assert(lower_seq(b@).len() == b@.len());
        }
        return false;
    }
    let mut i: usize = 0;
    while i < b.len()
        invariant
            b@.len() == pat@.len(),
            0 <= i <= b@.len(),
            forall|j: int| 0 <= j < i ==> to_lower_byte(b@[j]) == pat@[j],
        decreases b@.len() - i,
    {
        let c = b[i];
        let lc = if 65 <= c && c <= 90 {
            c + 32
        } else {
            c
        };
        if lc != pat[i] {
            proof {
                assert(lower_seq(b@)[i as int] == to_lower_byte(b@[i as int]));
            }
            return false;
        }
        i = i + 1;
    }
    proof {
        assert(lower_seq(b@) =~= pat@);
    }
    true
}

/// The side denoted by a field: `buy`/`b` or `sell`/`s`, case-insensitive.
pub open spec fn spec_side_of(s: Seq<u8>) -> Option<Side> {
    if lower_seq(s) == seq![98u8, 117u8, 121u8] || lower_seq(s) == seq![98u8] {
        Some(Side::Buy)
    } else if lower_seq(s) == seq![115u8, 101u8, 108u8, 108u8] || lower_seq(s) == seq![115u8] {
        Some(Side::Sell)
    } else {
        None
    }
}

/// Parse an order side, case-insensitively.
pub fn parse_side_bytes(b: &[u8]) -> (r: Option<Side>)
    ensures
        r == spec_side_of(b@),
{
    let buy: Vec<u8> = vec![98u8, 117u8, 121u8];
    let b1: Vec<u8> = vec![98u8];
    let sell: Vec<u8> = vec![115u8, 101u8, 108u8, 108u8];
    let s1: Vec<u8> = vec![115u8];
    proof {
        assert(buy@ =~= seq![98u8, 117u8, 121u8]);
        assert(b1@ =~= seq![98u8]);
        assert(sell@ =~= seq![115u8, 101u8, 108u8, 108u8]);
        assert(s1@ =~= seq![115u8]);
    }
    if matches_lower(b, &buy) || matches_lower(b, &b1) {
        Some(Side::Buy)
    } else if matches_lower(b, &sell) || matches_lower(b, &s1) {
        Some(Side::Sell)
    } else {
        None
    }
}

/// An optional field: empty, `null` or `NULL` mean absent.
pub open spec fn spec_absent_field(s: Seq<u8>) -> bool {
    s.len() == 0 || s == seq![110u8, 117u8, 108u8, 108u8] || s == seq![
        78u8,
        85u8,
        76u8,
        76u8,
    ]
}

/// Whether the field denotes an absent optional value.
fn is_absent_field(b: &[u8]) -> (r: bool)
    ensures
        r == spec_absent_field(b@),
{
    if b.len() == 0 {
        return true;
    }
    if b.len() != 4 {
        proof {
            assert(b@.len() != 4);
            assert(seq![110u8, 117u8, 108u8, 108u8].len() == 4);
            assert(seq![78u8, 85u8, 76u8, 76u8].len() == 4);
        }
        return false;
    }
    let lower = b[0] == 110 && b[1] == 117 && b[2] == 108 && b[3] == 108;
    let upper = b[0] == 78 && b[1] == 85 && b[2] == 76 && b[3] == 76;
    proof {
        if lower {
            assert(b@ =~= seq![110u8, 117u8, 108u8, 108u8]);
        }
        if upper {
            assert(b@ =~= seq![78u8, 85u8, 76u8, 76u8]);
        }
        if !lower && !upper {
            assert(b@ != seq![110u8, 117u8, 108u8, 108u8]) by {
                if b@ == seq![110u8, 117u8, 108u8, 108u8] {
                    assert(b@[0] == 110 && b@[1] == 117 && b@[2] == 108 && b@[3] == 108);
                }
            }
            assert(b@ != seq![78u8, 85u8, 76u8, 76u8]) by {
                if b@ == seq![78u8, 85u8, 76u8, 76u8] {
                    assert(b@[0] == 78 && b@[1] == 85 && b@[2] == 76 && b@[3] == 76);
                }
            }
        }
    }
    lower || upper
}

/// An optional tick price: absent markers yield `None` inside `Some`.
pub open spec fn spec_opt_price_of(s: Seq<u8>) -> Option<Option<Price>> {
    if spec_absent_field(s) {
        Some(None)
    } else {
        match spec_price_of(s) {
            Some(p) => Some(Some(p)),
            None => None,
        }
    }
}

/// An optional quantity: absent markers yield `None` inside `Some`.
pub open spec fn spec_opt_qty_of(s: Seq<u8>) -> Option<Option<Qty>> {
    if spec_absent_field(s) {
        Some(None)
    } else {
        match spec_u64_of(s) {
            Some(q) => Some(Some(q)),
            None => None,
        }
    }
}

/// Parse an optional price field.
pub fn parse_opt_price_bytes(b: &[u8]) -> (r: Option<Option<Price>>)
    ensures
        r == spec_opt_price_of(b@),
{
    if is_absent_field(b) {
        Some(None)
    } else {
        match parse_price_bytes(b) {
            Option::Some(p) => Some(Some(p)),
            Option::None => None,
        }
    }
}

/// Parse an optional quantity field.
pub fn parse_opt_qty_bytes(b: &[u8]) -> (r: Option<Option<Qty>>)
    ensures
        r == spec_opt_qty_of(b@),
{
    if is_absent_field(b) {
        Some(None)
    } else {
        match parse_u64_bytes(b) {
            Option::Some(q) => Some(Some(q)),
            Option::None => None,
        }
    }
}

/// The market status denoted by a field, case-insensitive.
pub open spec fn spec_status_of(s: Seq<u8>) -> Option<MarketStatusType> {
    let l = lower_seq(s);
    if l == seq![111u8, 112u8, 101u8, 110u8] {
        Some(MarketStatusType::Open)
    } else if l == seq![99u8, 108u8, 111u8, 115u8, 101u8, 100u8] {
        Some(MarketStatusType::Closed)
    } else if l == seq![104u8, 97u8, 108u8, 116u8, 101u8, 100u8] {
        Some(MarketStatusType::Halted)
    } else if l == seq![112u8, 114u8, 101u8, 109u8, 97u8, 114u8, 107u8, 101u8, 116u8] {
        Some(MarketStatusType::PreMarket)
    } else if l == seq![97u8, 102u8, 116u8, 101u8, 114u8, 104u8, 111u8, 117u8, 114u8, 115u8] {
        Some(MarketStatusType::AfterHours)
    } else if l == seq![97u8, 117u8, 99u8, 116u8, 105u8, 111u8, 110u8] {
        Some(MarketStatusType::Auction)
    } else {
        None
    }
}

/// Parse a market status, case-insensitively.
pub fn parse_status_bytes(b: &[u8]) -> (r: Option<MarketStatusType>)
    ensures
        r == spec_status_of(b@),
{
    let open: Vec<u8> = vec![111u8, 112u8, 101u8, 110u8];
    let closed: Vec<u8> = vec![99u8, 108u8, 111u8, 115u8, 101u8, 100u8];
    let halted: Vec<u8> = vec![104u8, 97u8, 108u8, 116u8, 101u8, 100u8];
    let premarket: Vec<u8> = vec![112u8, 114u8, 101u8, 109u8, 97u8, 114u8, 107u8, 101u8, 116u8];
    let afterhours: Vec<u8> = vec![
        97u8,
        102u8,
        116u8,
        101u8,
        114u8,
        104u8,
        111u8,
        117u8,
        114u8,
        115u8,
    ];
    let auction: Vec<u8> = vec![97u8, 117u8, 99u8, 116u8, 105u8, 111u8, 110u8];
    proof {
        assert(open@ =~= seq![111u8, 112u8, 101u8, 110u8]);
        assert(closed@ =~= seq![99u8, 108u8, 111u8, 115u8, 101u8, 100u8]);
        assert(halted@ =~= seq![104u8, 97u8, 108u8, 116u8, 101u8, 100u8]);
        assert(premarket@ =~= seq![112u8, 114u8, 101u8, 109u8, 97u8, 114u8, 107u8, 101u8, 116u8]);
        assert(afterhours@ =~= seq![
            97u8,
            102u8,
            116u8,
            101u8,
            114u8,
            104u8,
            111u8,
            117u8,
            114u8,
            115u8,
        ]);
        assert(auction@ =~= seq![97u8, 117u8, 99u8, 116u8, 105u8, 111u8, 110u8]);
    }
    if matches_lower(b, &open) {
        Some(MarketStatusType::Open)
    } else if matches_lower(b, &closed) {
        Some(MarketStatusType::Closed)
    } else if matches_lower(b, &halted) {
        Some(MarketStatusType::Halted)
    } else if matches_lower(b, &premarket) {
        Some(MarketStatusType::PreMarket)
    } else if matches_lower(b, &afterhours) {
        Some(MarketStatusType::AfterHours)
    } else if matches_lower(b, &auction) {
        Some(MarketStatusType::Auction)
    } else {
        None
    }
}

/// The numeric core of a market event: everything the engine and the
/// validation rules read, with descriptive text fields left out.
#[derive(Debug, Clone, Copy, PartialEq, Eq, Structural)]
pub enum EventKernel {
    Trade { price: Price, qty: Qty, side: Side, timestamp: u128 },
    Quote {
        bid: Option<Price>,
        ask: Option<Price>,
        bid_qty: Option<Qty>,
        ask_qty: Option<Qty>,
        timestamp: u128,
    },
    Placement { order: Order },
    Cancellation { order_id: OrderId, timestamp: u128 },
    Modification {
        order_id: OrderId,
        new_qty: Option<Qty>,
        new_price: Option<Price>,
        timestamp: u128,
    },
    Status { status: MarketStatusType, timestamp: u128 },
    BestBidOffer {
        best_bid: Option<Price>,
        best_ask: Option<Price>,
        bid_qty: Option<Qty>,
        ask_qty: Option<Qty>,
        timestamp: u128,
    },
}

/// The kernel of an event: its numeric fields.
pub open spec fn kernel_of(e: MarketEvent) -> EventKernel {
    match e {
        MarketEvent::Trade { price, qty, side, timestamp, .. } => EventKernel::Trade {
            price,
            qty,
            side,
            timestamp,
        },
        MarketEvent::Quote { bid, ask, bid_qty, ask_qty, timestamp } => EventKernel::Quote {
            bid,
            ask,
            bid_qty,
            ask_qty,
            timestamp,
        },
        MarketEvent::OrderPlacement(order) => EventKernel::Placement { order },
        MarketEvent::OrderCancellation { order_id, timestamp, .. } => EventKernel::Cancellation {
            order_id,
            timestamp,
        },
        MarketEvent::OrderModification {
            order_id,
            new_qty,
            new_price,
            timestamp,
        } => EventKernel::Modification { order_id, new_qty, new_price, timestamp },
        MarketEvent::MarketStatus { status, timestamp, .. } => EventKernel::Status {
            status,
            timestamp,
        },
        MarketEvent::BestBidOffer {
            best_bid,
            best_ask,
            bid_qty,
            ask_qty,
            timestamp,
        } => EventKernel::BestBidOffer { best_bid, best_ask, bid_qty, ask_qty, timestamp },
    }
}

/// The kernel's timestamp.
pub open spec fn kernel_ts(k: EventKernel) -> u128 {
    match k {
        EventKernel::Trade { timestamp, .. } => timestamp,
        EventKernel::Quote { timestamp, .. } => timestamp,
        EventKernel::Placement { order } => order.ts,
        EventKernel::Cancellation { timestamp, .. } => timestamp,
        EventKernel::Modification { timestamp, .. } => timestamp,
        EventKernel::Status { timestamp, .. } => timestamp,
        EventKernel::BestBidOffer { timestamp, .. } => timestamp,
    }
}

/// The validation verdict over a kernel (the rules read numeric fields only).
pub open spec fn kernel_validation_issue(k: EventKernel) -> Option<ValidationIssue> {
    match k {
        EventKernel::Trade { price, qty, .. } => if price == 0 {
            Some(ValidationIssue::ZeroTradePrice)
        } else if qty == 0 {
            Some(ValidationIssue::ZeroTradeQty)
        } else {
            None
        },
        EventKernel::Quote { bid, ask, bid_qty, ask_qty, .. } => if bid is Some && ask is Some
            && bid->0 >= ask->0 {
            Some(ValidationIssue::BidNotBelowAsk)
        } else if bid_qty == Some(0u64) {
            Some(ValidationIssue::ZeroBidQty)
        } else if ask_qty == Some(0u64) {
            Some(ValidationIssue::ZeroAskQty)
        } else {
            None
        },
        EventKernel::Placement { order } => if order.qty == 0 {
            Some(ValidationIssue::ZeroOrderQty)
        } else if order.spec_price() == Some(0u64) {
            Some(ValidationIssue::ZeroOrderPrice)
        } else {
            None
        },
        EventKernel::Modification { new_qty, new_price, .. } => if new_qty == Some(0u64) {
            Some(ValidationIssue::ZeroModifyQty)
        } else if new_price == Some(0u64) {
            Some(ValidationIssue::ZeroModifyPrice)
        } else {
            None
        },
        EventKernel::BestBidOffer { best_bid, best_ask, bid_qty, ask_qty, .. } => if best_bid
            is Some && best_ask is Some && best_bid->0 >= best_ask->0 {
            Some(ValidationIssue::BidNotBelowAsk)
        } else if bid_qty == Some(0u64) {
            Some(ValidationIssue::ZeroBidQty)
        } else if ask_qty == Some(0u64) {
            Some(ValidationIssue::ZeroAskQty)
        } else {
            None
        },
        _ => None,
    }
}

/// An event's validation verdict is a function of its kernel.
pub proof fn lemma_validation_by_kernel(e: MarketEvent)
    ensures
        e.spec_validation_issue() == kernel_validation_issue(kernel_of(e)),
{
}

/// The kernel a CSV record denotes, if well formed. Field 1 is a
/// case-insensitive type tag; the remaining fields depend on the type.
pub open spec fn spec_parse_kernel(fields: Seq<Seq<u8>>) -> Option<EventKernel> {
    if fields.len() < 3 {
        None
    } else {
        let tag = lower_seq(fields[0]);
        if tag == seq![116u8, 114u8, 97u8, 100u8, 101u8] {
            // trade: ts, price, qty, side, [trade_id]
            if fields.len() < 5 {
                None
            } else {
                match (spec_u128_of(fields[1]), spec_price_of(fields[2]), spec_u64_of(fields[3]), spec_side_of(fields[4])) {
                    (Some(ts), Some(price), Some(qty), Some(side)) => Some(EventKernel::Trade {
                        price,
                        qty,
                        side,
                        timestamp: ts,
                    }),
                    _ => None,
                }
            }
        } else if tag == seq![113u8, 117u8, 111u8, 116u8, 101u8] {
            // quote: ts, bid, ask, bid_qty, ask_qty
            if fields.len() < 6 {
                None
            } else {
                match (spec_u128_of(fields[1]), spec_opt_price_of(fields[2]), spec_opt_price_of(fields[3]), spec_opt_qty_of(fields[4]), spec_opt_qty_of(fields[5])) {
                    (Some(ts), Some(bid), Some(ask), Some(bq), Some(aq)) => Some(
                        EventKernel::Quote { bid, ask, bid_qty: bq, ask_qty: aq, timestamp: ts },
                    ),
                    _ => None,
                }
            }
        } else if tag == seq![111u8, 114u8, 100u8, 101u8, 114u8] {
            // order: ts, order_id, side, qty, price, order_type
            if fields.len() < 7 {
                None
            } else {
                match (spec_u128_of(fields[1]), spec_u64_of(fields[2]), spec_side_of(fields[3]), spec_u64_of(fields[4])) {
                    (Some(ts), Some(oid), Some(side), Some(qty)) => {
                        let ot = lower_seq(fields[6]);
                        if ot == seq![108u8, 105u8, 109u8, 105u8, 116u8] {
                            match spec_price_of(fields[5]) {
                                Some(price) => Some(EventKernel::Placement {
                                    order: Order {
                                        id: oid,
                                        side,
                                        qty,
                                        order_type: crate::types::OrderType::Limit { price },
                                        ts,
                                    },
                                }),
                                None => None,
                            }
                        } else if ot == seq![109u8, 97u8, 114u8, 107u8, 101u8, 116u8] {
                            Some(EventKernel::Placement {
                                order: Order {
                                    id: oid,
                                    side,
                                    qty,
                                    order_type: crate::types::OrderType::Market,
                                    ts,
                                },
                            })
                        } else {
                            None
                        }
                    },
                    _ => None,
                }
            }
        } else if tag == seq![99u8, 97u8, 110u8, 99u8, 101u8, 108u8] {
            // cancel: ts, order_id, [reason]
            match (spec_u128_of(fields[1]), spec_u64_of(fields[2])) {
                (Some(ts), Some(oid)) => Some(EventKernel::Cancellation {
                    order_id: oid,
                    timestamp: ts,
                }),
                _ => None,
            }
        } else if tag == seq![109u8, 111u8, 100u8, 105u8, 102u8, 121u8] {
            // modify: ts, order_id, new_qty, new_price
            if fields.len() < 5 {
                None
            } else {
                match (spec_u128_of(fields[1]), spec_u64_of(fields[2]), spec_opt_qty_of(fields[3]), spec_opt_price_of(fields[4])) {
                    (Some(ts), Some(oid), Some(nq), Some(np)) => Some(EventKernel::Modification {
                        order_id: oid,
                        new_qty: nq,
                        new_price: np,
                        timestamp: ts,
                    }),
                    _ => None,
                }
            }
        } else if tag == seq![115u8, 116u8, 97u8, 116u8, 117u8, 115u8] {
            // status: ts, status, [message]
            match (spec_u128_of(fields[1]), spec_status_of(fields[2])) {
                (Some(ts), Some(st)) => Some(EventKernel::Status { status: st, timestamp: ts }),
                _ => None,
            }
        } else if tag == seq![98u8, 98u8, 111u8] {
            // bbo: ts, best_bid, best_ask, bid_qty, ask_qty
            if fields.len() < 6 {
                None
            } else {
                match (spec_u128_of(fields[1]), spec_opt_price_of(fields[2]), spec_opt_price_of(fields[3]), spec_opt_qty_of(fields[4]), spec_opt_qty_of(fields[5])) {
                    (Some(ts), Some(bb), Some(ba), Some(bq), Some(aq)) => Some(
                        EventKernel::BestBidOffer {
                            best_bid: bb,
                            best_ask: ba,
                            bid_qty: bq,
                            ask_qty: aq,
                            timestamp: ts,
                        },
                    ),
                    _ => None,
                }
            }
        } else {
            None
        }
    }
}

/// The characters `String::from_utf8_lossy` decodes from the given bytes.
pub uninterp spec fn utf8_of(bytes: Seq<u8>) -> Seq<char>;

/// Relies on String::from_utf8_lossy: the decoded text depends on the bytes
/// alone, and empty input decodes to the empty string.
#[verifier::external_body]
fn bytes_to_string(b: &[u8]) -> (r: String)
    ensures
        r@ == utf8_of(b@),
        b@.len() == 0 ==> r@.len() == 0,
{
    String::from_utf8_lossy(b).into_owned()
}

/// Parse one CSV record (already split into fields) into a market event.
/// Succeeds exactly when the fields denote a well-formed event; a failure is
/// a `ParseError` naming the file and line.
pub fn parse_record_fields(fields: &Vec<Vec<u8>>, file: &str, line: usize) -> (r: DataResult<
    MarketEvent,
>)
    ensures
        r is Ok <==> spec_parse_kernel(fields.deep_view()) is Some,
        r matches Ok(e) ==> kernel_of(e) == spec_parse_kernel(fields.deep_view())->0,
        r matches Err(e) ==> (e matches DataError::ParseError { file: f, line: l, .. } && f@
            == file@ && l == line),
{
    proof {
        assert(fields.deep_view().len() == fields@.len());
        assert(forall|i: int|
            0 <= i < fields@.len() ==> (#[trigger] fields.deep_view()[i]) == fields@[i]@);
    }
    if fields.len() < 3 {
        return Err(DataError::parse_error(file, line, "Insufficient columns in CSV record"));
    }
    let tag_trade: Vec<u8> = vec![116u8, 114u8, 97u8, 100u8, 101u8];
    let tag_quote: Vec<u8> = vec![113u8, 117u8, 111u8, 116u8, 101u8];
    let tag_order: Vec<u8> = vec![111u8, 114u8, 100u8, 101u8, 114u8];
    let tag_cancel: Vec<u8> = vec![99u8, 97u8, 110u8, 99u8, 101u8, 108u8];
    let tag_modify: Vec<u8> = vec![109u8, 111u8, 100u8, 105u8, 102u8, 121u8];
    let tag_status: Vec<u8> = vec![115u8, 116u8, 97u8, 116u8, 117u8, 115u8];
    let tag_bbo: Vec<u8> = vec![98u8, 98u8, 111u8];
    proof {
        assert(tag_trade@ =~= seq![116u8, 114u8, 97u8, 100u8, 101u8]);
        assert(tag_quote@ =~= seq![113u8, 117u8, 111u8, 116u8, 101u8]);
        assert(tag_order@ =~= seq![111u8, 114u8, 100u8, 101u8, 114u8]);
        assert(tag_cancel@ =~= seq![99u8, 97u8, 110u8, 99u8, 101u8, 108u8]);
        assert(tag_modify@ =~= seq![109u8, 111u8, 100u8, 105u8, 102u8, 121u8]);
        assert(tag_status@ =~= seq![115u8, 116u8, 97u8, 116u8, 117u8, 115u8]);
        assert(tag_bbo@ =~= seq![98u8, 98u8, 111u8]);
    }
    let t0 = fields[0].as_slice();
    if matches_lower(t0, &tag_trade) {
        if fields.len() < 5 {
            return Err(DataError::parse_error(file, line, "Trade record requires type, timestamp, price, qty and side"));
        }
        let ts = parse_u128_bytes(fields[1].as_slice());
        let price = parse_price_bytes(fields[2].as_slice());
        let qty = parse_u64_bytes(fields[3].as_slice());
        let side = parse_side_bytes(fields[4].as_slice());
        match (ts, price, qty, side) {
            (Option::Some(ts), Option::Some(price), Option::Some(qty), Option::Some(side)) => {
                let trade_id = if fields.len() > 5 && fields[5].len() > 0 {
                    Some(bytes_to_string(fields[5].as_slice()))
                } else {
                    None
                };
                Ok(MarketEvent::Trade { price, qty, side, timestamp: ts, trade_id })
            },
            _ => Err(DataError::parse_error(file, line, "Malformed trade record")),
        }
    } else if matches_lower(t0, &tag_quote) {
        if fields.len() < 6 {
            return Err(DataError::parse_error(file, line, "Quote record requires type, timestamp, bid, ask, bid_qty and ask_qty"));
        }
        let ts = parse_u128_bytes(fields[1].as_slice());
        let bid = parse_opt_price_bytes(fields[2].as_slice());
        let ask = parse_opt_price_bytes(fields[3].as_slice());
        let bq = parse_opt_qty_bytes(fields[4].as_slice());
        let aq = parse_opt_qty_bytes(fields[5].as_slice());
        match (ts, bid, ask, bq, aq) {
            (
                Option::Some(ts),
                Option::Some(bid),
                Option::Some(ask),
                Option::Some(bq),
                Option::Some(aq),
            ) => Ok(MarketEvent::Quote { bid, ask, bid_qty: bq, ask_qty: aq, timestamp: ts }),
            _ => Err(DataError::parse_error(file, line, "Malformed quote record")),
        }
    } else if matches_lower(t0, &tag_order) {
        if fields.len() < 7 {
            return Err(DataError::parse_error(file, line, "Order record requires type, timestamp, order_id, side, qty, price and order_type"));
        }
        let ts = parse_u128_bytes(fields[1].as_slice());
        let oid = parse_u64_bytes(fields[2].as_slice());
        let side = parse_side_bytes(fields[3].as_slice());
        let qty = parse_u64_bytes(fields[4].as_slice());
        match (ts, oid, side, qty) {
            (Option::Some(ts), Option::Some(oid), Option::Some(side), Option::Some(qty)) => {
                let ot_limit: Vec<u8> = vec![108u8, 105u8, 109u8, 105u8, 116u8];
                let ot_market: Vec<u8> = vec![109u8, 97u8, 114u8, 107u8, 101u8, 116u8];
                proof {
                    assert(ot_limit@ =~= seq![108u8, 105u8, 109u8, 105u8, 116u8]);
                    assert(ot_market@ =~= seq![109u8, 97u8, 114u8, 107u8, 101u8, 116u8]);
                }
                if matches_lower(fields[6].as_slice(), &ot_limit) {
                    match parse_price_bytes(fields[5].as_slice()) {
                        Option::Some(price) => Ok(MarketEvent::OrderPlacement(
                            Order::new_limit(oid, side, qty, price, ts),
                        )),
                        Option::None => Err(DataError::parse_error(file, line, "Malformed order price")),
                    }
                } else if matches_lower(fields[6].as_slice(), &ot_market) {
                    Ok(MarketEvent::OrderPlacement(Order::new_market(oid, side, qty, ts)))
                } else {
                    Err(DataError::parse_error(file, line, "Unknown order type"))
                }
            },
            _ => Err(DataError::parse_error(file, line, "Malformed order record")),
        }
    } else if matches_lower(t0, &tag_cancel) {
        let ts = parse_u128_bytes(fields[1].as_slice());
        let oid = parse_u64_bytes(fields[2].as_slice());
        match (ts, oid) {
            (Option::Some(ts), Option::Some(oid)) => {
                let reason = if fields.len() > 3 && fields[3].len() > 0 {
                    Some(bytes_to_string(fields[3].as_slice()))
                } else {
                    None
                };
                Ok(MarketEvent::OrderCancellation { order_id: oid, timestamp: ts, reason })
            },
            _ => Err(DataError::parse_error(file, line, "Malformed cancel record")),
        }
    } else if matches_lower(t0, &tag_modify) {
        if fields.len() < 5 {
            return Err(DataError::parse_error(file, line, "Modify record requires type, timestamp, order_id, new_qty and new_price"));
        }
        let ts = parse_u128_bytes(fields[1].as_slice());
        let oid = parse_u64_bytes(fields[2].as_slice());
        let nq = parse_opt_qty_bytes(fields[3].as_slice());
        let np = parse_opt_price_bytes(fields[4].as_slice());
        match (ts, oid, nq, np) {
            (Option::Some(ts), Option::Some(oid), Option::Some(nq), Option::Some(np)) => Ok(
                MarketEvent::OrderModification {
                    order_id: oid,
                    new_qty: nq,
                    new_price: np,
                    timestamp: ts,
                },
            ),
            _ => Err(DataError::parse_error(file, line, "Malformed modify record")),
        }
    } else if matches_lower(t0, &tag_status) {
        let ts = parse_u128_bytes(fields[1].as_slice());
        let st = parse_status_bytes(fields[2].as_slice());
        match (ts, st) {
            (Option::Some(ts), Option::Some(st)) => {
                let message = if fields.len() > 3 && fields[3].len() > 0 {
                    Some(bytes_to_string(fields[3].as_slice()))
                } else {
                    None
                };
                Ok(MarketEvent::MarketStatus { status: st, timestamp: ts, message })
            },
            _ => Err(DataError::parse_error(file, line, "Malformed status record")),
        }
    } else if matches_lower(t0, &tag_bbo) {
        if fields.len() < 6 {
            return Err(DataError::parse_error(file, line, "BBO record requires type, timestamp, best_bid, best_ask, bid_qty and ask_qty"));
        }
        let ts = parse_u128_bytes(fields[1].as_slice());
        let bb = parse_opt_price_bytes(fields[2].as_slice());
        let ba = parse_opt_price_bytes(fields[3].as_slice());
        let bq = parse_opt_qty_bytes(fields[4].as_slice());
        let aq = parse_opt_qty_bytes(fields[5].as_slice());
        match (ts, bb, ba, bq, aq) {
            (
                Option::Some(ts),
                Option::Some(bb),
                Option::Some(ba),
                Option::Some(bq),
                Option::Some(aq),
            ) => Ok(MarketEvent::BestBidOffer {
                best_bid: bb,
                best_ask: ba,
                bid_qty: bq,
                ask_qty: aq,
                timestamp: ts,
            }),
            _ => Err(DataError::parse_error(file, line, "Malformed best bid/offer record")),
        }
    } else {
        Err(DataError::parse_error(file, line, "Unknown event type"))
    }
}

/// The fields a CSV record line splits into (quoting and escapes included),
/// or nothing when the line is not a CSV record.
pub uninterp spec fn csv_fields(line: Seq<char>) -> Option<Seq<Seq<u8>>>;

/// Relies on csv::ReaderBuilder / ByteRecord: splitting one record line into
/// its fields depends on the line's characters alone.
#[verifier::external_body]
fn split_csv_record(line: &str) -> (r: Option<Vec<Vec<u8>>>)
    ensures
        r.deep_view() == csv_fields(line@),
{
    let mut reader = csv::ReaderBuilder::new()
        .has_headers(false)
        .flexible(true)
        .from_reader(line.as_bytes());
    let mut record = csv::ByteRecord::new();
    match reader.read_byte_record(&mut record) {
        Ok(true) => Some(record.iter().map(|f| f.to_vec()).collect()),
        _ => None,
    }
}

/// The outcome of pulling one record from a replay source.
#[derive(Debug, Clone, Copy, PartialEq, Eq, Structural)]
pub enum SourceOutcome {
    /// No records left.
    End,
    /// A well-formed, valid event (its numeric kernel).
    Event(EventKernel),
    /// The record failed to parse.
    ParseFailed,
    /// The record parsed but broke a validation rule.
    InvalidRecord,
}

/// A CSV replay source over in-memory record lines (the header row already
/// stripped). Playback pacing is computed, not slept: the embedder reads
/// `inter_event_wait_ns` and waits itself.
#[derive(Debug, Clone)]
pub struct CsvDataSource {
    /// The data records, one CSV line each.
    pub records: Vec<String>,
    /// The file name, for error reporting and metadata.
    pub file_name: String,
    /// Index of the next record to read.
    pub pos: usize,
    /// Playback speed, in thousandths (1000 = real time).
    pub speed_permille: u64,
    /// Whether playback is paused (no waiting between events).
    pub paused: bool,
    /// Timestamp of the last event returned.
    pub last_timestamp: Option<u128>,
    /// Timestamp of the most recent successfully read event.
    pub current_position: Option<u128>,
    /// Whether the end of the data was reached.
    pub finished: bool,
}

/// The line number of record `p` for error reporting (the header is line 1).
pub open spec fn spec_record_line(p: usize) -> usize {
    if p + 2 <= usize::MAX {
        (p + 2) as usize
    } else {
        p
    }
}

/// The spec transition of `next_event`: read the record at the cursor,
/// advance the cursor, and classify the outcome; track the last and current
/// timestamps on success; report the end when no records remain.
pub open spec fn spec_source_next(s: CsvDataSource) -> (CsvDataSource, SourceOutcome) {
    if s.finished || s.pos >= s.records.len() {
        (CsvDataSource { finished: true, ..s }, SourceOutcome::End)
    } else {
        let advanced = CsvDataSource { pos: (s.pos + 1) as usize, ..s };
        match csv_fields(s.records[s.pos as int]@) {
            Option::None => (advanced, SourceOutcome::ParseFailed),
            Option::Some(fields) => match spec_parse_kernel(fields) {
                Option::None => (advanced, SourceOutcome::ParseFailed),
                Option::Some(k) => if kernel_validation_issue(k) is Some {
                    (advanced, SourceOutcome::InvalidRecord)
                } else {
                    (
                        CsvDataSource {
                            pos: (s.pos + 1) as usize,
                            last_timestamp: Some(kernel_ts(k)),
                            current_position: Some(kernel_ts(k)),
                            ..s
                        },
                        SourceOutcome::Event(k),
                    )
                },
            },
        }
    }
}

/// Whether record `i` parses to a valid event with timestamp at least `t`.
pub open spec fn spec_record_reaches(records: Seq<String>, i: int, t: u128) -> bool {
    match csv_fields(records[i]@) {
        Option::None => false,
        Option::Some(fields) => match spec_parse_kernel(fields) {
            Option::None => false,
            Option::Some(k) => kernel_ts(k) >= t,
        },
    }
}

impl CsvDataSource {
    /// The records still to be replayed start at `pos`.
    pub open spec fn spec_pos(&self) -> usize {
        self.pos
    }

    /// Build a replay source from in-memory record lines (header stripped).
    pub fn from_records(records: Vec<String>, file_name: &str) -> (r: CsvDataSource)
        ensures
            r.records == records,
            r.file_name@ == file_name@,
            r.pos == 0,
            r.speed_permille == 1000u64,
            !r.paused,
            r.last_timestamp is None,
            r.current_position is None,
            !r.finished,
    {
        CsvDataSource {
            records,
            file_name: file_name.to_owned(),
            pos: 0,
            speed_permille: 1000,
            paused: false,
            last_timestamp: None,
            current_position: None,
            finished: false,
        }
    }

    /// Pull the next event: parse and validate the record at the cursor.
    /// A malformed record fails with a `ParseError` naming the file and
    /// line; an invalid one fails with a `ValidationError`; in both cases the
    /// current position is unchanged and the next call reads the next record.
    pub fn next_event(&mut self) -> (r: DataResult<Option<MarketEvent>>)
        ensures
            *final(self) == spec_source_next(*old(self)).0,
            ({
                let outcome = spec_source_next(*old(self)).1;
                match r {
                    Ok(oe) => match oe {
                        Option::None => outcome == SourceOutcome::End,
                        Option::Some(e) => outcome == SourceOutcome::Event(kernel_of(e))
                            && kernel_validation_issue(kernel_of(e)) is None,
                    },
                    Err(e) => (outcome == SourceOutcome::ParseFailed && (e matches
                        DataError::ParseError { file, line, .. } && file@
                        == old(self).file_name@ && line == spec_record_line(old(self).pos)))
                        || (outcome == SourceOutcome::InvalidRecord && e matches
                        DataError::ValidationError { .. }),
                }
            }),
    {
        if self.finished || self.pos >= self.records.len() {
            self.finished = true;
            return Ok(None);
        }
        let line_no = if self.pos <= usize::MAX - 2 {
            self.pos + 2
        } else {
            self.pos
        };
        let ghost pre = *self;
        let fields_opt = split_csv_record(self.records[self.pos].as_str());
        let fields = match fields_opt {
            Option::Some(f) => f,
            Option::None => {
                self.pos = self.pos + 1;
                return Err(DataError::parse_error(
                    self.file_name.as_str(),
                    line_no,
                    "Record is not a CSV line",
                ));
            },
        };
        let file_name = self.file_name.clone();
        let parsed = parse_record_fields(&fields, file_name.as_str(), line_no);
        let event = match parsed {
            Ok(e) => e,
            Err(e) => {
                self.pos = self.pos + 1;
                return Err(e);
            },
        };
        proof {
            lemma_validation_by_kernel(event);
        }
        match event.validation_issue() {
            Option::Some(issue) => {
                self.pos = self.pos + 1;
                Err(DataError::ValidationError { message: issue.message().to_owned() })
            },
            Option::None => {
                let ts = event.timestamp();
                self.pos = self.pos + 1;
                self.last_timestamp = Some(ts);
                self.current_position = Some(ts);
                Ok(Some(event))
            },
        }
    }

    /// Position the cursor so the next event returned has timestamp at least
    /// `t`, rescanning from the start; fails with `SeekFailed` when `t`
    /// exceeds all timestamps, leaving the cursor at the end.
    pub fn seek_to_time(&mut self, t: u128) -> (r: DataResult<()>)
        ensures
            r is Ok <==> (exists|i: int|
                0 <= i < old(self).records@.len() && spec_record_reaches(
                    old(self).records@,
                    i,
                    t,
                )),
            final(self).records == old(self).records,
            final(self).file_name == old(self).file_name,
            final(self).speed_permille == old(self).speed_permille,
            final(self).paused == old(self).paused,
            final(self).last_timestamp is None,
            !final(self).finished,
            r is Ok ==> ({
                &&& 0 <= final(self).spec_pos() < old(self).records@.len()
                &&& spec_record_reaches(old(self).records@, final(self).spec_pos() as int, t)
                &&& (forall|j: int|
                    0 <= j < final(self).spec_pos() ==> !spec_record_reaches(
                        old(self).records@,
                        j,
                        t,
                    ))
            }),
            r is Err ==> (r->Err_0 matches DataError::SeekFailed { .. } && final(self).spec_pos()
                == old(self).records@.len()),
    {
        self.pos = 0;
        self.finished = false;
        self.last_timestamp = None;
        let mut i: usize = 0;
        while i < self.records.len()
            invariant
                0 <= i <= self.records@.len(),
                forall|j: int| 0 <= j < i ==> !spec_record_reaches(self.records@, j, t),
                self.records == old(self).records,
                self.file_name == old(self).file_name,
                self.speed_permille == old(self).speed_permille,
                self.paused == old(self).paused,
                self.last_timestamp is None,
                !self.finished,
            decreases self.records@.len() - i,
        {
            let fields_opt = split_csv_record(self.records[i].as_str());
            match fields_opt {
                Option::Some(fields) => {
                    let file_name = self.file_name.clone();
                    match parse_record_fields(&fields, file_name.as_str(), i) {
                        Ok(e) => {
                            let ts = e.timestamp();
                            proof {
                                assert(kernel_ts(kernel_of(e)) == e.spec_timestamp());
                            }
                            if ts >= t {
                                self.pos = i;
                                self.current_position = Some(ts);
                                proof {
                                    assert(csv_fields(self.records@[i as int]@) == Some(
                                        fields.deep_view(),
                                    ));
                                    assert(spec_record_reaches(self.records@, i as int, t));
                                }
                                return Ok(());
                            }
                            proof {
                                assert(!spec_record_reaches(self.records@, i as int, t));
                            }
                        },
                        Err(_) => {
                            proof {
                                assert(!spec_record_reaches(self.records@, i as int, t));
                            }
                        },
                    }
                },
                Option::None => {
                    proof {
                        assert(!spec_record_reaches(self.records@, i as int, t));
                    }
                },
            }
            i = i + 1;
        }
        self.pos = self.records.len();
        Err(DataError::seek_failed("timestamp beyond the end of the data"))
    }

    /// Set the playback speed in thousandths of real time (1000 = real
    /// time); zero is rejected with a validation error.
    pub fn set_playback_speed(&mut self, speed_permille: u64) -> (r: DataResult<()>)
        ensures
            speed_permille == 0 ==> (r matches Err(e) && e matches DataError::ValidationError {
                ..
            } && *final(self) == *old(self)),
            speed_permille > 0 ==> r is Ok && *final(self) == (CsvDataSource {
                speed_permille,
                ..*old(self)
            }),
    {
        if speed_permille == 0 {
            return Err(DataError::validation("Playback speed must be positive"));
        }
        self.speed_permille = speed_permille;
        Ok(())
    }

    /// Pause or resume playback; while paused no waiting is requested.
    pub fn set_paused(&mut self, paused: bool) -> (r: DataResult<()>)
        ensures
            r is Ok,
            *final(self) == (CsvDataSource { paused, ..*old(self) }),
    {
        self.paused = paused;
        Ok(())
    }

    /// Whether the end of the data was reached.
    pub fn is_finished(&self) -> (r: bool)
        ensures
            r == self.finished,
    {
        self.finished
    }

    /// Whether playback is paused.
    pub fn is_paused(&self) -> (r: bool)
        ensures
            r == self.paused,
    {
        self.paused
    }

    /// The timestamp of the most recent successfully read event.
    pub fn current_position(&self) -> (r: Option<u128>)
        ensures
            r == self.current_position,
    {
        self.current_position
    }

    /// Re-open from the start: clear the cursor, the end flag and the
    /// timestamps.
    pub fn reset(&mut self) -> (r: DataResult<()>)
        ensures
            r is Ok,
            *final(self) == (CsvDataSource {
                pos: 0,
                finished: false,
                last_timestamp: None,
                current_position: None,
                ..*old(self)
            }),
    {
        self.pos = 0;
        self.finished = false;
        self.last_timestamp = None;
        self.current_position = None;
        Ok(())
    }

    /// Metadata about this source.
    pub fn metadata(&self) -> (r: DataSourceMetadata)
        ensures
            r.name@ == self.file_name@,
            r.event_count == Some(self.records@.len() as usize),
    {
        let m = DataSourceMetadata::new(self.file_name.as_str(), "CSV");
        m.with_event_count(self.records.len())
    }

    /// The wall-clock wait before delivering an event stamped `event_ts`,
    /// honouring the original inter-arrival interval scaled by the playback
    /// speed; zero while paused or for the first event.
    pub fn inter_event_wait_ns(&self, event_ts: u128) -> (r: u128)
        requires
            self.speed_permille > 0,
        ensures
            r == spec_wait_ns(
                self.paused,
                self.last_timestamp,
                event_ts,
                self.speed_permille,
            ),
    {
        if self.paused {
            return 0;
        }
        match self.last_timestamp {
            Option::None => 0,
            Option::Some(prev) => {
                if event_ts <= prev {
                    0
                } else {
                    let diff = event_ts - prev;
                    let scaled = if diff > u128::MAX / 1000 {
                        u128::MAX
                    } else {
                        diff * 1000
                    };
                    scaled / (self.speed_permille as u128)
                }
            },
        }
    }
}

/// The playback wait for an event: the inter-arrival gap scaled by the speed
/// (in thousandths), clamped at the `u128` range; zero while paused, for the
/// first event, or when time runs backwards.
pub open spec fn spec_wait_ns(
    paused: bool,
    last: Option<u128>,
    event_ts: u128,
    speed_permille: u64,
) -> u128 {
    if paused || last is None || event_ts <= last->0 {
        0u128
    } else {
        let diff = event_ts - last->0;
        let scaled: u128 = if diff > u128::MAX / 1000 {
            u128::MAX
        } else {
            (diff * 1000) as u128
        };
        (scaled / (speed_permille as u128)) as u128
    }
}

} // verus!
