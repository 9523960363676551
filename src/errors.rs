//! Failures that the engine and the operations around it report.
use vstd::prelude::*;

verus! {

#[derive(Clone, Copy, Debug, PartialEq, Eq, Structural)]
pub enum ErrorCode {
    ZeroAmount,
    ZeroOutput,
    WrongTick,
    WrongLimit,
    InvalidTickIndex,
    InvalidTickInterval,
    NoMoreTicks,
    TickNotFound,
    PriceLimitReached,
    InvalidTickLiquidity,
    EmptyPositionPokes,
    InvalidPositionLiquidity,
    InvalidPoolLiquidity,
    InvalidPositionIndex,
    PositionWithoutLiquidity,
    Unauthorized,
    InvalidPoolTokenAddresses,
    NegativeTime,
    OracleAlreadyInitialized,
    LimitReached,
    InvalidProtocolFee,
    ArithmeticOverflow,
}

/// The text that describes each failure.
pub open spec fn message_text(e: ErrorCode) -> Seq<char> {
    match e {
        ErrorCode::ZeroAmount => "Amount is zero"@,
        ErrorCode::ZeroOutput => "Output would be zero"@,
        ErrorCode::WrongTick => "Not the expected tick"@,
        ErrorCode::WrongLimit => "Price limit is on the wrong side of price"@,
        ErrorCode::InvalidTickIndex => "Tick index not divisible by spacing or over limit"@,
        ErrorCode::InvalidTickInterval => "Invalid tick_lower or tick_upper"@,
        ErrorCode::NoMoreTicks => "There is no more tick in that direction"@,
        ErrorCode::TickNotFound => "Correct tick not found in context"@,
        ErrorCode::PriceLimitReached => "Price would cross swap limit"@,
        ErrorCode::InvalidTickLiquidity => "Invalid tick liquidity"@,
        ErrorCode::EmptyPositionPokes => "Disable empty position pokes"@,
        ErrorCode::InvalidPositionLiquidity => "Invalid tick liquidity"@,
        ErrorCode::InvalidPoolLiquidity => "Invalid pool liquidity"@,
        ErrorCode::InvalidPositionIndex => "Invalid position index"@,
        ErrorCode::PositionWithoutLiquidity => "Position liquidity would be zero"@,
        ErrorCode::Unauthorized => "You are not admin"@,
        ErrorCode::InvalidPoolTokenAddresses => "Invalid pool token addresses"@,
        ErrorCode::NegativeTime => "Time cannot be negative"@,
        ErrorCode::OracleAlreadyInitialized => "Oracle is already initialized"@,
        ErrorCode::LimitReached => "Absolute price limit was reached"@,
        ErrorCode::InvalidProtocolFee => "Invalid protocol fee"@,
        ErrorCode::ArithmeticOverflow => "Token amount does not fit in 64 bits"@,
    }
}

impl ErrorCode {
    /// The message that describes the failure.
    pub fn message(&self) -> (r: &'static str)
        ensures
            r@ == message_text(*self),
    {
        match self {
            ErrorCode::ZeroAmount => "Amount is zero",
            ErrorCode::ZeroOutput => "Output would be zero",
            ErrorCode::WrongTick => "Not the expected tick",
            ErrorCode::WrongLimit => "Price limit is on the wrong side of price",
            ErrorCode::InvalidTickIndex => "Tick index not divisible by spacing or over limit",
            ErrorCode::InvalidTickInterval => "Invalid tick_lower or tick_upper",
            ErrorCode::NoMoreTicks => "There is no more tick in that direction",
            ErrorCode::TickNotFound => "Correct tick not found in context",
            ErrorCode::PriceLimitReached => "Price would cross swap limit",
            ErrorCode::InvalidTickLiquidity => "Invalid tick liquidity",
            ErrorCode::EmptyPositionPokes => "Disable empty position pokes",
            ErrorCode::InvalidPositionLiquidity => "Invalid tick liquidity",
            ErrorCode::InvalidPoolLiquidity => "Invalid pool liquidity",
            ErrorCode::InvalidPositionIndex => "Invalid position index",
            ErrorCode::PositionWithoutLiquidity => "Position liquidity would be zero",
            ErrorCode::Unauthorized => "You are not admin",
            ErrorCode::InvalidPoolTokenAddresses => "Invalid pool token addresses",
            ErrorCode::NegativeTime => "Time cannot be negative",
            ErrorCode::OracleAlreadyInitialized => "Oracle is already initialized",
            ErrorCode::LimitReached => "Absolute price limit was reached",
            ErrorCode::InvalidProtocolFee => "Invalid protocol fee",
            ErrorCode::ArithmeticOverflow => "Token amount does not fit in 64 bits",
        }
    }
}

} // verus!
