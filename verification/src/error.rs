use vstd::prelude::*;

verus! {

/// Reasons for which an operation of the exchange is refused.
#[derive(Clone, Copy, Debug, PartialEq, Eq, Structural)]
pub enum ErrorKind {
    InternalLogicError,
    TokenNotRegistered,
    Slippage,
    WrongActionResult,
    InvalidParams,
    SwapAmountTooLarge,
    PoolNotRegistered,
    PositionDoesNotExist,
    InternalTickNotFound,
    PermissionDenied,
    InsufficientLiquidity,
    AccountNotRegistered,
    SwapAmountTooSmall,
    IllegalFee,
    DepositWouldOverflow,
    TokenDuplicates,
    PayableAPISuspended,
    GuardChangeStateDenied,
    PriceTickOutOfBounds,
    ExactOneSwap,
    DepositSenderMustBeSigner,
    DepositNotHandled,
    UnexpectedRegisterAccount,
    PositionAlreadyExists,
    NotYourPosition,
    NotEnoughTokens,
    InternalDepositMoreThanMax,
    DepositNotAllowed,
    DepositAlreadyHandled,
    ConvOverflow,
    AtLeastOneSwap,
    WithdrawInProgress,
    UserHasPositions,
    TokensStorageNotEmpty,
    LiquidityTooSmall,
    LiquidityTooBig,
    InvalidData,
    IllegalWithdrawAmount,
    NonZeroTokenBalance,
}

/// An error of the exchange: the kind of failure.
#[derive(Clone, Copy, Debug, PartialEq, Eq, Structural)]
pub struct Error {
    pub kind: ErrorKind,
}

pub type Result<T> = core::result::Result<T, Error>;

impl Error {
    /// Wraps an error kind into an error.
    pub fn new(kind: ErrorKind) -> (e: Error)
        ensures
            e.kind == kind,
    {
        Error { kind }
    }
}

impl From<ErrorKind> for Error {
    fn from(kind: ErrorKind) -> (e: Error) {
        Error { kind }
    }
}

impl vstd::std_specs::convert::FromSpecImpl<ErrorKind> for Error {
    open spec fn obeys_from_spec() -> bool {
        true
    }

    open spec fn from_spec(kind: ErrorKind) -> Error {
        Error { kind }
    }
}

} // verus!
