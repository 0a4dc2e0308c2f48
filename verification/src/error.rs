//! The reasons for which an operation of the exchange is rejected.

use vstd::prelude::*;

verus! {

/// Why a call was rejected. A rejected call changes nothing.
#[derive(Clone, Copy, Debug, PartialEq, Eq, Structural)]
pub enum AmmError {
    /// A mutating pool operation was entered while another one was running.
    Locked,
    /// The contract was initialized before.
    AlreadyInitialized,
    /// The deposit holds an asset that the operation does not take.
    UnsupportedAsset,
    /// The deposit holds more entries than the operation takes.
    TooManyAssets,
    /// The deposit does not hold exactly the one entry that the operation takes.
    WrongAssetCount,
    /// An intermediate or final amount does not fit its integer type.
    Overflow,
    /// Adding liquidity would mint no liquidity tokens.
    InsufficientLiquidityMinted,
    /// Burning would pay out nothing of one of the two assets.
    InsufficientLiquidityBurned,
    /// The reserves cannot serve the amount asked for.
    InsufficientLiquidity,
    /// The swap would lower the product of the reserves.
    KNotIncreasing,
    /// The swap yields less than the caller's minimum, or nothing was asked for.
    InsufficientOutputAmount,
    /// The swap needs more input than the caller's maximum.
    ExcessiveInputAmount,
    /// The amount of the first asset is below the caller's minimum.
    InsufficientAAmount,
    /// The amount of the second asset is below the caller's minimum.
    InsufficientBAmount,
    /// The deadline lies before the current height.
    Expired,
    /// A route needs at least two assets.
    PathTooShort,
    /// The trading fee is more than the operation can work with.
    InvalidFee,
    /// The pair is not given in canonical order.
    UnsortedPair,
    /// The two assets of a pool must differ.
    IdenticalTokens,
    /// A seed deposit of a new pool is zero.
    ZeroAmount,
    /// The pair already has a pool.
    PoolAlreadyExists,
    /// The pair has no pool.
    PoolNotFound,
    /// The caller did not spend the auth token that the operation asks for.
    NotOwner,
    /// Only the factory of a pool may call the operation.
    NotFactory,
    /// No low-level swap is in flight.
    NotInSwap,
    /// The contract has not been initialized.
    Uninitialized,
    /// Stored or received bytes do not have the expected shape.
    Malformed,
}

} // verus!
