//! The operations that the contracts of the exchange answer to, and the
//! numbers under which they are called.

use vstd::prelude::*;
use crate::id::AlkaneId;

verus! {

/// The operations of a pool.
#[derive(Clone, Debug, PartialEq, Eq)]
pub enum AMMPoolMessage {
    InitPool { alkane_a: AlkaneId, alkane_b: AlkaneId, factory: AlkaneId },
    AddLiquidity,
    Burn,
    /// The low-level swap, which pays out before it checks.
    Swap { amount_0_out: u128, amount_1_out: u128, to: AlkaneId, data: Vec<u128> },
    CollectFees,
    SwapExactTokensForTokens { amount_out_min: u128 },
    SwapTokensForExactTokens { amount_out: u128, amount_in_max: u128 },
    ForwardIncoming,
    GetReserves,
    GetPriceCumulativeLast,
    GetName,
    PoolDetails,
}

/// The operations of a pool of the fee-burning kind.
#[derive(Clone, Copy, Debug, PartialEq, Eq)]
pub enum OylAMMPoolMessage {
    InitPool { alkane_a: AlkaneId, alkane_b: AlkaneId, factory: AlkaneId },
    AddLiquidity,
    Burn,
    Swap { amount_out_predicate: u128 },
    ForwardIncoming,
    GetName,
    PoolDetails,
}

/// The operations of a factory.
#[derive(Clone, Debug, PartialEq, Eq)]
pub enum AMMFactoryMessage {
    InitFactory { pool_factory_id: u128, auth_token_units: u128 },
    CreateNewPool,
    FindExistingPoolId { alkane_a: AlkaneId, alkane_b: AlkaneId },
    GetAllPools,
    GetNumPools,
    SetPoolFactoryId { pool_factory_id: u128 },
    CollectFees { pool_id: AlkaneId },
    AddLiquidity {
        token_a: AlkaneId,
        token_b: AlkaneId,
        amount_a_desired: u128,
        amount_b_desired: u128,
        amount_a_min: u128,
        amount_b_min: u128,
        deadline: u128,
    },
    Burn {
        token_a: AlkaneId,
        token_b: AlkaneId,
        liquidity: u128,
        amount_a_min: u128,
        amount_b_min: u128,
        deadline: u128,
    },
    SwapExactTokensForTokens {
        amount_in: u128,
        path: Vec<AlkaneId>,
        amount_out_min: u128,
        deadline: u128,
    },
    SwapTokensForExactTokens {
        path: Vec<AlkaneId>,
        amount_out: u128,
        amount_in_max: u128,
        deadline: u128,
    },
    SetPoolFee { pool_id: AlkaneId, fee_per_1000: u128 },
    SetDefaultFee { fee_per_1000: u128 },
    GetPoolFee { pool_id: AlkaneId },
}

/// The operations of a factory of the fee-burning kind.
#[derive(Clone, Debug, PartialEq, Eq)]
pub enum OylAMMFactoryMessage {
    InitFactory {
        pool_factory_id: u128,
        auth_token_units: u128,
        path_provider_id: AlkaneId,
        oyl_token_id: AlkaneId,
    },
    CreateNewPool,
    FindExistingPoolId { alkane_a: AlkaneId, alkane_b: AlkaneId },
    GetAllPools,
    GetNumPools,
    GetPathProvider,
    SwapToAndBurnOyl,
    SetPoolFactoryId { pool_factory_id: u128 },
    SetPathProviderId { path_provider_id: AlkaneId },
    SetOylTokenId { oyl_token_id: AlkaneId },
    CollectFees { pool_id: AlkaneId },
    SwapAlongPath { path: Vec<AlkaneId>, amount: u128 },
    SetPoolFee { pool_id: AlkaneId, fee_per_1000: u128 },
    SetDefaultFee { fee_per_1000: u128 },
    GetPoolFee { pool_id: AlkaneId },
}

/// The operations of a path provider.
#[derive(Clone, Debug, PartialEq, Eq)]
pub enum AMMPathProviderMessage {
    InitPathProvider,
    GetOptimalPath { start: AlkaneId, end: AlkaneId },
    SetPath { start: AlkaneId, end: AlkaneId, path: Vec<AlkaneId> },
}

impl AMMPoolMessage {
    /// The number under which the operation is called.
    pub fn opcode(&self) -> (r: u128)
        ensures
            r == match *self {
                AMMPoolMessage::InitPool { .. } => 0u128,
                AMMPoolMessage::AddLiquidity => 1u128,
                AMMPoolMessage::Burn => 2u128,
                AMMPoolMessage::Swap { .. } => 3u128,
                AMMPoolMessage::CollectFees => 10u128,
                AMMPoolMessage::SwapExactTokensForTokens { .. } => 13u128,
                AMMPoolMessage::SwapTokensForExactTokens { .. } => 14u128,
                AMMPoolMessage::ForwardIncoming => 50u128,
                AMMPoolMessage::GetReserves => 97u128,
                AMMPoolMessage::GetPriceCumulativeLast => 98u128,
                AMMPoolMessage::GetName => 99u128,
                AMMPoolMessage::PoolDetails => 999u128,
            },
    {
        match self {
            AMMPoolMessage::InitPool { .. } => 0,
            AMMPoolMessage::AddLiquidity => 1,
            AMMPoolMessage::Burn => 2,
            AMMPoolMessage::Swap { .. } => 3,
            AMMPoolMessage::CollectFees => 10,
            AMMPoolMessage::SwapExactTokensForTokens { .. } => 13,
            AMMPoolMessage::SwapTokensForExactTokens { .. } => 14,
            AMMPoolMessage::ForwardIncoming => 50,
            AMMPoolMessage::GetReserves => 97,
            AMMPoolMessage::GetPriceCumulativeLast => 98,
            AMMPoolMessage::GetName => 99,
            AMMPoolMessage::PoolDetails => 999,
        }
    }
}

impl OylAMMPoolMessage {
    /// The number under which the operation is called.
    pub fn opcode(&self) -> (r: u128)
        ensures
            r == match *self {
                OylAMMPoolMessage::InitPool { .. } => 0u128,
                OylAMMPoolMessage::AddLiquidity => 1u128,
                OylAMMPoolMessage::Burn => 2u128,
                OylAMMPoolMessage::Swap { .. } => 3u128,
                OylAMMPoolMessage::ForwardIncoming => 50u128,
                OylAMMPoolMessage::GetName => 99u128,
                OylAMMPoolMessage::PoolDetails => 999u128,
            },
    {
        match self {
            OylAMMPoolMessage::InitPool { .. } => 0,
            OylAMMPoolMessage::AddLiquidity => 1,
            OylAMMPoolMessage::Burn => 2,
            OylAMMPoolMessage::Swap { .. } => 3,
            OylAMMPoolMessage::ForwardIncoming => 50,
            OylAMMPoolMessage::GetName => 99,
            OylAMMPoolMessage::PoolDetails => 999,
        }
    }
}

impl AMMFactoryMessage {
    /// The number under which the operation is called.
    pub fn opcode(&self) -> (r: u128)
        ensures
            r == match *self {
                AMMFactoryMessage::InitFactory { .. } => 0u128,
                AMMFactoryMessage::CreateNewPool => 1u128,
                AMMFactoryMessage::FindExistingPoolId { .. } => 2u128,
                AMMFactoryMessage::GetAllPools => 3u128,
                AMMFactoryMessage::GetNumPools => 4u128,
                AMMFactoryMessage::SetPoolFactoryId { .. } => 7u128,
                AMMFactoryMessage::CollectFees { .. } => 10u128,
                AMMFactoryMessage::AddLiquidity { .. } => 11u128,
                AMMFactoryMessage::Burn { .. } => 12u128,
                AMMFactoryMessage::SwapExactTokensForTokens { .. } => 13u128,
                AMMFactoryMessage::SwapTokensForExactTokens { .. } => 14u128,
                AMMFactoryMessage::SetPoolFee { .. } => 21u128,
                AMMFactoryMessage::SetDefaultFee { .. } => 22u128,
                AMMFactoryMessage::GetPoolFee { .. } => 23u128,
            },
    {
        match self {
            AMMFactoryMessage::InitFactory { .. } => 0,
            AMMFactoryMessage::CreateNewPool => 1,
            AMMFactoryMessage::FindExistingPoolId { .. } => 2,
            AMMFactoryMessage::GetAllPools => 3,
            AMMFactoryMessage::GetNumPools => 4,
            AMMFactoryMessage::SetPoolFactoryId { .. } => 7,
            AMMFactoryMessage::CollectFees { .. } => 10,
            AMMFactoryMessage::AddLiquidity { .. } => 11,
            AMMFactoryMessage::Burn { .. } => 12,
            AMMFactoryMessage::SwapExactTokensForTokens { .. } => 13,
            AMMFactoryMessage::SwapTokensForExactTokens { .. } => 14,
            AMMFactoryMessage::SetPoolFee { .. } => 21,
            AMMFactoryMessage::SetDefaultFee { .. } => 22,
            AMMFactoryMessage::GetPoolFee { .. } => 23,
        }
    }
}

impl OylAMMFactoryMessage {
    /// The number under which the operation is called.
    pub fn opcode(&self) -> (r: u128)
        ensures
            r == match *self {
                OylAMMFactoryMessage::InitFactory { .. } => 0u128,
                OylAMMFactoryMessage::CreateNewPool => 1u128,
                OylAMMFactoryMessage::FindExistingPoolId { .. } => 2u128,
                OylAMMFactoryMessage::GetAllPools => 3u128,
                OylAMMFactoryMessage::GetNumPools => 4u128,
                OylAMMFactoryMessage::GetPathProvider => 5u128,
                OylAMMFactoryMessage::SwapToAndBurnOyl => 6u128,
                OylAMMFactoryMessage::SetPoolFactoryId { .. } => 7u128,
                OylAMMFactoryMessage::SetPathProviderId { .. } => 8u128,
                OylAMMFactoryMessage::SetOylTokenId { .. } => 9u128,
                OylAMMFactoryMessage::CollectFees { .. } => 10u128,
                OylAMMFactoryMessage::SwapAlongPath { .. } => 20u128,
                OylAMMFactoryMessage::SetPoolFee { .. } => 21u128,
                OylAMMFactoryMessage::SetDefaultFee { .. } => 22u128,
                OylAMMFactoryMessage::GetPoolFee { .. } => 23u128,
            },
    {
        match self {
            OylAMMFactoryMessage::InitFactory { .. } => 0,
            OylAMMFactoryMessage::CreateNewPool => 1,
            OylAMMFactoryMessage::FindExistingPoolId { .. } => 2,
            OylAMMFactoryMessage::GetAllPools => 3,
            OylAMMFactoryMessage::GetNumPools => 4,
            OylAMMFactoryMessage::GetPathProvider => 5,
            OylAMMFactoryMessage::SwapToAndBurnOyl => 6,
            OylAMMFactoryMessage::SetPoolFactoryId { .. } => 7,
            OylAMMFactoryMessage::SetPathProviderId { .. } => 8,
            OylAMMFactoryMessage::SetOylTokenId { .. } => 9,
            OylAMMFactoryMessage::CollectFees { .. } => 10,
            OylAMMFactoryMessage::SwapAlongPath { .. } => 20,
            OylAMMFactoryMessage::SetPoolFee { .. } => 21,
            OylAMMFactoryMessage::SetDefaultFee { .. } => 22,
            OylAMMFactoryMessage::GetPoolFee { .. } => 23,
        }
    }
}

impl AMMPathProviderMessage {
    /// The number under which the operation is called.
    pub fn opcode(&self) -> (r: u128)
        ensures
            r == match *self {
                AMMPathProviderMessage::InitPathProvider => 0u128,
                AMMPathProviderMessage::GetOptimalPath { .. } => 1u128,
                AMMPathProviderMessage::SetPath { .. } => 2u128,
            },
    {
        match self {
            AMMPathProviderMessage::InitPathProvider => 0,
            AMMPathProviderMessage::GetOptimalPath { .. } => 1,
            AMMPathProviderMessage::SetPath { .. } => 2,
        }
    }
}

} // verus!
