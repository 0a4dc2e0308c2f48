//! The protocol's token: a token whose whole supply is minted when it is
//! initialized.

use vstd::prelude::*;
use vstd::bytes::{spec_u128_to_le_bytes, u128_to_le_bytes};
use vstd::slice::slice_to_vec;
use vstd::utf8::encode_utf8;
use crate::error::AmmError;
use crate::parcel::{AlkaneTransfer, CallResponse, Context};

verus! {

/// The state of the token.
pub struct OylToken {
    /// Whether the token has been initialized.
    pub initialized: bool,
    /// The name of the token.
    pub name: String,
    /// The symbol of the token.
    pub symbol: String,
    /// The units in existence.
    pub total_supply: u128,
    /// Data that the token carries.
    pub data: Vec<u8>,
}

impl OylToken {
    /// A token that has not been initialized.
    pub fn new() -> (r: Self)
        ensures
            !r.initialized,
            r.total_supply == 0,
            r.name@.len() == 0,
            r.symbol@.len() == 0,
            r.data@.len() == 0,
    {
        OylToken {
            initialized: false,
            name: String::new(),
            symbol: String::new(),
            total_supply: 0,
            data: Vec::new(),
        }
    }

    /// Initializes the token, once: names it and mints `total_supply` units
    /// to the caller, after the assets that came with the call.
    /// `AlreadyInitialized` the second time, `Overflow` where the supply would
    /// not fit in 128 bits. A rejected call changes nothing.
    pub fn initialize(&mut self, context: &Context, total_supply: u128, name: String, symbol: String)
        -> (r: Result<CallResponse, AmmError>)
        ensures
            old(self).initialized ==> r == Err::<CallResponse, AmmError>(
                AmmError::AlreadyInitialized,
            ) && *final(self) == *old(self),
            !old(self).initialized && old(self).total_supply + total_supply > u128::MAX ==> r
                == Err::<CallResponse, AmmError>(AmmError::Overflow) && *final(self) == *old(self),
            !old(self).initialized && old(self).total_supply + total_supply <= u128::MAX ==> {
                &&& r is Ok
                &&& final(self).initialized
                &&& final(self).name == name
                &&& final(self).symbol == symbol
                &&& final(self).total_supply == old(self).total_supply + total_supply
                &&& final(self).data == old(self).data
                &&& r->Ok_0.alkanes@ == context.incoming_alkanes@.push(
                    AlkaneTransfer { id: context.myself, value: total_supply },
                )
                &&& r->Ok_0.data@ == Seq::<u8>::empty()
            },
    {
        if self.initialized {
            return Err(AmmError::AlreadyInitialized);
        }
        let supply = match self.total_supply.checked_add(total_supply) {
            Some(supply) => supply,
            None => {
                return Err(AmmError::Overflow);
            },
        };
        self.initialized = true;
        self.name = name;
        self.symbol = symbol;
        self.total_supply = supply;
        let mut response = CallResponse::forward(&context.incoming_alkanes);
        response.alkanes.push(AlkaneTransfer { id: context.myself, value: total_supply });
        Ok(response)
    }

    /// Hands back the assets that came with the call, with the name of the
    /// token in UTF-8 as data.
    pub fn get_name(&self, context: &Context) -> (r: CallResponse)
        ensures
            r.alkanes@ == context.incoming_alkanes@,
            r.data@ == encode_utf8(self.name@),
    {
        let mut response = CallResponse::forward(&context.incoming_alkanes);
        response.data = slice_to_vec(self.name.as_str().as_bytes());
        response
    }

    /// Hands back the assets that came with the call, with the symbol of
    /// the token in UTF-8 as data.
    pub fn get_symbol(&self, context: &Context) -> (r: CallResponse)
        ensures
            r.alkanes@ == context.incoming_alkanes@,
            r.data@ == encode_utf8(self.symbol@),
    {
        let mut response = CallResponse::forward(&context.incoming_alkanes);
        response.data = slice_to_vec(self.symbol.as_str().as_bytes());
        response
    }

    /// Hands back the assets that came with the call, with the supply as
    /// sixteen little-endian bytes of data.
    pub fn get_total_supply(&self, context: &Context) -> (r: CallResponse)
        ensures
            r.alkanes@ == context.incoming_alkanes@,
            r.data@ == spec_u128_to_le_bytes(self.total_supply),
    {
        let mut response = CallResponse::forward(&context.incoming_alkanes);
        response.data = u128_to_le_bytes(self.total_supply);
        response
    }

    /// Hands back the assets that came with the call, with the data that the
    /// token carries.
    pub fn get_data(&self, context: &Context) -> (r: CallResponse)
        ensures
            r.alkanes@ == context.incoming_alkanes@,
            r.data@ == self.data@,
    {
        let mut response = CallResponse::forward(&context.incoming_alkanes);
        response.data = slice_to_vec(self.data.as_slice());
        response
    }
}

impl Default for OylToken {
    /// The same as [`OylToken::new`].
    fn default() -> (r: Self)
        ensures
            !r.initialized,
            r.total_supply == 0,
            r.name@.len() == 0,
            r.symbol@.len() == 0,
            r.data@.len() == 0,
    {
        OylToken::new()
    }
}

} // verus!
