use vstd::prelude::*;

use crate::authority::Authority;
use crate::error::TokenError;

verus! {

/// Identifies a mint: its position in the registry.
#[derive(Clone, Copy, Debug, PartialEq, Eq, Structural)]
pub struct MintId {
    pub index: usize,
}

/// The record of one mint: its decimal precision, its total supply and the
/// authority that may mint it.
#[derive(Clone, Copy, Debug, PartialEq, Eq, Structural)]
pub struct Mint {
    pub decimals: u8,
    pub supply: u64,
    pub authority: Authority,
}

impl Mint {
    /// This mint with its supply replaced.
    pub open spec fn with_supply(self, supply: int) -> Mint {
        Mint { decimals: self.decimals, supply: supply as u64, authority: self.authority }
    }
}

/// What adjusting the supply of mint `id` by `delta` gives: the new records,
/// or the error.
pub open spec fn supply_adjusted(mints: Seq<Mint>, id: MintId, delta: int) -> Result<
    Seq<Mint>,
    TokenError,
> {
    if id.index >= mints.len() {
        Err(TokenError::NotFound)
    } else if mints[id.index as int].supply + delta < 0 {
        Err(TokenError::SupplyUnderflow)
    } else if mints[id.index as int].supply + delta > u64::MAX {
        Err(TokenError::SupplyOverflow)
    } else {
        Ok(
            mints.update(
                id.index as int,
                mints[id.index as int].with_supply(mints[id.index as int].supply + delta),
            ),
        )
    }
}

/// The mints of a ledger, each identified by its position.
pub struct MintRegistry {
    mints: Vec<Mint>,
}

impl View for MintRegistry {
    type V = Seq<Mint>;

    closed spec fn view(&self) -> Seq<Mint> {
        self.mints@
    }
}

impl MintRegistry {
    /// A copy of this registry.
    pub fn duplicate(&self) -> (r: MintRegistry)
        ensures
            r@ == self@,
    {
        let mut copy: Vec<Mint> = Vec::new();
        let mut i: usize = 0;
        while i < self.mints.len()
            invariant
                i <= self.mints@.len(),
                copy@ == self.mints@.take(i as int),
            decreases self.mints@.len() - i,
        {
            copy.push(self.mints[i]);
            i = i + 1;
            assert(copy@ =~= self.mints@.take(i as int));
        }
        assert(copy@ =~= self.mints@);
        MintRegistry { mints: copy }
    }

    /// A registry with no mints.
    pub fn new() -> (r: MintRegistry)
        ensures
            r@ == Seq::<Mint>::empty(),
    {
        MintRegistry { mints: Vec::new() }
    }

    /// Registers a mint with zero supply and returns its identifier.
    pub fn create_mint(&mut self, decimals: u8, authority: Authority) -> (r: MintId)
        ensures
            r.index == old(self)@.len(),
            final(self)@ == old(self)@.push(Mint { decimals, supply: 0, authority }),
    {
        let index = self.mints.len();
        self.mints.push(Mint { decimals, supply: 0, authority });
        MintId { index }
    }

    /// The record of mint `id`.
    pub fn get(&self, id: MintId) -> (r: Result<Mint, TokenError>)
        ensures
            id.index < self@.len() ==> r == Ok::<Mint, TokenError>(self@[id.index as int]),
            id.index >= self@.len() ==> r == Err::<Mint, TokenError>(TokenError::NotFound),
    {
        if id.index < self.mints.len() {
            Ok(self.mints[id.index])
        } else {
            Err(TokenError::NotFound)
        }
    }

    /// Adds `delta` to the supply of mint `id`; on an error nothing changes.
    pub fn adjust_supply(&mut self, id: MintId, delta: i128) -> (r: Result<(), TokenError>)
        ensures
            match supply_adjusted(old(self)@, id, delta as int) {
                Ok(mints) => r is Ok && final(self)@ == mints,
                Err(e) => r == Err::<(), TokenError>(e) && final(self)@ == old(self)@,
            },
    {
        if id.index >= self.mints.len() {
            return Err(TokenError::NotFound);
        }
        let m = self.mints[id.index];
        if delta < 0 {
            if delta < -(m.supply as i128) {
                return Err(TokenError::SupplyUnderflow);
            }
        } else if delta > (u64::MAX - m.supply) as i128 {
            return Err(TokenError::SupplyOverflow);
        }
        let supply = (m.supply as i128 + delta) as u64;
        self.mints.set(id.index, Mint { decimals: m.decimals, supply, authority: m.authority });
        Ok(())
    }
}

} // verus!
