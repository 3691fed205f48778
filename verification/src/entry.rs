//! Rune names, etching terms and the per-rune domain entry.
use vstd::prelude::*;

verus! {

/// Names at or above this value are reserved for unnamed etchings.
pub const RESERVED_RUNE: u128 = 6402364363415443603228541259936211926;

/// A rune name, encoded as its base-26 integer value.
#[derive(Debug, Copy, Clone, PartialEq, Eq, Structural, Hash)]
pub struct Rune(pub u128);

impl Rune {
    pub open spec fn spec_is_reserved(self) -> bool {
        self.0 >= RESERVED_RUNE
    }

    pub fn is_reserved(self) -> (r: bool)
        ensures
            r == self.spec_is_reserved(),
    {
        self.0 >= RESERVED_RUNE
    }

    /// The reserved name allocated to an unnamed etching at this block and
    /// transaction index.
    pub open spec fn spec_reserved(block: u64, tx: u32) -> Rune {
        Rune((RESERVED_RUNE + ((block as u128) * 0x100000000 + (tx as u128))) as u128)
    }

    pub fn reserved(block: u64, tx: u32) -> (r: Rune)
        ensures
            r == Rune::spec_reserved(block, tx),
    {
        let offset: u128 = (block as u128) * 0x100000000 + (tx as u128);
        Rune(RESERVED_RUNE + offset)
    }

    /// The bytes a transaction must push in a tapscript leaf to commit to this
    /// name: the little-endian form with trailing zero bytes trimmed.
    pub open spec fn spec_commitment(n: u128) -> Seq<u8>
        decreases n,
    {
        if n == 0 {
            Seq::empty()
        } else {
            seq![(n % 256) as u8] + Self::spec_commitment(n / 256)
        }
    }

    pub fn commitment(self) -> (r: Vec<u8>)
        ensures
            r@ == Rune::spec_commitment(self.0),
    {
        let mut out: Vec<u8> = Vec::new();
        let mut n: u128 = self.0;
        while n > 0
            invariant
                Rune::spec_commitment(self.0) == out@ + Rune::spec_commitment(n),
            decreases n,
    {
            out.push((n % 256) as u8);
            n = n / 256;
            proof {
                assert(Rune::spec_commitment(self.0) =~= out@ + Rune::spec_commitment(n));
            }
        }
        proof {
            assert(out@ + Rune::spec_commitment(0) =~= out@);
        }
        out
    }
}

/// A rune name together with its display spacers.
#[derive(Debug, Copy, Clone, PartialEq, Eq, Structural, Hash)]
pub struct SpacedRune {
    pub rune: Rune,
    pub spacers: u32,
}

/// Etching terms: open-mint limits and the two authority flags.
#[derive(Debug, Copy, Clone, PartialEq, Eq, Structural, Hash)]
pub struct Terms {
    pub amount: Option<u128>,
    pub cap: Option<u128>,
    pub height_start: Option<u64>,
    pub height_end: Option<u64>,
    pub offset_start: Option<u64>,
    pub offset_end: Option<u64>,
    pub allow_minting: bool,
    pub allow_blacklisting: bool,
}

impl Default for Terms {
    /// Terms with no limits and both authority flags off.
    fn default() -> (r: Self)
        ensures
            r == (Terms {
                amount: None,
                cap: None,
                height_start: None,
                height_end: None,
                offset_start: None,
                offset_end: None,
                allow_minting: false,
                allow_blacklisting: false,
            }),
    {
        Terms {
            amount: None,
            cap: None,
            height_start: None,
            height_end: None,
            offset_start: None,
            offset_end: None,
            allow_minting: false,
            allow_blacklisting: false,
        }
    }
}

/// Why an open mint is not available.
#[derive(Debug, Copy, Clone, PartialEq, Eq, Structural)]
pub enum MintError {
    Unmintable,
    Start(u64),
    End(u64),
    Cap(u128),
}

/// The persisted domain entry of a rune.
#[derive(Debug)]
pub struct RuneEntry {
    pub block: u64,
    pub burned: u128,
    pub divisibility: u8,
    /// Txid of the etching transaction, 32 bytes.
    pub etching: Vec<u8>,
    pub mints: u128,
    pub number: u64,
    pub premine: u128,
    pub spaced_rune: SpacedRune,
    pub symbol: Option<char>,
    pub terms: Option<Terms>,
    pub timestamp: u64,
    pub turbo: bool,
}

pub open spec fn sat_add_u64(a: u64, b: u64) -> u64 {
    if a + b > u64::MAX {
        u64::MAX
    } else {
        (a + b) as u64
    }
}

impl RuneEntry {
    /// First height at which the open mint is available, if bounded.
    pub open spec fn spec_mint_start(self) -> Option<u64> {
        match self.terms {
            None => None,
            Some(terms) => {
                let relative = match terms.offset_start {
                    Some(offset) => Some(sat_add_u64(self.block, offset)),
                    None => None,
                };
                let absolute = terms.height_start;
                match (relative, absolute) {
                    (Some(a), Some(b)) => Some(if a > b {
                        a
                    } else {
                        b
                    }),
                    (Some(a), None) => Some(a),
                    (None, Some(b)) => Some(b),
                    (None, None) => None,
                }
            },
        }
    }

    /// First height at which the open mint is no longer available, if bounded.
    pub open spec fn spec_mint_end(self) -> Option<u64> {
        match self.terms {
            None => None,
            Some(terms) => {
                let relative = match terms.offset_end {
                    Some(offset) => Some(sat_add_u64(self.block, offset)),
                    None => None,
                };
                let absolute = terms.height_end;
                match (relative, absolute) {
                    (Some(a), Some(b)) => Some(if a < b {
                        a
                    } else {
                        b
                    }),
                    (Some(a), None) => Some(a),
                    (None, Some(b)) => Some(b),
                    (None, None) => None,
                }
            },
        }
    }

    /// The open-mint amount at `height`, or the reason none is available.
    pub open spec fn spec_mintable(self, height: u64) -> Result<u128, MintError> {
        match self.terms {
            None => Err(MintError::Unmintable),
            Some(terms) => {
                if self.spec_mint_start() matches Some(start) && height < start {
                    Err(MintError::Start(self.spec_mint_start().unwrap()))
                } else if self.spec_mint_end() matches Some(end) && height >= end {
                    Err(MintError::End(self.spec_mint_end().unwrap()))
                } else {
                    let cap = match terms.cap {
                        Some(cap) => cap,
                        None => 0,
                    };
                    if self.mints >= cap {
                        Err(MintError::Cap(cap))
                    } else {
                        Ok(
                            match terms.amount {
                                Some(amount) => amount,
                                None => 0,
                            },
                        )
                    }
                }
            },
        }
    }

    fn mint_start(&self) -> (r: Option<u64>)
        ensures
            r == self.spec_mint_start(),
    {
        match &self.terms {
            None => None,
            Some(terms) => {
                let relative: Option<u64> = match terms.offset_start {
                    Some(offset) => Some(
                        if self.block > u64::MAX - offset {
                            u64::MAX
                        } else {
                            self.block + offset
                        },
                    ),
                    None => None,
                };
                match (relative, terms.height_start) {
                    (Some(a), Some(b)) => Some(if a > b {
                        a
                    } else {
                        b
                    }),
                    (Some(a), None) => Some(a),
                    (None, Some(b)) => Some(b),
                    (None, None) => None,
                }
            },
        }
    }

    fn mint_end(&self) -> (r: Option<u64>)
        ensures
            r == self.spec_mint_end(),
    {
        match &self.terms {
            None => None,
            Some(terms) => {
                let relative: Option<u64> = match terms.offset_end {
                    Some(offset) => Some(
                        if self.block > u64::MAX - offset {
                            u64::MAX
                        } else {
                            self.block + offset
                        },
                    ),
                    None => None,
                };
                match (relative, terms.height_end) {
                    (Some(a), Some(b)) => Some(if a < b {
                        a
                    } else {
                        b
                    }),
                    (Some(a), None) => Some(a),
                    (None, Some(b)) => Some(b),
                    (None, None) => None,
                }
            },
        }
    }

    pub fn mintable(&self, height: u64) -> (r: Result<u128, MintError>)
        ensures
            r == self.spec_mintable(height),
    {
        let terms = match &self.terms {
            None => {
                return Err(MintError::Unmintable);
            },
            Some(terms) => terms,
        };
        if let Some(start) = self.mint_start() {
            if height < start {
                return Err(MintError::Start(start));
            }
        }
        if let Some(end) = self.mint_end() {
            if height >= end {
                return Err(MintError::End(end));
            }
        }
        let cap = match terms.cap {
            Some(cap) => cap,
            None => 0,
        };
        if self.mints >= cap {
            return Err(MintError::Cap(cap));
        }
        Ok(
            match terms.amount {
                Some(amount) => amount,
                None => 0,
            },
        )
    }

    /// The open-mint supply: premine plus what the open mints issued, each
    /// term saturating at the numeric range.
    pub open spec fn spec_supply(self) -> u128 {
        let amount: u128 = match self.terms {
            Some(terms) => match terms.amount {
                Some(amount) => amount,
                None => 0,
            },
            None => 0,
        };
        let minted: u128 = if self.mints * amount > u128::MAX {
            u128::MAX
        } else {
            (self.mints * amount) as u128
        };
        if minted + self.premine > u128::MAX {
            u128::MAX
        } else {
            (minted + self.premine) as u128
        }
    }

    pub fn supply(&self) -> (r: u128)
        ensures
            r == self.spec_supply(),
    {
        let amount: u128 = match &self.terms {
            Some(terms) => match terms.amount {
                Some(amount) => amount,
                None => 0,
            },
            None => 0,
        };
        let minted = self.mints.checked_mul(amount).unwrap_or(u128::MAX);
        minted.checked_add(self.premine).unwrap_or(u128::MAX)
    }
}

} // verus!
