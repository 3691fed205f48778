//! Authority roles and the bit-set that records which roles a rune grants.
use vstd::prelude::*;

verus! {

/// The three privileged roles a rune can carry.
#[derive(Debug, Copy, Clone, PartialEq, Eq, Structural, Hash)]
pub enum AuthorityKind {
    Mint,
    Blacklist,
    Master,
}

impl AuthorityKind {
    /// The bit this role occupies in an `AuthorityBits` value.
    pub open spec fn spec_mask(self) -> u8 {
        match self {
            AuthorityKind::Mint => 1,
            AuthorityKind::Blacklist => 2,
            AuthorityKind::Master => 4,
        }
    }

    pub fn mask(self) -> (r: u8)
        ensures
            r == self.spec_mask(),
    {
        match self {
            AuthorityKind::Mint => 1,
            AuthorityKind::Blacklist => 2,
            AuthorityKind::Master => 4,
        }
    }

    /// The byte that identifies this role inside a stored authority-scripts blob.
    pub open spec fn spec_slot_byte(self) -> u8 {
        match self {
            AuthorityKind::Mint => 0,
            AuthorityKind::Blacklist => 1,
            AuthorityKind::Master => 2,
        }
    }
}

/// A set over the three authority roles; only the low three bits are significant.
#[derive(Debug, Copy, Clone, PartialEq, Eq, Structural, Hash)]
pub struct AuthorityBits(pub u8);

impl AuthorityBits {
    /// The significant bits of the set.
    pub open spec fn spec_bits(self) -> u8 {
        self.0 & 7
    }

    pub open spec fn spec_contains(self, kind: AuthorityKind) -> bool {
        self.0 & kind.spec_mask() != 0
    }

    pub fn empty() -> (r: Self)
        ensures
            r.0 == 0,
    {
        AuthorityBits(0)
    }

    pub fn bits(self) -> (r: u8)
        ensures
            r == self.spec_bits(),
    {
        self.0 & 7
    }

    pub fn contains(self, kind: AuthorityKind) -> (r: bool)
        ensures
            r == self.spec_contains(kind),
    {
        let m = kind.mask();
        let r = self.bits() & m != 0;
        proof {
            let b = self.0;
            assert(((b & 7) & m != 0) == (b & m != 0)) by (bit_vector)
                requires
                    m == 1 || m == 2 || m == 4,
            ;
        }
        r
    }

    pub fn insert(&mut self, kind: AuthorityKind)
        ensures
            final(self).0 == old(self).0 | kind.spec_mask(),
    {
        self.0 = self.0 | kind.mask();
    }

    pub fn extend(self, kind: AuthorityKind) -> (r: Self)
        ensures
            r.0 == self.0 | kind.spec_mask(),
    {
        let mut out = self;
        out.insert(kind);
        out
    }

    pub fn is_empty(self) -> (r: bool)
        ensures
            r == (self.spec_bits() == 0),
    {
        self.bits() == 0
    }

    pub fn from_bits_truncated(bits: u8) -> (r: Self)
        ensures
            r.0 == bits & 7,
    {
        AuthorityBits(bits & 7)
    }

    /// The roles of the set, in the fixed order Mint, Blacklist, Master.
    pub open spec fn spec_kinds(self) -> Seq<AuthorityKind> {
        (if self.spec_contains(AuthorityKind::Mint) {
            seq![AuthorityKind::Mint]
        } else {
            Seq::empty()
        }) + (if self.spec_contains(AuthorityKind::Blacklist) {
            seq![AuthorityKind::Blacklist]
        } else {
            Seq::empty()
        }) + (if self.spec_contains(AuthorityKind::Master) {
            seq![AuthorityKind::Master]
        } else {
            Seq::empty()
        })
    }

    pub fn kinds(self) -> (r: Vec<AuthorityKind>)
        ensures
            r@ == self.spec_kinds(),
    {
        let mut out: Vec<AuthorityKind> = Vec::new();
        if self.contains(AuthorityKind::Mint) {
            out.push(AuthorityKind::Mint);
        }
        if self.contains(AuthorityKind::Blacklist) {
            out.push(AuthorityKind::Blacklist);
        }
        if self.contains(AuthorityKind::Master) {
            out.push(AuthorityKind::Master);
        }
        proof {
            assert(out@ =~= self.spec_kinds());
        }
        out
    }
}

impl From<u8> for AuthorityBits {
    fn from(bits: u8) -> (r: Self) {
        AuthorityBits::from_bits_truncated(bits)
    }
}

impl vstd::std_specs::convert::FromSpecImpl<u8> for AuthorityBits {
    open spec fn obeys_from_spec() -> bool {
        true
    }

    open spec fn from_spec(bits: u8) -> Self {
        AuthorityBits(bits & 7)
    }
}

impl From<AuthorityBits> for u8 {
    fn from(bits: AuthorityBits) -> (r: Self) {
        bits.bits()
    }
}

impl vstd::std_specs::convert::FromSpecImpl<AuthorityBits> for u8 {
    open spec fn obeys_from_spec() -> bool {
        true
    }

    open spec fn from_spec(bits: AuthorityBits) -> Self {
        bits.spec_bits()
    }
}

} // verus!
