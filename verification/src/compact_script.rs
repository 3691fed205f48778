//! The compact form of the three supported scriptPubKey shapes.
//!
//! A standard P2TR, P2WPKH or P2WSH scriptPubKey is stored as a (kind, body)
//! pair; every other script is non-convertible.
use vstd::prelude::*;

verus! {

/// First opcode of a taproot scriptPubKey.
pub const OP_PUSHNUM_1: u8 = 0x51;

/// First opcode of a segwit-v0 scriptPubKey.
pub const OP_PUSHBYTES_0: u8 = 0x00;

#[derive(Debug, PartialEq, Clone, Copy, Eq, Structural, Hash)]
pub enum CompactScriptKind {
    P2TR,
    P2WPKH,
    P2WSH,
}

impl CompactScriptKind {
    /// The byte that stands for this kind in persisted entries and blobs.
    pub open spec fn spec_byte(self) -> u8 {
        match self {
            CompactScriptKind::P2TR => 0,
            CompactScriptKind::P2WPKH => 1,
            CompactScriptKind::P2WSH => 2,
        }
    }

    pub fn kind_byte(self) -> (r: u8)
        ensures
            r == self.spec_byte(),
    {
        match self {
            CompactScriptKind::P2TR => 0,
            CompactScriptKind::P2WPKH => 1,
            CompactScriptKind::P2WSH => 2,
        }
    }

    /// The kind a stored byte names, if any.
    pub open spec fn spec_of_byte(b: u8) -> Option<CompactScriptKind> {
        if b == 0 {
            Some(CompactScriptKind::P2TR)
        } else if b == 1 {
            Some(CompactScriptKind::P2WPKH)
        } else if b == 2 {
            Some(CompactScriptKind::P2WSH)
        } else {
            None
        }
    }

    pub fn of_byte(b: u8) -> (r: Option<CompactScriptKind>)
        ensures
            r == Self::spec_of_byte(b),
    {
        if b == 0 {
            Some(CompactScriptKind::P2TR)
        } else if b == 1 {
            Some(CompactScriptKind::P2WPKH)
        } else if b == 2 {
            Some(CompactScriptKind::P2WSH)
        } else {
            None
        }
    }

    /// The opcode that opens the scriptPubKey of this kind.
    pub open spec fn spec_opcode(self) -> u8 {
        match self {
            CompactScriptKind::P2TR => OP_PUSHNUM_1,
            CompactScriptKind::P2WPKH => OP_PUSHBYTES_0,
            CompactScriptKind::P2WSH => OP_PUSHBYTES_0,
        }
    }
}

#[derive(Debug, Clone)]
pub struct CompactScript {
    pub kind: CompactScriptKind,
    pub body: Vec<u8>,
}

/// What `CompactScript::try_from_script` yields on a script, at the level of
/// byte sequences: the kind and the body, or nothing for a non-convertible
/// script.
pub open spec fn spec_try_from_script(s: Seq<u8>) -> Option<(CompactScriptKind, Seq<u8>)> {
    if s.len() == 34 && s[0] == OP_PUSHNUM_1 && s[1] == 32 {
        Some((CompactScriptKind::P2TR, s.subrange(2, 34)))
    } else if s.len() >= 2 && s[0] == OP_PUSHBYTES_0 && s[1] == 20 && s.len() == 22 {
        Some((CompactScriptKind::P2WPKH, s.subrange(2, 22)))
    } else if s.len() >= 2 && s[0] == OP_PUSHBYTES_0 && s[1] == 32 && s.len() == 34 {
        Some((CompactScriptKind::P2WSH, s.subrange(2, 34)))
    } else {
        None
    }
}

/// What `CompactScript::to_script` yields: the canonical scriptPubKey for a
/// body of length 1 to 32, or nothing.
pub open spec fn spec_to_script(kind: CompactScriptKind, body: Seq<u8>) -> Option<Seq<u8>> {
    if 1 <= body.len() <= 32 {
        Some(seq![kind.spec_opcode(), body.len() as u8] + body)
    } else {
        None
    }
}

impl CompactScript {
    /// The mathematical value of this compact script.
    pub open spec fn view_pair(self) -> (CompactScriptKind, Seq<u8>) {
        (self.kind, self.body@)
    }

    /// Converts a standard P2TR, P2WPKH or P2WSH scriptPubKey to its compact
    /// form; any other script yields `None`.
    pub fn try_from_script(script: &[u8]) -> (r: Option<Self>)
        ensures
            match r {
                Some(c) => spec_try_from_script(script@) == Some(c.view_pair()),
                None => spec_try_from_script(script@) is None,
            },
    {
        let n = script.len();
        if n == 34 && script[0] == OP_PUSHNUM_1 && script[1] == 32 {
            let body = copy_tail(script, 2);
            proof {
                assert(body@ =~= script@.subrange(2, 34));
            }
            return Some(CompactScript { kind: CompactScriptKind::P2TR, body });
        }
        if n >= 2 && script[0] == OP_PUSHBYTES_0 {
            let body_len = script[1] as usize;
            if body_len <= 32 && n == 2 + body_len {
                if body_len == 20 {
                    let body = copy_tail(script, 2);
                    proof {
                        assert(body@ =~= script@.subrange(2, 22));
                    }
                    return Some(CompactScript { kind: CompactScriptKind::P2WPKH, body });
                }
                if body_len == 32 {
                    let body = copy_tail(script, 2);
                    proof {
                        assert(body@ =~= script@.subrange(2, 34));
                    }
                    return Some(CompactScript { kind: CompactScriptKind::P2WSH, body });
                }
                return None;
            }
        }
        None
    }

    /// Rebuilds the canonical scriptPubKey, or `None` when the body length is
    /// outside 1 to 32.
    pub fn to_script(&self) -> (r: Option<Vec<u8>>)
        ensures
            match r {
                Some(s) => spec_to_script(self.kind, self.body@) == Some(s@),
                None => spec_to_script(self.kind, self.body@) is None,
            },
    {
        if self.body.len() == 0 || self.body.len() > 32 {
            return None;
        }
        let mut out: Vec<u8> = Vec::new();
        out.push(self.kind.kind_byte_opcode());
        out.push(self.body.len() as u8);
        let mut i: usize = 0;
        while i < self.body.len()
            invariant
                i <= self.body.len(),
                out@ == seq![self.kind.spec_opcode(), self.body@.len() as u8] + self.body@.subrange(
                    0,
                    i as int,
                ),
            decreases self.body.len() - i,
        {
            out.push(self.body[i]);
            proof {
                assert(out@ =~= seq![self.kind.spec_opcode(), self.body@.len() as u8]
                    + self.body@.subrange(0, i + 1));
            }
            i = i + 1;
        }
        proof {
            assert(self.body@.subrange(0, self.body@.len() as int) =~= self.body@);
        }
        Some(out)
    }
}

impl CompactScriptKind {
    pub fn kind_byte_opcode(self) -> (r: u8)
        ensures
            r == self.spec_opcode(),
    {
        match self {
            CompactScriptKind::P2TR => OP_PUSHNUM_1,
            CompactScriptKind::P2WPKH => OP_PUSHBYTES_0,
            CompactScriptKind::P2WSH => OP_PUSHBYTES_0,
        }
    }
}

/// Copies `s[from..]` into a fresh vector.
pub fn copy_tail(s: &[u8], from: usize) -> (r: Vec<u8>)
    requires
        from <= s@.len(),
    ensures
        r@ == s@.subrange(from as int, s@.len() as int),
{
    let mut out: Vec<u8> = Vec::new();
    let mut i: usize = from;
    while i < s.len()
        invariant
            from <= i <= s@.len(),
            out@ == s@.subrange(from as int, i as int),
        decreases s@.len() - i,
    {
        out.push(s[i]);
        proof {
            assert(out@ =~= s@.subrange(from as int, i + 1));
        }
        i = i + 1;
    }
    out
}

/// Round trip: rebuilding the scriptPubKey from the compact form of any
/// convertible script gives back exactly the original script.
pub proof fn lemma_compact_script_round_trip(s: Seq<u8>)
    requires
        spec_try_from_script(s) is Some,
    ensures
        spec_to_script(
            spec_try_from_script(s).unwrap().0,
            spec_try_from_script(s).unwrap().1,
        ) == Some(s),
{
    let (kind, body) = spec_try_from_script(s).unwrap();
    let rebuilt = spec_to_script(kind, body).unwrap();
    assert(rebuilt =~= s);
}

} // verus!
