//! Product version numbers, rendered as dotted triples and quads for
//! artifact file names and download URLs.

use vstd::prelude::*;

use crate::decimal::{dec_str, u32_to_dec};

verus! {

/// A four-component product version.
#[derive(Debug, Clone, Copy)]
pub struct NowVersion {
    quad: [u32; 4],
}

/// "a.b.c" for the first three components.
pub open spec fn triple_str(q: Seq<u32>) -> Seq<char> {
    dec_str(q[0] as nat) + seq!['.'] + dec_str(q[1] as nat) + seq!['.'] + dec_str(q[2] as nat)
}

/// "a.b.c.d" for all four components.
pub open spec fn quad_str(q: Seq<u32>) -> Seq<char> {
    triple_str(q) + seq!['.'] + dec_str(q[3] as nat)
}

impl NowVersion {
    pub fn from_quad(quad: [u32; 4]) -> (r: Self)
        ensures
            r.spec_quad() == quad@,
    {
        Self { quad }
    }

    /// The spec-level components of this version.
    pub closed spec fn spec_quad(&self) -> Seq<u32> {
        self.quad@
    }

    /// Renders the version as "major.minor.patch".
    pub fn as_triple(&self) -> (r: String)
        ensures
            r@ == triple_str(self.spec_quad()),
    {
        proof {
            reveal_strlit(".");
        }
        let mut r = u32_to_dec(self.quad[0]);
        r.append(".");
        let minor = u32_to_dec(self.quad[1]);
        r.append(minor.as_str());
        r.append(".");
        let patch = u32_to_dec(self.quad[2]);
        r.append(patch.as_str());
        proof {
            assert(r@ =~= triple_str(self.spec_quad()));
        }
        r
    }

    /// Renders the version as "major.minor.patch.build".
    pub fn as_quad(&self) -> (r: String)
        ensures
            r@ == quad_str(self.spec_quad()),
    {
        proof {
            reveal_strlit(".");
        }
        let mut r = self.as_triple();
        r.append(".");
        let build = u32_to_dec(self.quad[3]);
        r.append(build.as_str());
        proof {
            assert(r@ =~= quad_str(self.spec_quad()));
        }
        r
    }
}

} // verus!
