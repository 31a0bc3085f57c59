//! Splat store: the per-primitive parameter arrays in structure-of-arrays
//! layout, as flat arrays of raw 32-bit words — the form a compute device
//! consumes. Positions and log-scales take three words per splat, rotations
//! four (a quaternion), spherical-harmonic coefficients `sh_k * 3` (one
//! triple per coefficient set), raw opacities one. Construction checks that
//! all five arrays share one leading dimension; a mismatch is an error, not
//! a panic.

use vstd::prelude::*;

verus! {

/// Closed set of compositing passes. The mode selects what the compositor
/// emits; it never changes the geometric pipeline.
#[derive(Clone, Copy, PartialEq, Eq, Structural, Debug)]
pub enum RenderMode {
    /// Full color pass: RGBA image plus auxiliary buffers.
    Default,
    /// Reduced pass emitting per-pixel depth only.
    DepthOnly,
    /// Reduced pass emitting per-pixel alpha only.
    AlphaOnly,
}

impl RenderMode {
    /// Whether the full color pass runs for this mode.
    pub fn runs_full_color(&self) -> (b: bool)
        ensures
            b <==> *self is Default,
    {
        match self {
            RenderMode::Default => true,
            RenderMode::DepthOnly => false,
            RenderMode::AlphaOnly => false,
        }
    }
}

/// The raw per-splat parameter arrays, all sharing leading dimension `n`.
#[derive(Debug)]
pub struct SplatStore {
    pub n: usize,
    pub sh_k: usize,
    pub means: Vec<u32>,
    pub log_scales: Vec<u32>,
    pub rotations: Vec<u32>,
    pub sh_coeffs: Vec<u32>,
    pub raw_opacities: Vec<u32>,
}

impl SplatStore {
    /// All five arrays share the leading dimension `n`, with at least one
    /// spherical-harmonic coefficient set per splat.
    pub open spec fn wf(self) -> bool {
        self.means@.len() == self.n * 3 && self.log_scales@.len() == self.n * 3
            && self.rotations@.len() == self.n * 4 && self.sh_coeffs@.len() == self.n * self.sh_k
            * 3 && self.raw_opacities@.len() == self.n && 1 <= self.sh_k
    }

    /// Build a store of `n` splats with `sh_k` coefficient sets per splat.
    /// Succeeds exactly when every array has the length those dimensions
    /// demand; any mismatch is a construction-time error.
    pub fn new(
        n: usize,
        sh_k: usize,
        means: Vec<u32>,
        log_scales: Vec<u32>,
        rotations: Vec<u32>,
        sh_coeffs: Vec<u32>,
        raw_opacities: Vec<u32>,
    ) -> (r: Result<SplatStore, crate::RenderError>)
        ensures
            r is Ok <==> (means@.len() == n * 3 && log_scales@.len() == n * 3
                && rotations@.len() == n * 4 && sh_coeffs@.len() == n * sh_k * 3
                && raw_opacities@.len() == n && 1 <= sh_k),
            r is Ok ==> r->Ok_0 == (SplatStore {
                n,
                sh_k,
                means,
                log_scales,
                rotations,
                sh_coeffs,
                raw_opacities,
            }) && r->Ok_0.wf(),
            r is Err ==> r->Err_0 == crate::RenderError::SplatArrayMismatch,
    {
        let ok = sh_k >= 1 && len_is_times(means.len(), n, 3) && len_is_times(
            log_scales.len(),
            n,
            3,
        ) && len_is_times(rotations.len(), n, 4) && raw_opacities.len() == n && sh_len_matches(
            sh_coeffs.len(),
            n,
            sh_k,
        );
        if ok {
            Ok(SplatStore { n, sh_k, means, log_scales, rotations, sh_coeffs, raw_opacities })
        } else {
            Err(crate::RenderError::SplatArrayMismatch)
        }
    }
}

/// Does `len` equal `n * f`, for a small per-splat factor `f`? Tested by
/// division so no intermediate product can overflow.
fn len_is_times(len: usize, n: usize, f: usize) -> (b: bool)
    requires
        1 <= f <= 4,
    ensures
        b <==> len == n * f,
{
    proof {
        assert(n as int * f as int == f as int * n as int) by (nonlinear_arith);
        vstd::arithmetic::div_mod::lemma_fundamental_div_mod(len as int, f as int);
        if len as int == n * f {
            vstd::arithmetic::div_mod::lemma_fundamental_div_mod_converse(
                len as int,
                f as int,
                n as int,
                0,
            );
        }
    }
    len % f == 0 && len / f == n
}

/// Does `len` equal `n * sh_k * 3`?
fn sh_len_matches(len: usize, n: usize, sh_k: usize) -> (b: bool)
    requires
        1 <= sh_k,
    ensures
        b <==> len == n * sh_k * 3,
{
    if len % 3 != 0 {
        proof {
            vstd::arithmetic::div_mod::lemma_fundamental_div_mod(len as int, 3);
            if len as int == n * sh_k * 3 {
                vstd::arithmetic::div_mod::lemma_fundamental_div_mod_converse(
                    len as int,
                    3,
                    n as int * sh_k as int,
                    0,
                );
            }
        }
        return false;
    }
    let per_channel: usize = len / 3;
    proof {
        vstd::arithmetic::div_mod::lemma_fundamental_div_mod(len as int, 3);
        assert(len as int == per_channel as int * 3);
        assert(len as int == n * sh_k * 3 <==> per_channel as int == n * sh_k)
            by (nonlinear_arith)
            requires
                len as int == per_channel as int * 3,
        ;
    }
    if n == 0 {
        proof {
            assert(n as int * sh_k as int == 0) by (nonlinear_arith)
                requires
                    n == 0,
            ;
        }
        return per_channel == 0;
    }
    proof {
        assert(n as int * sh_k as int == sh_k as int * n as int) by (nonlinear_arith);
        vstd::arithmetic::div_mod::lemma_fundamental_div_mod(per_channel as int, n as int);
        if per_channel as int == n * sh_k {
            vstd::arithmetic::div_mod::lemma_fundamental_div_mod_converse(
                per_channel as int,
                n as int,
                sh_k as int,
                0,
            );
        }
    }
    per_channel % n == 0 && per_channel / n == sh_k
}

} // verus!
