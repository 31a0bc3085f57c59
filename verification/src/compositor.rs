//! Per-pixel front-to-back alpha compositing, in fixed-point arithmetic with
//! unit `ONE_Q`. Each contribution carries the alpha a splat takes at the
//! pixel (its activated opacity times its Gaussian falloff there, quantized
//! upstream) and its evaluated color. Walking the depth-ordered list front to
//! back, each splat takes the weight `w = trans * alpha / ONE_Q` of the
//! remaining transmittance, adds `w`-scaled color, and leaves `trans - w`
//! behind; the background fills whatever transmittance remains. The exec
//! walk may stop early once transmittance reaches zero: past that point every
//! further weight is exactly zero, so the result equals the full walk's.

use vstd::prelude::*;

verus! {

/// Fixed-point unit: the value standing for 1.0.
pub const ONE_Q: u32 = 65536;

/// One splat's contribution at one pixel: per-pixel alpha and evaluated
/// color, each in `[0, ONE_Q]`.
#[derive(Clone, Copy, PartialEq, Eq, Structural, Debug)]
pub struct Contribution {
    pub alpha: u32,
    pub red: u32,
    pub green: u32,
    pub blue: u32,
}

impl Contribution {
    pub open spec fn wf(self) -> bool {
        self.alpha <= ONE_Q && self.red <= ONE_Q && self.green <= ONE_Q && self.blue <= ONE_Q
    }
}

/// Background color, each channel in `[0, ONE_Q]`.
#[derive(Clone, Copy, PartialEq, Eq, Structural, Debug)]
pub struct Rgb {
    pub red: u32,
    pub green: u32,
    pub blue: u32,
}

impl Rgb {
    pub open spec fn wf(self) -> bool {
        self.red <= ONE_Q && self.green <= ONE_Q && self.blue <= ONE_Q
    }
}

/// A composited pixel, each channel in `[0, ONE_Q]`.
#[derive(Clone, Copy, PartialEq, Eq, Structural, Debug)]
pub struct Rgba {
    pub red: u32,
    pub green: u32,
    pub blue: u32,
    pub alpha: u32,
}

impl Rgba {
    pub open spec fn wf(self) -> bool {
        self.red <= ONE_Q && self.green <= ONE_Q && self.blue <= ONE_Q && self.alpha <= ONE_Q
    }
}

/// Fixed-point product, rounded toward zero.
pub open spec fn mul_q(x: int, y: int) -> int {
    (x * y) / (ONE_Q as int)
}

/// Accumulator state of the front-to-back walk: remaining transmittance and
/// accumulated color.
pub ghost struct BlendState {
    pub trans: int,
    pub red: int,
    pub green: int,
    pub blue: int,
}

pub open spec fn init_state() -> BlendState {
    BlendState { trans: ONE_Q as int, red: 0, green: 0, blue: 0 }
}

/// One compositing step: the splat takes weight `w` out of the remaining
/// transmittance and contributes `w`-scaled color.
pub open spec fn step(s: BlendState, c: Contribution) -> BlendState {
    let w = mul_q(s.trans, c.alpha as int);
    BlendState {
        trans: s.trans - w,
        red: s.red + mul_q(w, c.red as int),
        green: s.green + mul_q(w, c.green as int),
        blue: s.blue + mul_q(w, c.blue as int),
    }
}

/// State after walking all of `cs` front to back (index 0 is nearest).
pub open spec fn blend_seq(cs: Seq<Contribution>) -> BlendState
    decreases cs.len(),
{
    if cs.len() == 0 {
        init_state()
    } else {
        step(blend_seq(cs.drop_last()), cs.last())
    }
}

/// The composited pixel: accumulated color plus the background scaled by the
/// remaining transmittance; alpha is the occluded fraction.
pub open spec fn spec_composite(cs: Seq<Contribution>, bg: Rgb) -> Rgba {
    let s = blend_seq(cs);
    Rgba {
        red: (s.red + mul_q(s.trans, bg.red as int)) as u32,
        green: (s.green + mul_q(s.trans, bg.green as int)) as u32,
        blue: (s.blue + mul_q(s.trans, bg.blue as int)) as u32,
        alpha: (ONE_Q - s.trans) as u32,
    }
}

/// A fixed-point product by a factor at most `ONE_Q` never exceeds the other
/// factor.
pub proof fn lemma_mul_q_le(x: int, y: int)
    requires
        0 <= x,
        0 <= y <= ONE_Q,
    ensures
        0 <= mul_q(x, y) <= x,
{
    vstd::arithmetic::mul::lemma_mul_inequality(y, ONE_Q as int, x);
    vstd::arithmetic::div_mod::lemma_div_is_ordered(x * y, x * (ONE_Q as int), ONE_Q as int);
    vstd::arithmetic::div_mod::lemma_div_multiples_vanish(x, ONE_Q as int);
    assert(y * x == x * y) by (nonlinear_arith);
    assert(x * (ONE_Q as int) == (ONE_Q as int) * x) by (nonlinear_arith);
    vstd::arithmetic::div_mod::lemma_div_pos_is_pos(x * y, ONE_Q as int);
    assert(0 <= x * y) by (nonlinear_arith)
        requires
            0 <= x,
            0 <= y,
    ;
}

/// Scaling the unit gives the value back exactly.
pub proof fn lemma_mul_q_one(y: int)
    ensures
        mul_q(ONE_Q as int, y) == y,
{
    vstd::arithmetic::div_mod::lemma_div_multiples_vanish(y, ONE_Q as int);
    assert((ONE_Q as int) * y == y * (ONE_Q as int)) by (nonlinear_arith);
}

/// The walk keeps transmittance in `[0, ONE_Q]` and each color channel in
/// `[0, ONE_Q - trans]`: together, no accumulator leaves `[0, ONE_Q]`.
pub proof fn lemma_blend_bounds(cs: Seq<Contribution>)
    requires
        forall|i: int| 0 <= i < cs.len() ==> #[trigger] cs[i].wf(),
    ensures
        0 <= blend_seq(cs).trans <= ONE_Q,
        0 <= blend_seq(cs).red <= ONE_Q - blend_seq(cs).trans,
        0 <= blend_seq(cs).green <= ONE_Q - blend_seq(cs).trans,
        0 <= blend_seq(cs).blue <= ONE_Q - blend_seq(cs).trans,
    decreases cs.len(),
{
    if cs.len() > 0 {
        lemma_blend_bounds(cs.drop_last());
        let s = blend_seq(cs.drop_last());
        let c = cs.last();
        assert(c.wf());
        let w = mul_q(s.trans, c.alpha as int);
        lemma_mul_q_le(s.trans, c.alpha as int);
        lemma_mul_q_le(w, c.red as int);
        lemma_mul_q_le(w, c.green as int);
        lemma_mul_q_le(w, c.blue as int);
    }
}

/// Every output channel of the composited pixel lies in `[0, ONE_Q]`, for
/// any contributions and background within range.
pub proof fn lemma_composite_bounded(cs: Seq<Contribution>, bg: Rgb)
    requires
        forall|i: int| 0 <= i < cs.len() ==> #[trigger] cs[i].wf(),
        bg.wf(),
    ensures
        spec_composite(cs, bg).wf(),
{
    lemma_blend_bounds(cs);
    let s = blend_seq(cs);
    lemma_mul_q_le(s.trans, bg.red as int);
    lemma_mul_q_le(s.trans, bg.green as int);
    lemma_mul_q_le(s.trans, bg.blue as int);
}

/// Splats whose alpha is zero contribute nothing: the composited pixel is
/// exactly the background, with zero alpha.
pub proof fn lemma_zero_alpha_gives_background(cs: Seq<Contribution>, bg: Rgb)
    requires
        forall|i: int| 0 <= i < cs.len() ==> #[trigger] cs[i].alpha == 0,
    ensures
        spec_composite(cs, bg) == (Rgba {
            red: bg.red,
            green: bg.green,
            blue: bg.blue,
            alpha: 0,
        }),
    decreases cs.len(),
{
    if cs.len() > 0 {
        lemma_zero_alpha_gives_background(cs.drop_last(), bg);
        assert(cs.last().alpha == 0);
        assert(mul_q(blend_seq(cs.drop_last()).trans, 0) == 0) by {
            assert(blend_seq(cs.drop_last()).trans * 0 == 0) by (nonlinear_arith);
        }
        assert(mul_q(0, cs.last().red as int) == 0) by (nonlinear_arith);
        assert(mul_q(0, cs.last().green as int) == 0) by (nonlinear_arith);
        assert(mul_q(0, cs.last().blue as int) == 0) by (nonlinear_arith);
    } else {
        assert(blend_seq(cs) == init_state());
    }
    lemma_mul_q_one(bg.red as int);
    lemma_mul_q_one(bg.green as int);
    lemma_mul_q_one(bg.blue as int);
}

/// Once transmittance has reached zero, later splats take weight exactly
/// zero: the walk's state never changes again. Stopping the walk there is
/// not an approximation.
pub proof fn lemma_blend_saturated(cs: Seq<Contribution>, k: int)
    requires
        0 <= k <= cs.len(),
        blend_seq(cs.take(k)).trans == 0,
    ensures
        blend_seq(cs) == blend_seq(cs.take(k)),
    decreases cs.len() - k,
{
    if k == cs.len() {
        assert(cs.take(k) =~= cs);
    } else {
        let s = blend_seq(cs.take(k));
        let c = cs[k];
        assert(cs.take(k + 1).drop_last() =~= cs.take(k));
        assert(cs.take(k + 1).last() == c);
        assert(mul_q(0, c.alpha as int) == 0) by (nonlinear_arith);
        assert(mul_q(0, c.red as int) == 0) by (nonlinear_arith);
        assert(mul_q(0, c.green as int) == 0) by (nonlinear_arith);
        assert(mul_q(0, c.blue as int) == 0) by (nonlinear_arith);
        assert(blend_seq(cs.take(k + 1)) == s);
        lemma_blend_saturated(cs, k + 1);
    }
}

/// Number of contributions the front-to-back walk consumes: entry `i` is
/// consumed exactly when some transmittance remains after the entries in
/// front of it.
pub open spec fn spec_hits(cs: Seq<Contribution>) -> int
    decreases cs.len(),
{
    if cs.len() == 0 {
        0
    } else if blend_seq(cs.drop_last()).trans > 0 {
        spec_hits(cs.drop_last()) + 1
    } else {
        spec_hits(cs.drop_last())
    }
}

/// While every proper prefix keeps positive transmittance, every entry is
/// consumed.
proof fn lemma_hits_full_prefix(cs: Seq<Contribution>, i: int)
    requires
        0 <= i <= cs.len(),
        forall|j: int| 0 <= j < i ==> blend_seq(#[trigger] cs.take(j)).trans > 0,
    ensures
        spec_hits(cs.take(i)) == i,
    decreases i,
{
    if i > 0 {
        lemma_hits_full_prefix(cs, i - 1);
        assert(cs.take(i).drop_last() =~= cs.take(i - 1));
    } else {
        assert(cs.take(0) =~= Seq::<Contribution>::empty());
    }
}

/// Once transmittance has saturated, nothing further is consumed.
proof fn lemma_hits_saturated(cs: Seq<Contribution>, k: int)
    requires
        0 <= k <= cs.len(),
        blend_seq(cs.take(k)).trans == 0,
    ensures
        spec_hits(cs) == spec_hits(cs.take(k)),
    decreases cs.len() - k,
{
    if k == cs.len() {
        assert(cs.take(k) =~= cs);
    } else {
        assert(cs.take(k + 1).drop_last() =~= cs.take(k));
        assert(cs.take(k + 1).take(k) =~= cs.take(k));
        lemma_blend_saturated(cs.take(k + 1), k);
        lemma_hits_saturated(cs, k + 1);
    }
}

/// Per-pixel diagnostic values: how many splats contributed before the
/// walk saturated, and the transmittance left for the background.
#[derive(Clone, Copy, PartialEq, Eq, Structural, Debug)]
pub struct PixelAux {
    pub hits: usize,
    pub transmittance: u32,
}

/// Fixed-point product of two values, the second at most `ONE_Q`.
fn mul_q_exec(x: u32, y: u32) -> (r: u32)
    requires
        y <= ONE_Q,
    ensures
        r as int == mul_q(x as int, y as int),
        r <= x,
{
    proof {
        lemma_mul_q_le(x as int, y as int);
        assert((x as u64) * (y as u64) <= 0xffff_ffff_0000_0000u64) by (nonlinear_arith)
            requires
                x <= 0xffff_ffffu64,
                y <= 0x1_0000u64,
        ;
    }
    (((x as u64) * (y as u64)) / (ONE_Q as u64)) as u32
}

/// Composite one pixel and report its diagnostics: walk the depth-ordered
/// contributions front to back, then fill the remaining transmittance with
/// the background. The walk stops early once transmittance reaches zero;
/// the result is exactly the full walk's, and every channel lies in
/// `[0, ONE_Q]`. The auxiliary values are the number of contributions
/// consumed and the transmittance left for the background.
pub fn composite_pixel_aux(contribs: &Vec<Contribution>, bg: Rgb) -> (r: (Rgba, PixelAux))
    requires
        forall|i: int| 0 <= i < contribs@.len() ==> #[trigger] contribs@[i].wf(),
        bg.wf(),
    ensures
        r.0 == spec_composite(contribs@, bg),
        r.0.wf(),
        r.1.hits == spec_hits(contribs@),
        r.1.hits <= contribs@.len(),
        r.1.transmittance as int == blend_seq(contribs@).trans,
        r.1.transmittance as int == ONE_Q - r.0.alpha,
{
    let ghost cs = contribs@;
    let mut trans: u32 = ONE_Q;
    let mut red: u32 = 0;
    let mut green: u32 = 0;
    let mut blue: u32 = 0;
    let mut i: usize = 0;
    while i < contribs.len() && trans > 0
        invariant
            contribs@ == cs,
            forall|j: int| 0 <= j < cs.len() ==> #[trigger] cs[j].wf(),
            i <= cs.len(),
            trans as int == blend_seq(cs.take(i as int)).trans,
            red as int == blend_seq(cs.take(i as int)).red,
            green as int == blend_seq(cs.take(i as int)).green,
            blue as int == blend_seq(cs.take(i as int)).blue,
            forall|j: int| 0 <= j < i ==> blend_seq(#[trigger] cs.take(j)).trans > 0,
        decreases cs.len() - i,
    {
        let c: Contribution = contribs[i];
        proof {
            assert(cs[i as int].wf());
            lemma_blend_bounds(cs.take(i as int));
            lemma_mul_q_le(trans as int, c.alpha as int);
        }
        let w: u32 = mul_q_exec(trans, c.alpha);
        proof {
            lemma_mul_q_le(w as int, c.red as int);
            lemma_mul_q_le(w as int, c.green as int);
            lemma_mul_q_le(w as int, c.blue as int);
            assert(cs.take(i + 1).drop_last() =~= cs.take(i as int));
            assert(cs.take(i + 1).last() == c);
        }
        trans = trans - w;
        red = red + mul_q_exec(w, c.red);
        green = green + mul_q_exec(w, c.green);
        blue = blue + mul_q_exec(w, c.blue);
        i = i + 1;
    }
    proof {
        lemma_hits_full_prefix(cs, i as int);
        if i < cs.len() {
            lemma_blend_saturated(cs, i as int);
            lemma_hits_saturated(cs, i as int);
        } else {
            assert(cs.take(i as int) =~= cs);
        }
        lemma_blend_bounds(cs);
        lemma_mul_q_le(blend_seq(cs).trans, bg.red as int);
        lemma_mul_q_le(blend_seq(cs).trans, bg.green as int);
        lemma_mul_q_le(blend_seq(cs).trans, bg.blue as int);
    }
    let out = Rgba {
        red: red + mul_q_exec(trans, bg.red),
        green: green + mul_q_exec(trans, bg.green),
        blue: blue + mul_q_exec(trans, bg.blue),
        alpha: ONE_Q - trans,
    };
    (out, PixelAux { hits: i, transmittance: trans })
}

/// Composite one pixel; the image-only entry of the full color pass.
pub fn composite_pixel(contribs: &Vec<Contribution>, bg: Rgb) -> (out: Rgba)
    requires
        forall|i: int| 0 <= i < contribs@.len() ==> #[trigger] contribs@[i].wf(),
        bg.wf(),
    ensures
        out == spec_composite(contribs@, bg),
        out.wf(),
{
    let (out, _aux) = composite_pixel_aux(contribs, bg);
    out
}

/// Composite a whole pixel workload: one depth-ordered contribution list
/// per pixel, all against one background. Element `p` of the result is
/// exactly the composite of list `p`, every channel within `[0, ONE_Q]`.
pub fn composite_image(pixels: &Vec<Vec<Contribution>>, bg: Rgb) -> (out: Vec<Rgba>)
    requires
        forall|p: int, i: int|
            0 <= p < pixels@.len() && 0 <= i < pixels@[p]@.len() ==> (#[trigger] pixels@[p]@[i]).wf(),
        bg.wf(),
    ensures
        out@.len() == pixels@.len(),
        forall|p: int|
            0 <= p < out@.len() ==> #[trigger] out@[p] == spec_composite(pixels@[p]@, bg)
                && out@[p].wf(),
{
    let mut out: Vec<Rgba> = Vec::new();
    let mut p: usize = 0;
    while p < pixels.len()
        invariant
            p <= pixels@.len(),
            out@.len() == p,
            forall|q: int, i: int|
                0 <= q < pixels@.len() && 0 <= i < pixels@[q]@.len() ==> (#[trigger] pixels@[q]@[i]).wf(),
            bg.wf(),
            forall|q: int|
                0 <= q < p ==> #[trigger] out@[q] == spec_composite(pixels@[q]@, bg)
                    && out@[q].wf(),
        decreases pixels@.len() - p,
    {
        let px = composite_pixel(&pixels[p], bg);
        out.push(px);
        p = p + 1;
    }
    out
}

} // verus!
