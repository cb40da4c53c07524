//! Integer planning for the vision encoder: the configuration, the square
//! position-embedding grid, the patch grid of an image, position ids, and
//! the grid-aligned target sizes an image is resized to.

use vstd::prelude::*;

use crate::text::{chars_of, decimal, decimal_chars, extend_chars, string_from_chars};

verus! {

/// The vision tower's configuration (as read from `config.json`).
#[derive(Debug, Clone)]
pub struct VisionConfig {
    pub depth: usize,
    pub hidden_size: usize,
    pub intermediate_size: usize,
    pub num_heads: usize,
    pub in_channels: usize,
    pub patch_size: usize,
    pub temporal_patch_size: usize,
    pub num_position_embeddings: usize,
    pub spatial_merge_size: usize,
    pub out_hidden_size: usize,
    pub deepstack_visual_indexes: Option<Vec<usize>>,
}

/// Why an image cannot be encoded at its size.
#[derive(Debug, Clone, Copy, PartialEq, Eq, Structural)]
pub enum VisionError {
    /// The number of position embeddings is not a perfect square.
    PositionTableNotSquare { num_position_embeddings: usize },
    /// The `hp x wp` patch grid is smaller than the spatial merge size
    /// `merge`.
    ImageTooSmall { merge: usize, hp: usize, wp: usize },
    /// The cropped `hp x wp` grid has more visual tokens than the `max`
    /// position embeddings.
    TooManyVisualTokens { tokens: usize, hp: usize, wp: usize, max: usize },
    /// The `hp x wp` patch grid is wider or taller than the `base x base`
    /// position grid.
    GridExceedsPositionTable { hp: usize, wp: usize, base: usize },
    /// The requested fixed side differs from the side the NPU model takes.
    FixedSideMismatch { requested: u32, rknn: u32 },
}

/// The description of a vision error.
pub open spec fn vision_error_text(e: VisionError) -> Seq<char> {
    match e {
        VisionError::PositionTableNotSquare { num_position_embeddings: n } => "num_position_embeddings "@
            + decimal(n as nat) + " is not a square"@,
        VisionError::ImageTooSmall { merge, hp, wp } => "image too small for spatial_merge_size "@
            + decimal(merge as nat) + ": patch grid "@ + decimal(hp as nat) + seq!['x'] + decimal(
            wp as nat,
        ) + " (try larger image)"@,
        VisionError::TooManyVisualTokens { tokens, hp, wp, max } => "too many visual tokens: "@
            + decimal(tokens as nat) + " ("@ + decimal(hp as nat) + seq!['x'] + decimal(wp as nat)
            + "), max is "@ + decimal(max as nat) + " (try smaller image)"@,
        VisionError::GridExceedsPositionTable { hp, wp, base } => "patch grid "@ + decimal(hp as nat)
            + seq!['x'] + decimal(wp as nat) + " exceeds base "@ + decimal(base as nat) + seq!['x']
            + decimal(base as nat) + " (resize image smaller)"@,
        VisionError::FixedSideMismatch { requested, rknn } => "vision_fixed_side "@ + decimal(
            requested as nat,
        ) + " does not match rknn input side "@ + decimal(rknn as nat),
    }
}

fn push_decimal(v: &mut Vec<char>, n: u64)
    ensures
        final(v)@ == old(v)@ + decimal(n as nat),
{
    extend_chars(v, &decimal_chars(n));
}

fn push_str(v: &mut Vec<char>, s: &str)
    ensures
        final(v)@ == old(v)@ + s@,
{
    extend_chars(v, &chars_of(s));
}

impl VisionError {
    /// The human-readable description of the error.
    pub fn message(&self) -> (r: String)
        ensures
            r@ == vision_error_text(*self),
    {
        let mut v: Vec<char> = Vec::new();
        match *self {
            VisionError::PositionTableNotSquare { num_position_embeddings: n } => {
                push_str(&mut v, "num_position_embeddings ");
                push_decimal(&mut v, n as u64);
                push_str(&mut v, " is not a square");
            },
            VisionError::ImageTooSmall { merge, hp, wp } => {
                push_str(&mut v, "image too small for spatial_merge_size ");
                push_decimal(&mut v, merge as u64);
                push_str(&mut v, ": patch grid ");
                push_decimal(&mut v, hp as u64);
                v.push('x');
                push_decimal(&mut v, wp as u64);
                push_str(&mut v, " (try larger image)");
            },
            VisionError::TooManyVisualTokens { tokens, hp, wp, max } => {
                push_str(&mut v, "too many visual tokens: ");
                push_decimal(&mut v, tokens as u64);
                push_str(&mut v, " (");
                push_decimal(&mut v, hp as u64);
                v.push('x');
                push_decimal(&mut v, wp as u64);
                push_str(&mut v, "), max is ");
                push_decimal(&mut v, max as u64);
                push_str(&mut v, " (try smaller image)");
            },
            VisionError::GridExceedsPositionTable { hp, wp, base } => {
                push_str(&mut v, "patch grid ");
                push_decimal(&mut v, hp as u64);
                v.push('x');
                push_decimal(&mut v, wp as u64);
                push_str(&mut v, " exceeds base ");
                push_decimal(&mut v, base as u64);
                v.push('x');
                push_decimal(&mut v, base as u64);
                push_str(&mut v, " (resize image smaller)");
            },
            VisionError::FixedSideMismatch { requested, rknn } => {
                push_str(&mut v, "vision_fixed_side ");
                push_decimal(&mut v, requested as u64);
                push_str(&mut v, " does not match rknn input side ");
                push_decimal(&mut v, rknn as u64);
            },
        }
        assert(v@ =~= vision_error_text(*self));
        string_from_chars(v.as_slice())
    }
}

/// The side of the square position grid, if `n` is a perfect square.
pub open spec fn square_side_spec(n: nat) -> Option<nat> {
    if exists|s: nat| #[trigger] square(s) == n {
        Some(choose|s: nat| #[trigger] square(s) == n)
    } else {
        None
    }
}

pub open spec fn square(s: nat) -> nat {
    s * s
}

proof fn lemma_square_unique(s: nat, t: nat)
    requires
        s * s == t * t,
    ensures
        s == t,
{
    if s < t {
        assert(s * s < t * t) by (nonlinear_arith)
            requires
                s < t,
        ;
    } else if t < s {
        assert(t * t < s * s) by (nonlinear_arith)
            requires
                t < s,
        ;
    }
}

proof fn lemma_div_bound(a: int, n: int)
    requires
        a > 0,
        n >= 0,
    ensures
        (a <= n / a) <==> (a * a <= n),
{
    vstd::arithmetic::div_mod::lemma_fundamental_div_mod(n, a);
    vstd::arithmetic::div_mod::lemma_mod_bound(n, a);
    let q = n / a;
    let r = n % a;
    if a <= q {
        assert(a * a <= a * q) by (nonlinear_arith)
            requires
                a <= q,
                a > 0,
        ;
    }
    if a * a <= n && q < a {
        assert(a * q <= a * (a - 1)) by (nonlinear_arith)
            requires
                q <= a - 1,
                a > 0,
        ;
        assert(a * (a - 1) + a == a * a) by (nonlinear_arith);
    }
}

/// The exact integer square root of `n`, if there is one.
pub fn square_side(n: usize) -> (r: Option<usize>)
    ensures
        match r {
            Some(s) => square_side_spec(n as nat) == Some(s as nat) && s * s == n,
            None => square_side_spec(n as nat) is None,
        },
{
    let mut s: usize = 0;
    proof {
        lemma_div_bound(1, n as int);
    }
    while s < n && s + 1 <= n / (s + 1)
        invariant
            s * s <= n,
            s <= n,
        decreases n - s,
    {
        proof {
            lemma_div_bound(s + 1, n as int);
        }
        s = s + 1;
    }
    proof {
        lemma_div_bound(s + 1, n as int);
        if s == n {
            assert(n < (s + 1) * (s + 1)) by (nonlinear_arith)
                requires
                    s == n,
                    n >= 0,
            ;
        }
        assert(n < (s + 1) * (s + 1));
    }
    if s * s == n {
        proof {
            assert forall|t: nat| #[trigger] square(t) == n implies t == s by {
                lemma_square_unique(t, s as nat);
            }
            assert(square(s as nat) == n as nat);
            let c = choose|t: nat| #[trigger] square(t) == n as nat;
            assert(c == s);
        }
        Some(s)
    } else {
        proof {
            assert forall|t: nat| #[trigger] square(t) != n as nat by {
                if t <= s {
                    if t < s {
                        assert(t * t < s * s) by (nonlinear_arith)
                            requires
                                t < s,
                        ;
                    }
                } else {
                    assert(t * t >= (s + 1) * (s + 1)) by (nonlinear_arith)
                        requires
                            t >= s + 1,
                    ;
                }
            }
        }
        None
    }
}

} // verus!

verus! {

/// The patch grid an image of `hp0 x wp0` patches is cropped to: both sides
/// cut down to multiples of the merge size `m` (at least 1). Fails when a
/// side is smaller than `m`, or when the grid holds more patches than there
/// are position embeddings.
pub open spec fn patch_grid_spec(hp0: nat, wp0: nat, merge: nat, num_pos: nat) -> Result<
    (nat, nat),
    VisionError,
> {
    let m = if merge >= 1 {
        merge
    } else {
        1nat
    };
    if hp0 < m || wp0 < m {
        Err(VisionError::ImageTooSmall { merge: m as usize, hp: hp0 as usize, wp: wp0 as usize })
    } else {
        let hp = hp0 / m * m;
        let wp = wp0 / m * m;
        if hp * wp > num_pos {
            Err(
                VisionError::TooManyVisualTokens {
                    tokens: (hp * wp) as usize,
                    hp: hp as usize,
                    wp: wp as usize,
                    max: num_pos as usize,
                },
            )
        } else {
            Ok((hp, wp))
        }
    }
}

/// Crops a patch grid for spatial merging (see [`patch_grid_spec`]).
pub fn patch_grid(hp0: usize, wp0: usize, spatial_merge_size: usize, num_position_embeddings: usize) -> (r:
    Result<(usize, usize), VisionError>)
    requires
        hp0 * wp0 <= usize::MAX,
    ensures
        match patch_grid_spec(
            hp0 as nat,
            wp0 as nat,
            spatial_merge_size as nat,
            num_position_embeddings as nat,
        ) {
            Ok((hp, wp)) => r == Ok::<(usize, usize), VisionError>((hp as usize, wp as usize)),
            Err(e) => r == Err::<(usize, usize), VisionError>(e),
        },
{
    let m = if spatial_merge_size >= 1 {
        spatial_merge_size
    } else {
        1
    };
    if hp0 < m || wp0 < m {
        return Err(VisionError::ImageTooSmall { merge: m, hp: hp0, wp: wp0 });
    }
    let qh = hp0 / m;
    let qw = wp0 / m;
    proof {
        vstd::arithmetic::div_mod::lemma_fundamental_div_mod(hp0 as int, m as int);
        vstd::arithmetic::div_mod::lemma_fundamental_div_mod(wp0 as int, m as int);
        vstd::arithmetic::div_mod::lemma_mod_bound(hp0 as int, m as int);
        vstd::arithmetic::div_mod::lemma_mod_bound(wp0 as int, m as int);
        assert(qh * m <= hp0) by (nonlinear_arith)
            requires
                hp0 == m * qh + hp0 % m,
                hp0 % m >= 0,
        ;
        assert(qw * m <= wp0) by (nonlinear_arith)
            requires
                wp0 == m * qw + wp0 % m,
                wp0 % m >= 0,
        ;
    }
    let hp = qh * m;
    let wp = qw * m;
    assert(hp * wp <= hp0 * wp0) by (nonlinear_arith)
        requires
            hp <= hp0,
            wp <= wp0,
    ;
    if hp * wp > num_position_embeddings {
        return Err(
            VisionError::TooManyVisualTokens { tokens: hp * wp, hp, wp, max: num_position_embeddings },
        );
    }
    Ok((hp, wp))
}

/// The position ids of an `hp x wp` patch grid in a square position table
/// of side `base`: row-major, patch `(r, c)` taking id `r * base + c`.
pub open spec fn position_ids_spec(hp: nat, wp: nat, base: nat) -> Seq<u32> {
    Seq::new(hp * wp, |k: int| ((k / wp as int) * base + k % wp as int) as u32)
}

/// The id a row-major list of ids over a grid `wp` wide gives the patch in
/// row `row`, column `col`.
pub open spec fn patch_at(ids: Seq<u32>, wp: int, row: int, col: int) -> u32 {
    ids[row * wp + col]
}

/// Law of position ids: in an `hp x wp` patch grid that fits a
/// `base x base` position table (whose ids fit in `u32`), the patch in row
/// `r`, column `c` takes the table's entry in row `r`, column `c`: id
/// `r * base + c`, so its row is `id / base` and its column `id % base`.
pub proof fn lemma_position_id_of_patch(hp: nat, wp: nat, base: nat, r: nat, c: nat)
    requires
        r < hp,
        c < wp,
        hp <= base,
        wp <= base,
        base * base <= u32::MAX,
    ensures
        position_ids_spec(hp, wp, base).len() == hp * wp,
        0 <= r * wp + c < hp * wp,
        patch_at(position_ids_spec(hp, wp, base), wp as int, r as int, c as int) == r * base + c,
        (r * base + c) / base == r,
        (r * base + c) % base == c,
{
    let k = r * wp + c;
    assert(k < hp * wp) by (nonlinear_arith)
        requires
            k == r * wp + c,
            r < hp,
            c < wp,
    ;
    vstd::arithmetic::div_mod::lemma_fundamental_div_mod_converse(k as int, wp as int, r as int, c as int);
    vstd::arithmetic::div_mod::lemma_fundamental_div_mod_converse(
        (r * base + c) as int,
        base as int,
        r as int,
        c as int,
    );
    assert(r * base + c < base * base) by (nonlinear_arith)
        requires
            r < hp,
            hp <= base,
            c < wp,
            wp <= base,
    ;
}

/// The position ids of an `hp x wp` patch grid: the table of
/// `num_position_embeddings` entries must be square and at least as wide
/// and tall as the grid.
pub fn position_ids(hp: usize, wp: usize, num_position_embeddings: usize) -> (r: Result<
    Vec<u32>,
    VisionError,
>)
    ensures
        match square_side_spec(num_position_embeddings as nat) {
            None => r == Err::<Vec<u32>, VisionError>(
                VisionError::PositionTableNotSquare { num_position_embeddings },
            ),
            Some(base) => if hp > base || wp > base {
                r == Err::<Vec<u32>, VisionError>(
                    VisionError::GridExceedsPositionTable { hp, wp, base: base as usize },
                )
            } else {
                r matches Ok(ids) && ids@ == position_ids_spec(hp as nat, wp as nat, base)
            },
        },
        r matches Ok(ids) ==> ids@.len() == hp * wp && (num_position_embeddings <= u32::MAX ==> forall|
            row: int,
            col: int,
        |
            0 <= row < hp && 0 <= col < wp ==> #[trigger] patch_at(ids@, wp as int, row, col) == row
                * (square_side_spec(num_position_embeddings as nat)->Some_0) + col),
{
    let base = match square_side(num_position_embeddings) {
        Some(b) => b,
        None => return Err(VisionError::PositionTableNotSquare { num_position_embeddings }),
    };
    if hp > base || wp > base {
        return Err(VisionError::GridExceedsPositionTable { hp, wp, base });
    }
    let ghost target = position_ids_spec(hp as nat, wp as nat, base as nat);
    let mut ids: Vec<u32> = Vec::new();
    let mut r: usize = 0;
    while r < hp
        invariant
            0 <= r <= hp,
            hp <= base,
            wp <= base,
            base * base == num_position_embeddings,
            target == position_ids_spec(hp as nat, wp as nat, base as nat),
            ids@ == target.take(r * wp),
            r * wp <= hp * wp,
        decreases hp - r,
    {
        let mut c: usize = 0;
        while c < wp
            invariant
                0 <= r < hp,
                0 <= c <= wp,
                hp <= base,
                wp <= base,
                base * base == num_position_embeddings,
                target == position_ids_spec(hp as nat, wp as nat, base as nat),
                ids@ == target.take(r * wp + c),
                r * wp + c <= hp * wp,
            decreases wp - c,
        {
            assert(r * base + c <= base * base) by (nonlinear_arith)
                requires
                    r < hp,
                    hp <= base,
                    c < wp,
                    wp <= base,
            ;
            let id = (r * base + c) as u32;
            proof {
                let k = r * wp + c;
                assert(k < hp * wp) by (nonlinear_arith)
                    requires
                        k == r * wp + c,
                        r < hp,
                        c < wp,
                ;
                vstd::arithmetic::div_mod::lemma_fundamental_div_mod_converse(
                    k as int,
                    wp as int,
                    r as int,
                    c as int,
                );
                assert(target[k as int] == id);
                assert(target.take(k + 1) =~= target.take(k as int).push(id));
            }
            ids.push(id);
            c = c + 1;
            assert(r * wp + c <= hp * wp) by (nonlinear_arith)
                requires
                    r < hp,
                    c <= wp,
            ;
        }
        r = r + 1;
        assert(r * wp == (r - 1) * wp + wp) by (nonlinear_arith);
        assert(r * wp <= hp * wp) by (nonlinear_arith)
            requires
                r <= hp,
        ;
    }
    assert(target.take(hp * wp) =~= target);
    proof {
        if num_position_embeddings <= u32::MAX {
            assert forall|row: int, col: int| 0 <= row < hp && 0 <= col < wp implies #[trigger] patch_at(
                ids@,
                wp as int,
                row,
                col,
            ) == row * (square_side_spec(num_position_embeddings as nat)->Some_0) + col by {
                lemma_position_id_of_patch(hp as nat, wp as nat, base as nat, row as nat, col as nat);
            }
        }
    }
    Ok(ids)
}

} // verus!

verus! {

/// The bounds an image is resized within before vision encoding.
#[derive(Debug, Clone, Copy, PartialEq, Eq, Structural)]
pub struct ResizeLimits {
    /// Sides are multiples of this: `patch_size * spatial_merge_size`.
    pub factor: u32,
    /// The fewest pixels: four `factor x factor` blocks.
    pub min_pixels: u64,
    /// The most pixels: one patch per position embedding.
    pub max_pixels: u64,
    /// The longest side: the position grid's side in pixels, or a smaller
    /// positive override.
    pub max_side_pixels: u32,
}

/// The resize bounds for a vision configuration (see [`ResizeLimits`]);
/// fails when the position table is not square.
pub open spec fn resize_limits_spec(patch: nat, merge: nat, num_pos: nat, max_side_override: Option<
    u32,
>) -> Result<ResizeLimits, VisionError> {
    let f = if patch * merge >= 1 {
        patch * merge
    } else {
        1nat
    };
    match square_side_spec(num_pos) {
        None => Err(VisionError::PositionTableNotSquare { num_position_embeddings: num_pos as usize }),
        Some(base) => {
            let default_side = base * patch;
            let max_side = match max_side_override {
                Some(v) => if v > 0 && v < default_side {
                    v as nat
                } else {
                    default_side
                },
                None => default_side,
            };
            Ok(
                ResizeLimits {
                    factor: f as u32,
                    min_pixels: (4 * f * f) as u64,
                    max_pixels: (num_pos * patch * patch) as u64,
                    max_side_pixels: max_side as u32,
                },
            )
        },
    }
}

/// Computes the resize bounds.
pub fn resize_limits(
    patch_size: usize,
    spatial_merge_size: usize,
    num_position_embeddings: usize,
    max_side_override: Option<u32>,
) -> (r: Result<ResizeLimits, VisionError>)
    requires
        patch_size * spatial_merge_size <= 0x7fff_ffff,
        num_position_embeddings * patch_size * patch_size <= u64::MAX,
        num_position_embeddings <= u32::MAX,
        square_side_spec(num_position_embeddings as nat) matches Some(b) ==> b * patch_size
            <= u32::MAX,
    ensures
        r == resize_limits_spec(
            patch_size as nat,
            spatial_merge_size as nat,
            num_position_embeddings as nat,
            max_side_override,
        ),
{
    let pm = patch_size * spatial_merge_size;
    let f: u32 = if pm >= 1 {
        pm as u32
    } else {
        1
    };
    let fw = f as u64;
    assert(fw * fw <= 0x7fff_ffff * 0x7fff_ffff) by (nonlinear_arith)
        requires
            fw <= 0x7fff_ffff,
    ;
    assert(4 * fw * fw <= u64::MAX) by (nonlinear_arith)
        requires
            fw <= 0x7fff_ffff,
    ;
    let min_pixels: u64 = 4 * fw * fw;
    let pw = patch_size as u64;
    assert((num_position_embeddings as u64) * pw <= u64::MAX) by (nonlinear_arith)
        requires
            num_position_embeddings * patch_size * patch_size <= u64::MAX,
            pw == patch_size,
    {
        if patch_size > 0 {
            assert(num_position_embeddings * patch_size <= num_position_embeddings * patch_size
                * patch_size);
        }
    }
    let max_pixels: u64 = (num_position_embeddings as u64) * pw * pw;
    let base = match square_side(num_position_embeddings) {
        Some(b) => b,
        None => return Err(VisionError::PositionTableNotSquare { num_position_embeddings }),
    };
    let default_side: u32 = ((base as u64) * pw) as u32;
    let max_side: u32 = match max_side_override {
        Some(v) => if v > 0 && v < default_side {
            v
        } else {
            default_side
        },
        None => default_side,
    };
    Ok(ResizeLimits { factor: f, min_pixels, max_pixels, max_side_pixels: max_side })
}

/// `x` rounded down to a multiple of `f`, but at least `f`.
pub open spec fn align_down(x: nat, f: nat) -> nat {
    if x / f >= 1 {
        x / f * f
    } else {
        f
    }
}

/// The loop that shrinks both sides by `f` while the area is over `max`
/// and both sides are still longer than `f`.
pub open spec fn shrink_to_area(th: nat, tw: nat, f: nat, max: nat) -> (nat, nat)
    decreases th,
{
    if f > 0 && th * tw > max && th > f && tw > f {
        shrink_to_area((th - f) as nat, (tw - f) as nat, f, max)
    } else {
        (th, tw)
    }
}

/// The final resize target from a scaled size `th x tw`: both sides aligned
/// down to the factor (at least one factor), then shrunk together while the
/// area exceeds the smaller of `max_pixels` and the square of the longest
/// side.
pub open spec fn aligned_target_spec(th: nat, tw: nat, limits: ResizeLimits) -> (nat, nat) {
    let f = limits.factor as nat;
    let cap = (limits.max_side_pixels * limits.max_side_pixels) as nat;
    let max = if limits.max_pixels < cap {
        limits.max_pixels as nat
    } else {
        cap
    };
    shrink_to_area(align_down(th, f), align_down(tw, f), f, max)
}

proof fn lemma_align_down(x: nat, f: nat)
    requires
        f > 0,
    ensures
        align_down(x, f) >= f,
        align_down(x, f) % f == 0,
        x >= f ==> align_down(x, f) <= x,
{
    vstd::arithmetic::div_mod::lemma_fundamental_div_mod(x as int, f as int);
    vstd::arithmetic::div_mod::lemma_mod_bound(x as int, f as int);
    let q = x / f;
    if q >= 1 {
        assert(q * f >= f) by (nonlinear_arith)
            requires
                q >= 1,
                f > 0,
        ;
        vstd::arithmetic::div_mod::lemma_mod_multiples_basic(q as int, f as int);
        assert(q * f <= x) by (nonlinear_arith)
            requires
                x == f * q + x % f,
                x % f >= 0,
        ;
    } else {
        vstd::arithmetic::div_mod::lemma_mod_self_0(f as int);
    }
}

proof fn lemma_shrink_multiples(th: nat, tw: nat, f: nat, max: nat)
    requires
        f > 0,
        th >= f,
        tw >= f,
        th % f == 0,
        tw % f == 0,
    ensures
        shrink_to_area(th, tw, f, max).0 >= f,
        shrink_to_area(th, tw, f, max).1 >= f,
        shrink_to_area(th, tw, f, max).0 % f == 0,
        shrink_to_area(th, tw, f, max).1 % f == 0,
    decreases th,
{
    if th * tw > max && th > f && tw > f {
        vstd::arithmetic::div_mod::lemma_mod_sub_multiples_vanish(th as int, f as int);
        vstd::arithmetic::div_mod::lemma_mod_sub_multiples_vanish(tw as int, f as int);
        assert(th >= 2 * f) by {
            vstd::arithmetic::div_mod::lemma_fundamental_div_mod(th as int, f as int);
            assert(th / f >= 2) by (nonlinear_arith)
                requires
                    th == f * (th / f),
                    th > f,
                    f > 0,
            ;
            assert(f * (th / f) >= 2 * f) by (nonlinear_arith)
                requires
                    th / f >= 2,
                    f > 0,
            ;
        }
        assert(tw >= 2 * f) by {
            vstd::arithmetic::div_mod::lemma_fundamental_div_mod(tw as int, f as int);
            assert(tw / f >= 2) by (nonlinear_arith)
                requires
                    tw == f * (tw / f),
                    tw > f,
                    f > 0,
            ;
            assert(f * (tw / f) >= 2 * f) by (nonlinear_arith)
                requires
                    tw / f >= 2,
                    f > 0,
            ;
        }
        lemma_shrink_multiples((th - f) as nat, (tw - f) as nat, f, max);
    }
}

/// Law of image resizing: the target sides are positive multiples of the
/// factor `patch_size * spatial_merge_size`, so the patch grid divides by
/// the merge size and the encoder never crops the image.
pub proof fn lemma_aligned_target_is_grid_multiple(th: nat, tw: nat, limits: ResizeLimits)
    requires
        limits.factor > 0,
    ensures
        ({
            let (h, w) = aligned_target_spec(th, tw, limits);
            &&& h >= limits.factor && w >= limits.factor
            &&& h % (limits.factor as nat) == 0 && w % (limits.factor as nat) == 0
        }),
{
    let f = limits.factor as nat;
    lemma_align_down(th, f);
    lemma_align_down(tw, f);
    let cap = (limits.max_side_pixels * limits.max_side_pixels) as nat;
    let max = if limits.max_pixels < cap {
        limits.max_pixels as nat
    } else {
        cap
    };
    lemma_shrink_multiples(align_down(th, f), align_down(tw, f), f, max);
}

/// Aligns a scaled size to the resize grid (see [`aligned_target_spec`]).
pub fn aligned_target(th: u32, tw: u32, limits: ResizeLimits) -> (r: (u32, u32))
    requires
        limits.factor > 0,
    ensures
        (r.0 as nat, r.1 as nat) == aligned_target_spec(th as nat, tw as nat, limits),
{
    let f = limits.factor;
    proof {
        lemma_align_down(th as nat, f as nat);
        lemma_align_down(tw as nat, f as nat);
        vstd::arithmetic::div_mod::lemma_fundamental_div_mod(th as int, f as int);
        vstd::arithmetic::div_mod::lemma_fundamental_div_mod(tw as int, f as int);
        vstd::arithmetic::div_mod::lemma_mod_bound(th as int, f as int);
        vstd::arithmetic::div_mod::lemma_mod_bound(tw as int, f as int);
        assert((th / f) * f <= th) by (nonlinear_arith)
            requires
                th == f * (th / f) + th % f,
                th % f >= 0,
        ;
        assert((tw / f) * f <= tw) by (nonlinear_arith)
            requires
                tw == f * (tw / f) + tw % f,
                tw % f >= 0,
        ;
    }
    let mut h: u32 = if th / f >= 1 {
        th / f * f
    } else {
        f
    };
    let mut w: u32 = if tw / f >= 1 {
        tw / f * f
    } else {
        f
    };
    let side = limits.max_side_pixels as u64;
    assert(side * side <= u64::MAX) by (nonlinear_arith)
        requires
            side <= u32::MAX,
    ;
    let cap: u64 = side * side;
    let max: u64 = if limits.max_pixels < cap {
        limits.max_pixels
    } else {
        cap
    };
    assert(cap as nat == (limits.max_side_pixels * limits.max_side_pixels) as nat);
    let ghost target = aligned_target_spec(th as nat, tw as nat, limits);
    assert((h as u64) * (w as u64) <= u64::MAX) by (nonlinear_arith)
        requires
            h <= u32::MAX,
            w <= u32::MAX,
    ;
    while (h as u64) * (w as u64) > max && h > f && w > f
        invariant
            f == limits.factor,
            f > 0,
            shrink_to_area(h as nat, w as nat, f as nat, max as nat) == target,
            (h as u64) * (w as u64) <= u64::MAX,
        decreases h,
    {
        h = h - f;
        w = w - f;
        assert((h as u64) * (w as u64) <= u64::MAX) by (nonlinear_arith)
            requires
                h <= u32::MAX,
                w <= u32::MAX,
        ;
    }
    (h, w)
}

/// The side of the fixed square canvas for static-shape backends: the
/// requested side, at most the position grid's side in pixels and at least
/// one factor, aligned down to the factor. Fails when the position table
/// is not square.
pub open spec fn fixed_square_side_spec(fixed_side: nat, patch: nat, merge: nat, num_pos: nat) -> Result<
    nat,
    VisionError,
> {
    let f = if patch * merge >= 1 {
        patch * merge
    } else {
        1nat
    };
    match square_side_spec(num_pos) {
        None => Err(VisionError::PositionTableNotSquare { num_position_embeddings: num_pos as usize }),
        Some(base) => {
            let max_side = base * patch;
            let s1 = if fixed_side < max_side {
                fixed_side
            } else {
                max_side
            };
            let s2 = if s1 > f {
                s1
            } else {
                f
            };
            Ok(align_down(s2, f))
        },
    }
}

/// Computes the fixed square side.
pub fn fixed_square_side(
    fixed_side: u32,
    patch_size: usize,
    spatial_merge_size: usize,
    num_position_embeddings: usize,
) -> (r: Result<u32, VisionError>)
    requires
        patch_size * spatial_merge_size <= u32::MAX,
        num_position_embeddings <= u32::MAX,
        square_side_spec(num_position_embeddings as nat) matches Some(b) ==> b * patch_size
            <= u32::MAX,
    ensures
        match fixed_square_side_spec(
            fixed_side as nat,
            patch_size as nat,
            spatial_merge_size as nat,
            num_position_embeddings as nat,
        ) {
            Ok(s) => r == Ok::<u32, VisionError>(s as u32),
            Err(e) => r == Err::<u32, VisionError>(e),
        },
{
    let pm = patch_size * spatial_merge_size;
    let f: u32 = if pm >= 1 {
        pm as u32
    } else {
        1
    };
    let base = match square_side(num_position_embeddings) {
        Some(b) => b,
        None => return Err(VisionError::PositionTableNotSquare { num_position_embeddings }),
    };
    let max_side: u32 = ((base as u64) * (patch_size as u64)) as u32;
    let s1 = if fixed_side < max_side {
        fixed_side
    } else {
        max_side
    };
    let s2 = if s1 > f {
        s1
    } else {
        f
    };
    proof {
        vstd::arithmetic::div_mod::lemma_fundamental_div_mod(s2 as int, f as int);
        vstd::arithmetic::div_mod::lemma_mod_bound(s2 as int, f as int);
        assert((s2 / f) * f <= s2) by (nonlinear_arith)
            requires
                s2 == f * (s2 / f) + s2 % f,
                s2 % f >= 0,
        ;
    }
    let side = if s2 / f >= 1 {
        s2 / f * f
    } else {
        f
    };
    Ok(side)
}

/// The fixed image side to use: the NPU model's side when it runs the
/// vision encoder (a requested side must then agree with it), else the
/// requested side, if any.
pub fn resolve_fixed_side(rknn_side: Option<u32>, requested_side: Option<u32>) -> (r: Result<
    Option<u32>,
    VisionError,
>)
    ensures
        match (rknn_side, requested_side) {
            (Some(s), Some(u)) => if s == u {
                r == Ok::<Option<u32>, VisionError>(Some(s))
            } else {
                r == Err::<Option<u32>, VisionError>(
                    VisionError::FixedSideMismatch { requested: u, rknn: s },
                )
            },
            (Some(s), None) => r == Ok::<Option<u32>, VisionError>(Some(s)),
            (None, u) => r == Ok::<Option<u32>, VisionError>(u),
        },
{
    match rknn_side {
        Some(s) => {
            if let Some(u) = requested_side {
                if u != s {
                    return Err(VisionError::FixedSideMismatch { requested: u, rknn: s });
                }
            }
            Ok(Some(s))
        },
        None => Ok(requested_side),
    }
}

} // verus!

verus! {

/// A side that is a multiple of `patch * merge` (and at least that) spans a
/// whole number of patches, itself a positive multiple of `merge`.
proof fn lemma_side_patches(side: nat, patch: nat, merge: nat)
    requires
        patch >= 1,
        merge >= 1,
        side >= patch * merge,
        side % (patch * merge) == 0,
    ensures
        side % patch == 0,
        side / patch >= merge,
        (side / patch) % merge == 0,
        (side / patch) / merge * merge == side / patch,
{
    let f = patch * merge;
    assert(f >= 1) by (nonlinear_arith)
        requires
            patch >= 1,
            merge >= 1,
            f == patch * merge,
    ;
    let a = side / f;
    vstd::arithmetic::div_mod::lemma_fundamental_div_mod(side as int, f as int);
    assert(side == f * a);
    let q = a * merge;
    assert(side == patch * q) by (nonlinear_arith)
        requires
            side == f * a,
            f == patch * merge,
            q == a * merge,
    ;
    vstd::arithmetic::div_mod::lemma_div_multiples_vanish(q as int, patch as int);
    vstd::arithmetic::div_mod::lemma_mod_multiples_basic(q as int, patch as int);
    assert(patch * q == q * patch) by (nonlinear_arith);
    assert(side / patch == q);
    assert(a >= 1) by (nonlinear_arith)
        requires
            side == f * a,
            side >= f,
            f >= 1,
    ;
    assert(q >= merge) by (nonlinear_arith)
        requires
            a >= 1,
            merge >= 1,
            q == a * merge,
    ;
    vstd::arithmetic::div_mod::lemma_mod_multiples_basic(a as int, merge as int);
    vstd::arithmetic::div_mod::lemma_div_multiples_vanish(a as int, merge as int);
    assert(merge * a == a * merge) by (nonlinear_arith);
}

/// Law of image resizing and encoding: an image resized to the aligned
/// target (whose area is within the position table's capacity) has a patch
/// grid that the encoder takes whole: no row or column of patches is
/// cropped for spatial merging, and the visual tokens fit the position
/// table.
pub proof fn lemma_resized_image_not_cropped(
    patch: nat,
    merge: nat,
    num_pos: nat,
    max_side_override: Option<u32>,
    th: nat,
    tw: nat,
)
    requires
        patch >= 1,
        merge >= 1,
        resize_limits_spec(patch, merge, num_pos, max_side_override) is Ok,
        ({
            let limits = resize_limits_spec(patch, merge, num_pos, max_side_override)->Ok_0;
            let (h, w) = aligned_target_spec(th, tw, limits);
            &&& limits.factor == patch * merge
            &&& limits.max_pixels == num_pos * patch * patch
            &&& h * w <= limits.max_pixels
        }),
    ensures
        ({
            let limits = resize_limits_spec(patch, merge, num_pos, max_side_override)->Ok_0;
            let (h, w) = aligned_target_spec(th, tw, limits);
            patch_grid_spec(h / patch, w / patch, merge, num_pos) == Ok::<(nat, nat), VisionError>(
                (h / patch, w / patch),
            )
        }),
{
    let limits = resize_limits_spec(patch, merge, num_pos, max_side_override)->Ok_0;
    let (h, w) = aligned_target_spec(th, tw, limits);
    lemma_aligned_target_is_grid_multiple(th, tw, limits);
    lemma_side_patches(h, patch, merge);
    lemma_side_patches(w, patch, merge);
    let hp = h / patch;
    let wp = w / patch;
    vstd::arithmetic::div_mod::lemma_fundamental_div_mod(h as int, patch as int);
    vstd::arithmetic::div_mod::lemma_fundamental_div_mod(w as int, patch as int);
    assert(h == patch * hp);
    assert(w == patch * wp);
    assert(hp * wp <= num_pos) by (nonlinear_arith)
        requires
            h == patch * hp,
            w == patch * wp,
            h * w <= num_pos * patch * patch,
            patch >= 1,
    {
        assert(h * w == (hp * wp) * (patch * patch));
        if hp * wp > num_pos {
            assert((hp * wp) * (patch * patch) > num_pos * (patch * patch));
        }
    }
}

/// Law of the fixed square side: when the position grid is at least one
/// merge block wide, an image letterboxed to the fixed side has a patch
/// grid that the encoder takes whole, with no cropping and within the
/// position table.
pub proof fn lemma_fixed_side_not_cropped(fixed_side: nat, patch: nat, merge: nat, num_pos: nat)
    requires
        patch >= 1,
        merge >= 1,
        fixed_square_side_spec(fixed_side, patch, merge, num_pos) is Ok,
        square_side_spec(num_pos) matches Some(base) && base >= merge,
    ensures
        ({
            let s = fixed_square_side_spec(fixed_side, patch, merge, num_pos)->Ok_0;
            &&& s % (patch * merge) == 0
            &&& patch_grid_spec(s / patch, s / patch, merge, num_pos) == Ok::<
                (nat, nat),
                VisionError,
            >((s / patch, s / patch))
        }),
{
    let f = patch * merge;
    let base = square_side_spec(num_pos)->Some_0;
    let s = fixed_square_side_spec(fixed_side, patch, merge, num_pos)->Ok_0;
    assert(f >= 1) by (nonlinear_arith)
        requires
            patch >= 1,
            merge >= 1,
            f == patch * merge,
    ;
    let max_side = base * patch;
    assert(max_side >= f) by (nonlinear_arith)
        requires
            base >= merge,
            patch >= 1,
            max_side == base * patch,
            f == patch * merge,
    ;
    let s1 = if fixed_side < max_side {
        fixed_side
    } else {
        max_side
    };
    let s2 = if s1 > f {
        s1
    } else {
        f
    };
    assert(s == align_down(s2, f));
    lemma_align_down(s2, f);
    assert(s <= max_side);
    lemma_side_patches(s, patch, merge);
    let sp = s / patch;
    vstd::arithmetic::div_mod::lemma_fundamental_div_mod(s as int, patch as int);
    assert(s == patch * sp);
    assert(sp <= base) by (nonlinear_arith)
        requires
            s == patch * sp,
            s <= base * patch,
            patch >= 1,
    ;
    assert(square(base) == num_pos);
    assert(sp * sp <= num_pos) by (nonlinear_arith)
        requires
            sp <= base,
            base * base == num_pos,
    ;
}

/// Law of the patch grid: the grid the encoder keeps is within the image's
/// grid, holds at least one merge block each way, divides into `merge x
/// merge` blocks (so spatial merging accepts it) and fits the position
/// table.
pub proof fn lemma_patch_grid_mergeable(hp0: nat, wp0: nat, merge: nat, num_pos: nat)
    requires
        merge >= 1,
    ensures
        patch_grid_spec(hp0, wp0, merge, num_pos) matches Ok((hp, wp)) ==> {
            &&& merge <= hp <= hp0 < hp + merge
            &&& merge <= wp <= wp0 < wp + merge
            &&& hp % merge == 0
            &&& wp % merge == 0
            &&& hp * wp <= num_pos
        },
        (patch_grid_spec(hp0, wp0, merge, num_pos) matches Err(VisionError::ImageTooSmall { .. }))
            <==> (hp0 < merge || wp0 < merge),
{
    if hp0 >= merge && wp0 >= merge {
        lemma_align_down(hp0, merge);
        lemma_align_down(wp0, merge);
        assert(hp0 / merge >= 1) by {
            vstd::arithmetic::div_mod::lemma_div_is_ordered(merge as int, hp0 as int, merge as int);
            vstd::arithmetic::div_mod::lemma_div_by_self(merge as int);
        }
        assert(wp0 / merge >= 1) by {
            vstd::arithmetic::div_mod::lemma_div_is_ordered(merge as int, wp0 as int, merge as int);
            vstd::arithmetic::div_mod::lemma_div_by_self(merge as int);
        }
        assert(align_down(hp0, merge) == hp0 / merge * merge);
        assert(align_down(wp0, merge) == wp0 / merge * merge);
        vstd::arithmetic::div_mod::lemma_fundamental_div_mod(hp0 as int, merge as int);
        vstd::arithmetic::div_mod::lemma_fundamental_div_mod(wp0 as int, merge as int);
        vstd::arithmetic::div_mod::lemma_mod_bound(hp0 as int, merge as int);
        vstd::arithmetic::div_mod::lemma_mod_bound(wp0 as int, merge as int);
        let q_hp0 = hp0 / merge;
        let r_hp0 = hp0 % merge;
        assert(hp0 < q_hp0 * merge + merge) by (nonlinear_arith)
            requires
                hp0 == merge * q_hp0 + r_hp0,
                r_hp0 < merge,
        ;
        let q_wp0 = wp0 / merge;
        let r_wp0 = wp0 % merge;
        assert(wp0 < q_wp0 * merge + merge) by (nonlinear_arith)
            requires
                wp0 == merge * q_wp0 + r_wp0,
                r_wp0 < merge,
        ;
    }
}

/// Law of the patch grid's cropping: for an image at least one merge
/// block each way, the kept grid is the largest `h x w` whose sides are
/// multiples of the merge size within the image's grid; it is kept exactly
/// when it fits the position table, and otherwise refused as too many
/// visual tokens.
pub proof fn lemma_patch_grid_largest_blocks(hp0: nat, wp0: nat, merge: nat, num_pos: nat, h: nat, w: nat)
    requires
        merge >= 1,
        h % merge == 0,
        w % merge == 0,
        merge <= h <= hp0 < h + merge,
        merge <= w <= wp0 < w + merge,
    ensures
        h * w <= num_pos ==> patch_grid_spec(hp0, wp0, merge, num_pos) == Ok::<(nat, nat), VisionError>(
            (h, w),
        ),
        h * w > num_pos ==> patch_grid_spec(hp0, wp0, merge, num_pos) matches Err(
            VisionError::TooManyVisualTokens { .. },
        ),
{
    lemma_largest_multiple(hp0, merge, h);
    lemma_largest_multiple(wp0, merge, w);
}

/// The multiple `h` of `m` with `h <= x < h + m` is `x / m * m`.
proof fn lemma_largest_multiple(x: nat, m: nat, h: nat)
    requires
        m >= 1,
        h % m == 0,
        h <= x < h + m,
    ensures
        x / m * m == h,
{
    vstd::arithmetic::div_mod::lemma_fundamental_div_mod(h as int, m as int);
    let q = h / m;
    assert(h == q * m) by (nonlinear_arith)
        requires
            h == m * q + h % m,
            h % m == 0,
    ;
    vstd::arithmetic::div_mod::lemma_fundamental_div_mod_converse(
        x as int,
        m as int,
        q as int,
        (x - h) as int,
    );
}

/// A table of `base * base` entries is square with side `base`.
proof fn lemma_square_side_of(base: nat, n: nat)
    requires
        base * base == n,
    ensures
        square_side_spec(n) == Some(base),
{
    assert(square(base) == n);
    let s = choose|s: nat| #[trigger] square(s) == n;
    lemma_square_unique(s, base);
}

/// Law of the fixed square side: with a square position table of side
/// `base`, the side is the largest multiple of the factor
/// `patch * merge` (at least one factor) that does not exceed the requested
/// side capped at the position grid's side in pixels (`base * patch`).
pub proof fn lemma_fixed_side_largest_multiple(fixed_side: nat, patch: nat, merge: nat, num_pos: nat, base: nat)
    requires
        patch >= 1,
        merge >= 1,
        base * base == num_pos,
    ensures
        fixed_square_side_spec(fixed_side, patch, merge, num_pos) matches Ok(s) && {
            let f = patch * merge;
            let cap = if fixed_side < base * patch {
                fixed_side
            } else {
                base * patch
            };
            &&& s % f == 0
            &&& f <= s
            &&& cap >= f ==> s <= cap < s + f
            &&& cap < f ==> s == f
        },
{
    lemma_square_side_of(base, num_pos);
    let f = patch * merge;
    assert(f >= 1) by (nonlinear_arith)
        requires
            patch >= 1,
            merge >= 1,
            f == patch * merge,
    ;
    let cap = if fixed_side < base * patch {
        fixed_side
    } else {
        base * patch
    };
    let s2 = if cap > f {
        cap
    } else {
        f
    };
    lemma_align_down(s2, f);
    vstd::arithmetic::div_mod::lemma_fundamental_div_mod(s2 as int, f as int);
    vstd::arithmetic::div_mod::lemma_mod_bound(s2 as int, f as int);
    let q = s2 / f;
    let rm = s2 % f;
    assert(s2 < q * f + f) by (nonlinear_arith)
        requires
            s2 == f * q + rm,
            rm < f,
    ;
    assert(fixed_square_side_spec(fixed_side, patch, merge, num_pos) == Ok::<nat, VisionError>(
        align_down(s2, f),
    ));
    if cap < f {
        vstd::arithmetic::div_mod::lemma_div_by_self(f as int);
        assert(align_down(s2, f) == f);
    } else {
        assert(q >= 1) by {
            vstd::arithmetic::div_mod::lemma_div_is_ordered(f as int, s2 as int, f as int);
            vstd::arithmetic::div_mod::lemma_div_by_self(f as int);
        }
        assert(align_down(s2, f) == q * f);
        assert(s2 == cap);
    }
}

/// The shrinking loop takes the same number of factor steps off both sides,
/// stops as soon as the area fits or a side is down to one factor, and
/// never takes a step it did not need.
proof fn lemma_shrink_to_area_steps(th: nat, tw: nat, f: nat, max: nat)
    requires
        f > 0,
        th >= f,
        tw >= f,
        th % f == 0,
        tw % f == 0,
    ensures
        ({
            let (h, w) = shrink_to_area(th, tw, f, max);
            &&& f <= h <= th
            &&& f <= w <= tw
            &&& th - h == tw - w
            &&& (th - h) % (f as int) == 0
            &&& h * w <= max || h == f || w == f
            &&& h < th ==> (h + f) * (w + f) > max
        }),
    decreases th,
{
    if th * tw > max && th > f && tw > f {
        vstd::arithmetic::div_mod::lemma_mod_sub_multiples_vanish(th as int, f as int);
        vstd::arithmetic::div_mod::lemma_mod_sub_multiples_vanish(tw as int, f as int);
        vstd::arithmetic::div_mod::lemma_fundamental_div_mod(th as int, f as int);
        vstd::arithmetic::div_mod::lemma_fundamental_div_mod(tw as int, f as int);
        let qh = th / f;
        let qw = tw / f;
        assert(th >= 2 * f) by (nonlinear_arith)
            requires
                th == f * qh,
                th > f,
                f > 0,
        ;
        assert(tw >= 2 * f) by (nonlinear_arith)
            requires
                tw == f * qw,
                tw > f,
                f > 0,
        ;
        lemma_shrink_to_area_steps((th - f) as nat, (tw - f) as nat, f, max);
        let (h, w) = shrink_to_area(th, tw, f, max);
        let d = (th - f - h) as int;
        vstd::arithmetic::div_mod::lemma_fundamental_div_mod(d, f as int);
        let q = d / (f as int);
        assert(d == f * q);
        assert(th - h == f * (q + 1)) by (nonlinear_arith)
            requires
                th - h == d + f,
                d == f * q,
        ;
        vstd::arithmetic::div_mod::lemma_mod_multiples_basic(q + 1, f as int);
        assert((q + 1) * f == f * (q + 1)) by (nonlinear_arith);
        if h == th - f {
            assert(w == tw - f);
        }
    } else {
        vstd::arithmetic::div_mod::lemma_mod_self_0(f as int);
        assert(0int % (f as int) == 0) by {
            vstd::arithmetic::div_mod::lemma_small_mod(0, f as nat);
        }
        if !(th * tw <= max) {
            assert(th <= f || tw <= f);
        }
    }
}

/// Law of the resize target: with `ah` and `aw` the sides aligned down to
/// the factor `f` (the largest multiples of `f` within the scaled sides, or
/// one factor for a side shorter than that), the target takes the same
/// number of `f` steps off both, as few as make the area fit the smaller of
/// `max_pixels` and the square of the longest side; it stops earlier only
/// when a side is down to one factor.
pub proof fn lemma_aligned_target_fewest_steps(th: nat, tw: nat, limits: ResizeLimits, ah: nat, aw: nat)
    requires
        limits.factor > 0,
        ah % (limits.factor as nat) == 0,
        aw % (limits.factor as nat) == 0,
        limits.factor <= ah,
        limits.factor <= aw,
        th >= limits.factor ==> ah <= th < ah + limits.factor,
        th < limits.factor ==> ah == limits.factor,
        tw >= limits.factor ==> aw <= tw < aw + limits.factor,
        tw < limits.factor ==> aw == limits.factor,
    ensures
        ({
            let f = limits.factor as nat;
            let cap = (limits.max_side_pixels * limits.max_side_pixels) as nat;
            let max = if limits.max_pixels < cap {
                limits.max_pixels as nat
            } else {
                cap
            };
            let (h, w) = aligned_target_spec(th, tw, limits);
            &&& f <= h <= ah
            &&& f <= w <= aw
            &&& ah - h == aw - w
            &&& (ah - h) % (f as int) == 0
            &&& h * w <= max || h == f || w == f
            &&& h < ah ==> (h + f) * (w + f) > max
        }),
{
    let f = limits.factor as nat;
    if th >= f {
        lemma_largest_multiple(th, f, ah);
        assert(th / f >= 1) by {
            vstd::arithmetic::div_mod::lemma_div_is_ordered(f as int, th as int, f as int);
            vstd::arithmetic::div_mod::lemma_div_by_self(f as int);
        }
    } else {
        vstd::arithmetic::div_mod::lemma_basic_div(th as int, f as int);
    }
    if tw >= f {
        lemma_largest_multiple(tw, f, aw);
        assert(tw / f >= 1) by {
            vstd::arithmetic::div_mod::lemma_div_is_ordered(f as int, tw as int, f as int);
            vstd::arithmetic::div_mod::lemma_div_by_self(f as int);
        }
    } else {
        vstd::arithmetic::div_mod::lemma_basic_div(tw as int, f as int);
    }
    assert(align_down(th, f) == ah);
    assert(align_down(tw, f) == aw);
    let cap = (limits.max_side_pixels * limits.max_side_pixels) as nat;
    let max = if limits.max_pixels < cap {
        limits.max_pixels as nat
    } else {
        cap
    };
    lemma_shrink_to_area_steps(ah, aw, f, max);
}

/// Law of the resize bounds: for a square position table of side `base`,
/// sides are multiples of the merge block `patch * merge` pixels, an image
/// has at least the area of `2 x 2` such blocks, at most the area of the
/// whole position grid at full size (`base * patch` pixels a side), and its
/// longest side is at most that grid side, or a positive override below it.
pub proof fn lemma_resize_limits_bounds(
    patch: nat,
    merge: nat,
    num_pos: nat,
    max_side_override: Option<u32>,
    base: nat,
)
    requires
        patch >= 1,
        merge >= 1,
        base * base == num_pos,
        patch * merge <= u32::MAX,
        4 * (patch * merge) * (patch * merge) <= u64::MAX,
        num_pos * patch * patch <= u64::MAX,
        base * patch <= u32::MAX,
    ensures
        resize_limits_spec(patch, merge, num_pos, max_side_override) matches Ok(l) && {
            let f = patch * merge;
            &&& l.factor == f
            &&& l.min_pixels == (2 * f) * (2 * f)
            &&& l.max_pixels == (base * patch) * (base * patch)
            &&& l.max_side_pixels <= base * patch
            &&& (max_side_override matches Some(v) ==> (0 < v < base * patch ==> l.max_side_pixels
                == v))
            &&& (!(max_side_override matches Some(v) && 0 < v < base * patch) ==> l.max_side_pixels
                == base * patch)
        },
{
    lemma_square_side_of(base, num_pos);
    let f = patch * merge;
    assert(f >= 1) by (nonlinear_arith)
        requires
            patch >= 1,
            merge >= 1,
            f == patch * merge,
    ;
    assert((2 * f) * (2 * f) == 4 * f * f) by (nonlinear_arith);
    assert((base * patch) * (base * patch) == num_pos * patch * patch) by (nonlinear_arith)
        requires
            base * base == num_pos,
    ;
}

} // verus!
