use vstd::prelude::*;
use vstd::arithmetic::div_mod::{
    lemma_fundamental_div_mod, lemma_mod_add_multiples_vanish, lemma_mod_multiples_basic,
};

verus! {

/// Bit `k` (0 = most significant) of `byte`.
pub open spec fn msb_first_bit(byte: u8, k: int) -> bool
    recommends
        0 <= k < 8,
{
    (byte >> ((7 - k) as u8)) & 1u8 == 1u8
}

/// The opacity bit that a packed collision mask holds for pixel number `idx`:
/// pixels are packed eight to a byte, the first pixel of each byte in its
/// most significant bit. `None` when the mask has no byte for the pixel.
pub open spec fn mask_bit(mask: Seq<u8>, idx: int) -> Option<bool>
    recommends
        0 <= idx,
{
    if idx / 8 >= mask.len() {
        None
    } else {
        Some(msb_first_bit(mask[idx / 8], idx % 8))
    }
}

/// Bit `k` of a byte counts from the top: bit 0 is worth 128, bit 7 is
/// worth 1.
pub proof fn lemma_msb_first_bit_weights(byte: u8)
    ensures
        msb_first_bit(byte, 0) == ((byte / 128) % 2 == 1),
        msb_first_bit(byte, 1) == ((byte / 64) % 2 == 1),
        msb_first_bit(byte, 2) == ((byte / 32) % 2 == 1),
        msb_first_bit(byte, 3) == ((byte / 16) % 2 == 1),
        msb_first_bit(byte, 4) == ((byte / 8) % 2 == 1),
        msb_first_bit(byte, 5) == ((byte / 4) % 2 == 1),
        msb_first_bit(byte, 6) == ((byte / 2) % 2 == 1),
        msb_first_bit(byte, 7) == (byte % 2 == 1),
{
    assert(((byte >> 7u8) & 1u8 == 1u8) == ((byte / 128) % 2 == 1)) by (bit_vector);
    assert(((byte >> 6u8) & 1u8 == 1u8) == ((byte / 64) % 2 == 1)) by (bit_vector);
    assert(((byte >> 5u8) & 1u8 == 1u8) == ((byte / 32) % 2 == 1)) by (bit_vector);
    assert(((byte >> 4u8) & 1u8 == 1u8) == ((byte / 16) % 2 == 1)) by (bit_vector);
    assert(((byte >> 3u8) & 1u8 == 1u8) == ((byte / 8) % 2 == 1)) by (bit_vector);
    assert(((byte >> 2u8) & 1u8 == 1u8) == ((byte / 4) % 2 == 1)) by (bit_vector);
    assert(((byte >> 1u8) & 1u8 == 1u8) == ((byte / 2) % 2 == 1)) by (bit_vector);
    assert(((byte >> 0u8) & 1u8 == 1u8) == (byte % 2 == 1)) by (bit_vector);
}

/// A mask holds eight pixels per byte in order: pixel `8 * j + k` is bit `k`
/// of byte `j`, and a pixel past the last byte has no bit.
pub proof fn lemma_mask_layout(mask: Seq<u8>, j: int, k: int, idx: int)
    ensures
        0 <= j < mask.len() && 0 <= k < 8 ==> mask_bit(mask, 8 * j + k) == Some(
            msb_first_bit(mask[j], k),
        ),
        idx >= 8 * mask.len() ==> mask_bit(mask, idx) is None,
        0 <= idx < 8 * mask.len() ==> mask_bit(mask, idx) is Some,
{
    if 0 <= j && 0 <= k < 8 {
        vstd::arithmetic::div_mod::lemma_fundamental_div_mod_converse(8 * j + k, 8, j, k);
    }
    if idx >= 0 {
        lemma_fundamental_div_mod(idx, 8);
    }
}

/// Looks up pixel `idx` in a packed opacity mask.
pub fn is_mask_bit_set(mask: &[u8], idx: usize) -> (bit: Option<bool>)
    ensures
        bit == mask_bit(mask@, idx as int),
{
    if idx / 8 >= mask.len() {
        None
    } else {
        let mask_byte = mask[idx / 8];
        let shift: u8 = (7 - idx % 8) as u8;
        let mask_bit = (mask_byte >> shift) & 1;
        Some(mask_bit == 1)
    }
}

/// Whether pixel `i` of an image with per-pixel alpha values `alpha` is
/// visible (not fully transparent); pixels past the image are not.
pub open spec fn pixel_visible(alpha: Seq<u8>, i: int) -> bool {
    0 <= i < alpha.len() && alpha[i] > 0
}

/// Whether every pixel of an image is fully opaque.
pub open spec fn fully_opaque(alpha: Seq<u8>) -> bool {
    forall|i: int| 0 <= i < alpha.len() ==> #[trigger] alpha[i] == 255
}

/// A pixel inside the image is visible exactly when its alpha is not zero;
/// an image is fully opaque exactly when no pixel has alpha below 255.
pub proof fn lemma_visibility(alpha: Seq<u8>, i: int)
    ensures
        0 <= i < alpha.len() ==> (pixel_visible(alpha, i) <==> alpha[i] != 0),
        !(0 <= i < alpha.len()) ==> !pixel_visible(alpha, i),
        0 <= i < alpha.len() && alpha[i] < 255 ==> !fully_opaque(alpha),
        (forall|j: int| 0 <= j < alpha.len() ==> alpha[j] >= 255) ==> fully_opaque(alpha),
{
}

/// 1 when pixel `i` is visible, else 0.
fn visible_bit(alpha: &[u8], start: usize, k: usize) -> (bit: u8)
    requires
        start < alpha@.len(),
        k < 8,
    ensures
        bit <= 1,
        bit == 1 <==> pixel_visible(alpha@, start + k),
{
    if k < alpha.len() - start && alpha[start + k] > 0 {
        1
    } else {
        0
    }
}

/// Packs the visibility of the eight pixels from `start` into one byte, the
/// first pixel in the most significant bit.
fn pack_byte(alpha: &[u8], start: usize) -> (byte: u8)
    requires
        start < alpha@.len(),
    ensures
        forall|k: int| 0 <= k < 8 ==> #[trigger] msb_first_bit(byte, k) == pixel_visible(alpha@, start + k),
{
    let v0 = visible_bit(alpha, start, 0);
    let v1 = visible_bit(alpha, start, 1);
    let v2 = visible_bit(alpha, start, 2);
    let v3 = visible_bit(alpha, start, 3);
    let v4 = visible_bit(alpha, start, 4);
    let v5 = visible_bit(alpha, start, 5);
    let v6 = visible_bit(alpha, start, 6);
    let v7 = visible_bit(alpha, start, 7);
    let byte: u8 = (v0 << 7u8) | (v1 << 6u8) | (v2 << 5u8) | (v3 << 4u8) | (v4 << 3u8) | (v5 << 2u8)
        | (v6 << 1u8) | v7;
    assert({
        &&& ((byte >> 7u8) & 1u8 == 1u8) == (v0 == 1u8)
        &&& ((byte >> 6u8) & 1u8 == 1u8) == (v1 == 1u8)
        &&& ((byte >> 5u8) & 1u8 == 1u8) == (v2 == 1u8)
        &&& ((byte >> 4u8) & 1u8 == 1u8) == (v3 == 1u8)
        &&& ((byte >> 3u8) & 1u8 == 1u8) == (v4 == 1u8)
        &&& ((byte >> 2u8) & 1u8 == 1u8) == (v5 == 1u8)
        &&& ((byte >> 1u8) & 1u8 == 1u8) == (v6 == 1u8)
        &&& ((byte >> 0u8) & 1u8 == 1u8) == (v7 == 1u8)
    }) by (bit_vector)
        requires
            v0 <= 1,
            v1 <= 1,
            v2 <= 1,
            v3 <= 1,
            v4 <= 1,
            v5 <= 1,
            v6 <= 1,
            v7 <= 1,
            byte == (v0 << 7u8) | (v1 << 6u8) | (v2 << 5u8) | (v3 << 4u8) | (v4 << 3u8) | (v5
                << 2u8) | (v6 << 1u8) | v7,
    ;
    assert forall|k: int| 0 <= k < 8 implies #[trigger] msb_first_bit(byte, k) == pixel_visible(
        alpha@,
        start + k,
    ) by {
        if k == 0 {
        } else if k == 1 {
        } else if k == 2 {
        } else if k == 3 {
        } else if k == 4 {
        } else if k == 5 {
        } else if k == 6 {
        } else {
        }
    }
    byte
}

/// Builds the packed opacity mask of an image from the alpha value of each
/// of its pixels in row-major order: a pixel is set when it is not fully
/// transparent, eight pixels to a byte with the first in the most
/// significant bit, and the bits past the last pixel are clear. A fully
/// opaque image gets no mask, and collides by its rectangle alone.
pub fn opacity_mask(alpha: &[u8]) -> (mask: Option<Vec<u8>>)
    ensures
        mask is None <==> fully_opaque(alpha@),
        mask matches Some(m) ==> {
            &&& m@.len() == (alpha@.len() + 7) / 8
            &&& forall|i: int|
                0 <= i < 8 * m@.len() ==> #[trigger] mask_bit(m@, i) == Some(
                    pixel_visible(alpha@, i),
                )
        },
{
    let n = alpha.len();
    let mut opaque = true;
    let mut i: usize = 0;
    while i < n
        invariant
            n == alpha@.len(),
            i <= n,
            opaque <==> forall|j: int| 0 <= j < i ==> #[trigger] alpha@[j] == 255,
        decreases n - i,
    {
        if alpha[i] != 255 {
            opaque = false;
        }
        i = i + 1;
    }
    if opaque {
        return None;
    }
    let byte_count: usize = n / 8 + if n % 8 != 0 {
        1
    } else {
        0
    };
    let mut mask: Vec<u8> = Vec::new();
    let mut b: usize = 0;
    while b < byte_count
        invariant
            n == alpha@.len(),
            byte_count == (n + 7) / 8,
            b <= byte_count,
            mask@.len() == b,
            forall|j: int, k: int|
                0 <= j < b && 0 <= k < 8 ==> #[trigger] msb_first_bit(mask@[j], k) == pixel_visible(
                    alpha@,
                    8 * j + k,
                ),
        decreases byte_count - b,
    {
        assert(8 * b < n) by (nonlinear_arith)
            requires
                b < byte_count,
                byte_count == (n + 7) / 8,
        ;
        let byte = pack_byte(alpha, 8 * b);
        mask.push(byte);
        b = b + 1;
    }
    proof {
        assert forall|i: int| 0 <= i < 8 * mask@.len() implies #[trigger] mask_bit(mask@, i) == Some(
            pixel_visible(alpha@, i),
        ) by {
            lemma_fundamental_div_mod(i, 8);
            let j = i / 8;
            let k = i % 8;
            assert(msb_first_bit(mask@[j], k) == pixel_visible(alpha@, 8 * j + k));
        }
    }
    Some(mask)
}

/// Whether pixel `(tx, ty)` of a texture `tex_width` pixels wide is opaque
/// in its packed mask: the pixel's row-major number `ty * tex_width + tx`
/// is looked up, and a pixel past the end of the mask counts as clear.
pub open spec fn mask_opaque(mask: Seq<u8>, tex_width: int, tx: int, ty: int) -> bool {
    match mask_bit(mask, ty * tex_width + tx) {
        Some(bit) => bit,
        None => false,
    }
}

/// A pixel's row-major number picks its bit in the mask: the pixel is
/// opaque exactly when that bit is set, and a pixel whose number lies past
/// the mask is clear.
pub proof fn lemma_mask_opaque_pixel(mask: Seq<u8>, tex_width: nat, tx: nat, ty: nat)
    ensures
        mask_opaque(mask, tex_width as int, tx as int, ty as int) <==> mask_bit(
            mask,
            (ty * tex_width + tx) as int,
        ) == Some(true),
        ty * tex_width + tx >= 8 * mask.len() ==> !mask_opaque(mask, tex_width as int, tx as int, ty as int),
{
    lemma_mask_layout(mask, 0, 0, (ty * tex_width + tx) as int);
}

/// Tests one texture pixel of a masked image for opacity, as every
/// pixel-accurate collision test does for each pixel it samples.
pub fn mask_opaque_at(mask: &[u8], tex_width: usize, tx: usize, ty: usize) -> (opaque: bool)
    requires
        ty * tex_width + tx <= usize::MAX,
    ensures
        opaque == mask_opaque(mask@, tex_width as int, tx as int, ty as int),
{
    assert(ty * tex_width <= usize::MAX) by (nonlinear_arith)
        requires
            ty * tex_width + tx <= usize::MAX,
    ;
    let idx = ty * tex_width + tx;
    match is_mask_bit_set(mask, idx) {
        Some(bit) => bit,
        None => false,
    }
}

/// One of the two objects handed to a collision test.
#[derive(Clone, Copy, Debug, PartialEq, Eq, Structural)]
pub enum Side {
    First,
    Second,
}

impl Side {
    /// The other object.
    pub open spec fn other(self) -> Side {
        match self {
            Side::First => Side::Second,
            Side::Second => Side::First,
        }
    }
}

/// The test that decides whether two images collide, chosen from what the
/// images carry: an opacity mask or not, a rotation or not.
#[derive(Clone, Copy, Debug, PartialEq, Eq, Structural)]
pub enum CollisionTest {
    /// The bounding boxes do not overlap: the images do not collide.
    Apart,
    /// Neither image is masked or rotated: overlapping boxes collide.
    Boxes,
    /// Neither image is masked, one at least is rotated: the rotated
    /// rectangles are tested against each other.
    RotatedRectangles,
    /// No rotation, one image masked: an opaque pixel of the masked image
    /// inside the other image's rectangle is a collision.
    OneMasked(Side),
    /// No rotation, both images masked: a pixel opaque in both is a collision.
    BothMasked,
    /// One image masked, one at least rotated: as `OneMasked`, with each
    /// sampled point first turned back into each image's own frame.
    RotatedOneMasked(Side),
    /// Both images masked, one at least rotated: as `BothMasked`, in each
    /// image's own frame.
    RotatedBothMasked,
}

/// The test to run for two images whose bounding boxes overlap or not, whose
/// masks are present or not, and whose angles are zero or not.
pub open spec fn collision_test_for(
    boxes_overlap: bool,
    masked1: bool,
    masked2: bool,
    rotated1: bool,
    rotated2: bool,
) -> CollisionTest {
    let rotated = rotated1 || rotated2;
    if !boxes_overlap {
        CollisionTest::Apart
    } else if !masked1 && !masked2 {
        if rotated {
            CollisionTest::RotatedRectangles
        } else {
            CollisionTest::Boxes
        }
    } else if masked1 && masked2 {
        if rotated {
            CollisionTest::RotatedBothMasked
        } else {
            CollisionTest::BothMasked
        }
    } else {
        let masked = if masked1 {
            Side::First
        } else {
            Side::Second
        };
        if rotated {
            CollisionTest::RotatedOneMasked(masked)
        } else {
            CollisionTest::OneMasked(masked)
        }
    }
}

/// The same test seen with the two images handed over in the other order.
pub open spec fn swapped(test: CollisionTest) -> CollisionTest {
    match test {
        CollisionTest::OneMasked(side) => CollisionTest::OneMasked(side.other()),
        CollisionTest::RotatedOneMasked(side) => CollisionTest::RotatedOneMasked(side.other()),
        _ => test,
    }
}

/// Swapping the two images twice changes nothing, and the other side of a
/// side is never the side itself.
pub proof fn lemma_swap_involution(test: CollisionTest, side: Side)
    ensures
        swapped(swapped(test)) == test,
        side.other() != side,
        side.other().other() == side,
{
}

/// What each choice of collision test rests on: images whose boxes overlap
/// are tested with rotation taken into account exactly when one of them is
/// rotated, pixel by pixel exactly when one of them is masked, and a
/// one-sided pixel test reads the mask of the image that has one.
pub proof fn lemma_collision_test_choice(
    boxes_overlap: bool,
    masked1: bool,
    masked2: bool,
    rotated1: bool,
    rotated2: bool,
)
    ensures
        ({
            let t = collision_test_for(boxes_overlap, masked1, masked2, rotated1, rotated2);
            &&& !boxes_overlap ==> t == CollisionTest::Apart
            &&& boxes_overlap && (rotated1 || rotated2) ==> (t == CollisionTest::RotatedRectangles
                || t is RotatedOneMasked || t == CollisionTest::RotatedBothMasked)
            &&& boxes_overlap && !rotated1 && !rotated2 ==> (t == CollisionTest::Boxes || t is OneMasked
                || t == CollisionTest::BothMasked)
            &&& boxes_overlap && !masked1 && !masked2 ==> (t == CollisionTest::Boxes || t
                == CollisionTest::RotatedRectangles)
            &&& boxes_overlap && masked1 && masked2 ==> (t == CollisionTest::BothMasked || t
                == CollisionTest::RotatedBothMasked)
            &&& boxes_overlap && masked1 && !masked2 ==> (t == CollisionTest::OneMasked(Side::First)
                || t == CollisionTest::RotatedOneMasked(Side::First))
            &&& boxes_overlap && !masked1 && masked2 ==> (t == CollisionTest::OneMasked(Side::Second)
                || t == CollisionTest::RotatedOneMasked(Side::Second))
        }),
{
}

/// Chooses how two images are tested for a collision. `boxes_overlap` says
/// whether their (rotated) bounding boxes overlap with a positive width and
/// height, `masked1`/`masked2` whether each carries an opacity mask, and
/// `rotated1`/`rotated2` whether each is drawn at a non-zero angle.
pub fn choose_collision_test(
    boxes_overlap: bool,
    masked1: bool,
    masked2: bool,
    rotated1: bool,
    rotated2: bool,
) -> (test: CollisionTest)
    ensures
        test == collision_test_for(boxes_overlap, masked1, masked2, rotated1, rotated2),
        (test == CollisionTest::Apart) <==> !boxes_overlap,
{
    if !boxes_overlap {
        return CollisionTest::Apart;
    }
    if !masked1 && !masked2 {
        if rotated1 || rotated2 {
            return CollisionTest::RotatedRectangles;
        }
        return CollisionTest::Boxes;
    }
    if rotated1 || rotated2 {
        if masked1 && !masked2 {
            return CollisionTest::RotatedOneMasked(Side::First);
        }
        if !masked1 && masked2 {
            return CollisionTest::RotatedOneMasked(Side::Second);
        }
        return CollisionTest::RotatedBothMasked;
    }
    if masked1 && !masked2 {
        return CollisionTest::OneMasked(Side::First);
    }
    if !masked1 && masked2 {
        return CollisionTest::OneMasked(Side::Second);
    }
    CollisionTest::BothMasked
}

/// Collision testing does not depend on the order of the two images: handed
/// over the other way round, the same test is chosen, with the masked side of
/// a one-sided test swapped.
pub proof fn lemma_collision_test_symmetric(
    boxes_overlap: bool,
    masked1: bool,
    masked2: bool,
    rotated1: bool,
    rotated2: bool,
)
    ensures
        collision_test_for(boxes_overlap, masked2, masked1, rotated2, rotated1) == swapped(
            collision_test_for(boxes_overlap, masked1, masked2, rotated1, rotated2),
        ),
{
}

/// Whether `p` is a multiple of `step`: a sampled offset along one axis.
pub open spec fn on_grid(p: int, step: int) -> bool {
    p % step == 0
}

/// Whether `(x, y)` is one of the points tested in an overlap region of
/// `width` by `height` pixels when every `step`-th pixel of each row and each
/// column is sampled, starting from the region's corner.
pub open spec fn is_sampled(width: int, height: int, step: int, x: int, y: int) -> bool {
    &&& 0 <= x < width
    &&& 0 <= y < height
    &&& on_grid(x, step)
    &&& on_grid(y, step)
}

/// With a step of one, every pixel of the overlap region is sampled.
pub proof fn lemma_step_one_samples_every_pixel(width: int, height: int, x: int, y: int)
    ensures
        is_sampled(width, height, 1, x, y) <==> (0 <= x < width && 0 <= y < height),
{
}

/// Thinning the sample grid only drops points: every point sampled with a
/// step `coarse` that is a multiple of `fine` is also sampled with `fine`.
pub proof fn lemma_coarser_step_samples_fewer(
    width: int,
    height: int,
    coarse: int,
    fine: int,
    x: int,
    y: int,
)
    requires
        fine >= 1,
        coarse >= 1,
        coarse % fine == 0,
        is_sampled(width, height, coarse, x, y),
    ensures
        is_sampled(width, height, fine, x, y),
{
    lemma_fundamental_div_mod(coarse, fine);
    lemma_fundamental_div_mod(x, coarse);
    lemma_fundamental_div_mod(y, coarse);
    let r = coarse / fine;
    assert(x == fine * (r * (x / coarse))) by (nonlinear_arith)
        requires
            x == coarse * (x / coarse),
            coarse == fine * r,
    ;
    assert(y == fine * (r * (y / coarse))) by (nonlinear_arith)
        requires
            y == coarse * (y / coarse),
            coarse == fine * r,
    ;
    lemma_mod_multiples_basic(r * (x / coarse), fine);
    lemma_mod_multiples_basic(r * (y / coarse), fine);
    assert((r * (x / coarse)) * fine == fine * (r * (x / coarse))) by (nonlinear_arith);
    assert((r * (y / coarse)) * fine == fine * (r * (y / coarse))) by (nonlinear_arith);
}

/// Whether a pixel test `pred` holds at one of the points sampled with
/// `step` in a `width` by `height` overlap region.
pub open spec fn sampled_hit(width: int, height: int, step: int, pred: spec_fn(int, int) -> bool) -> bool {
    exists|x: int, y: int| #[trigger] is_sampled(width, height, step, x, y) && pred(x, y)
}

/// A finer sample grid finds every collision a coarser one finds: with a
/// step `coarse` that is a multiple of `fine`, a hit among the coarse samples
/// is a hit among the fine ones. In particular a step of one, which samples
/// every pixel, misses nothing that any step finds.
pub proof fn lemma_finer_step_finds_more(
    width: int,
    height: int,
    coarse: int,
    fine: int,
    pred: spec_fn(int, int) -> bool,
)
    requires
        fine >= 1,
        coarse >= 1,
        coarse % fine == 0,
        sampled_hit(width, height, coarse, pred),
    ensures
        sampled_hit(width, height, fine, pred),
{
    let (x, y) = choose|x: int, y: int| #[trigger] is_sampled(width, height, coarse, x, y) && pred(x, y);
    lemma_coarser_step_samples_fewer(width, height, coarse, fine, x, y);
}

/// For a pixel test that gives one answer per point, as a test computed
/// from the images alone does, what `scan_overlap` reports is exactly
/// whether the test holds at a sampled point: its two postconditions,
/// taken together, pin the answer to `sampled_hit`.
pub proof fn lemma_scan_of_pure_test<F: Fn(usize, usize) -> bool>(
    hit: F,
    pred: spec_fn(int, int) -> bool,
    width: usize,
    height: usize,
    step: usize,
    found: bool,
)
    requires
        forall|x: usize, y: usize, b: bool| #[trigger] call_ensures(hit, (x, y), b) ==> b == pred(x as int, y as int),
        found ==> exists|x: usize, y: usize|
            #![trigger is_sampled(width as int, height as int, step as int, x as int, y as int)]
            is_sampled(width as int, height as int, step as int, x as int, y as int)
                && call_ensures(hit, (x, y), true),
        !found ==> forall|x: usize, y: usize|
            #![trigger is_sampled(width as int, height as int, step as int, x as int, y as int)]
            is_sampled(width as int, height as int, step as int, x as int, y as int)
                ==> call_ensures(hit, (x, y), false),
    ensures
        found == sampled_hit(width as int, height as int, step as int, pred),
{
    if found {
        let (x, y) = choose|x: usize, y: usize|
            #![trigger is_sampled(width as int, height as int, step as int, x as int, y as int)]
            is_sampled(width as int, height as int, step as int, x as int, y as int)
                && call_ensures(hit, (x, y), true);
        assert(is_sampled(width as int, height as int, step as int, x as int, y as int) && pred(
            x as int,
            y as int,
        ));
    } else {
        if sampled_hit(width as int, height as int, step as int, pred) {
            let (x, y) = choose|x: int, y: int|
                #[trigger] is_sampled(width as int, height as int, step as int, x, y) && pred(x, y);
            assert(0 <= x < width && 0 <= y < height);
            let ux = x as usize;
            let uy = y as usize;
            assert(is_sampled(width as int, height as int, step as int, ux as int, uy as int));
            assert(call_ensures(hit, (ux, uy), false));
        }
    }
}

/// The sampled points are the corner of the region and every point reached
/// from it by whole steps along each axis, inside the region.
pub proof fn lemma_sample_grid(width: int, height: int, step: int, i: int, j: int, x: int, y: int)
    requires
        step >= 1,
    ensures
        0 <= i && 0 <= j && step * i < width && step * j < height ==> is_sampled(
            width,
            height,
            step,
            step * i,
            step * j,
        ),
        is_sampled(width, height, step, x, y) ==> 0 <= x < width && 0 <= y < height && x == step * (x
            / step) && y == step * (y / step),
{
    if 0 <= i && 0 <= j {
        lemma_mod_multiples_basic(i, step);
        lemma_mod_multiples_basic(j, step);
        assert(i * step == step * i) by (nonlinear_arith);
        assert(j * step == step * j) by (nonlinear_arith);
    }
    lemma_fundamental_div_mod(x, step);
    lemma_fundamental_div_mod(y, step);
}

/// Two distinct multiples of `step` lie at least `step` apart.
proof fn lemma_next_multiple(a: int, b: int, step: int)
    requires
        step > 0,
        0 <= a < b,
        a % step == 0,
        b % step == 0,
    ensures
        a + step <= b,
{
    lemma_fundamental_div_mod(a, step);
    lemma_fundamental_div_mod(b, step);
    let qa = a / step;
    let qb = b / step;
    assert(qa < qb) by (nonlinear_arith)
        requires
            a == step * qa,
            b == step * qb,
            a < b,
            step > 0,
    ;
    assert(step * qa + step <= step * qb) by (nonlinear_arith)
        requires
            qa < qb,
            step > 0,
    ;
}

/// The sample after `pos` along an axis of `limit` pixels, or `limit` when
/// `pos` was the last one.
fn next_sample(pos: usize, limit: usize, step: usize) -> (next: usize)
    requires
        step > 0,
        pos < limit,
        pos % step == 0,
    ensures
        pos < next <= limit,
        next < limit ==> next % step == 0,
        forall|p: int| pos < p < next ==> !#[trigger] on_grid(p, step as int),
        next == limit ==> forall|p: int| pos < p < limit ==> !#[trigger] on_grid(p, step as int),
{
    proof {
        assert forall|p: int| pos < p < pos + step implies !on_grid(p, step as int) by {
            if p % (step as int) == 0 {
                lemma_next_multiple(pos as int, p, step as int);
            }
        }
    }
    if limit - pos <= step {
        limit
    } else {
        proof {
            lemma_mod_add_multiples_vanish(pos as int, step as int);
        }
        pos + step
    }
}

/// Scans the overlap region of two images row by row, every `step`-th pixel
/// of every `step`-th row, and reports whether `hit` holds at one of the
/// sampled points `(x, y)` (offsets from the region's corner). The scan stops
/// at the first hit.
pub fn scan_overlap<F: Fn(usize, usize) -> bool>(
    width: usize,
    height: usize,
    step: usize,
    hit: F,
) -> (found: bool)
    requires
        step > 0,
        forall|x: usize, y: usize| call_requires(hit, (x, y)),
    ensures
        found ==> exists|x: usize, y: usize|
            #![trigger is_sampled(width as int, height as int, step as int, x as int, y as int)]
            is_sampled(width as int, height as int, step as int, x as int, y as int)
                && call_ensures(hit, (x, y), true),
        !found ==> forall|x: usize, y: usize|
            #![trigger is_sampled(width as int, height as int, step as int, x as int, y as int)]
            is_sampled(width as int, height as int, step as int, x as int, y as int)
                ==> call_ensures(hit, (x, y), false),
{
    let mut y: usize = 0;
    while y < height
        invariant
            step > 0,
            y <= height,
            y < height ==> y % step == 0,
            forall|x: usize, y: usize| call_requires(hit, (x, y)),
            forall|xx: usize, yy: usize|
                #![trigger is_sampled(width as int, height as int, step as int, xx as int, yy as int)]
                is_sampled(width as int, height as int, step as int, xx as int, yy as int) && yy
                    < y ==> call_ensures(hit, (xx, yy), false),
        decreases height - y,
    {
        let mut x: usize = 0;
        while x < width
            invariant
                step > 0,
                y < height,
                y % step == 0,
                x <= width,
                x < width ==> x % step == 0,
                forall|x: usize, y: usize| call_requires(hit, (x, y)),
                forall|xx: usize, yy: usize|
                    #![trigger is_sampled(width as int, height as int, step as int, xx as int, yy as int)]
                    is_sampled(width as int, height as int, step as int, xx as int, yy as int)
                        && yy < y ==> call_ensures(hit, (xx, yy), false),
                forall|xx: usize|
                    #![trigger is_sampled(width as int, height as int, step as int, xx as int, y as int)]
                    is_sampled(width as int, height as int, step as int, xx as int, y as int)
                        && xx < x ==> call_ensures(hit, (xx, y), false),
            decreases width - x,
        {
            if hit(x, y) {
                assert(is_sampled(width as int, height as int, step as int, x as int, y as int));
                return true;
            }
            let next = next_sample(x, width, step);
            assert forall|xx: usize|
                is_sampled(width as int, height as int, step as int, xx as int, y as int) && xx
                    < next implies call_ensures(hit, (xx, y), false) by {
                if xx > x {
                    assert(!on_grid(xx as int, step as int));
                }
            }
            x = next;
        }
        let next = next_sample(y, height, step);
        assert forall|xx: usize, yy: usize|
            is_sampled(width as int, height as int, step as int, xx as int, yy as int) && yy
                < next implies call_ensures(hit, (xx, yy), false) by {
            if yy > y {
                assert(!on_grid(yy as int, step as int));
            }
        }
        y = next;
    }
    false
}

} // verus!
