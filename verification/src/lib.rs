//! The combinatorial core of an offline path tracer: the ordering of numbers,
//! the intersection records, the bounding-volume hierarchy and the decisions
//! that the scattering models and the integrator take.  All arithmetic on
//! the numbers themselves is the caller's.

pub mod hittable;
pub mod material;
pub mod onb;
pub mod other_renderer;
pub mod pdf;
pub mod ray;
pub mod scalar;
pub mod texture;
pub mod vec;

use vstd::prelude::*;
use crate::hittable::HitRecord;
use crate::ray::Ray;
use crate::scalar::Scalar;
use crate::vec::Vec3;

verus! {

/// `rand::rngs::SmallRng`.  The library sees nothing inside it and only
/// hands it on.
#[verifier::external_type_specification]
#[verifier::external_body]
pub struct ExSmallRng(rand::rngs::SmallRng);

/// The generator that every sampling routine draws from.
pub type Rand = rand::rngs::SmallRng;

/// Pattern of `0.001`: how far from its origin a ray starts to count, so
/// that it does not meet the surface that it leaves.
pub const NEAR_BITS: u32 = 0x3a83_126f;

/// Pattern of `255.999`, the level of full brightness.
pub const WHITE_BITS: u32 = 0x437f_ffbe;

/// What a surface does with the light of a ray that meets it.
#[derive(Clone, Copy, Debug, PartialEq, Eq, Structural)]
pub enum Bounce {
    /// The surface scatters no light.
    Absorbed { emitted: Vec3 },
    /// The surface scatters light along `scattered`, a ray that was sampled
    /// with the density `pdf`; `albedo` and `scattering_pdf` are the
    /// surface's colour and its own density for that direction.
    Scattered { emitted: Vec3, albedo: Vec3, scattering_pdf: Scalar, pdf: Scalar, scattered: Ray },
}

/// The interval of ray parameters in which the scene is searched: from
/// `0.001` to infinity.
pub open spec fn search_interval_spec() -> (Scalar, Scalar) {
    (Scalar { bits: NEAR_BITS }, Scalar { bits: crate::scalar::INFINITY_BITS })
}

pub fn search_interval() -> (r: (Scalar, Scalar))
    ensures
        r == search_interval_spec(),
{
    (Scalar { bits: NEAR_BITS }, Scalar::infinity())
}

/// Whether a scattered ray is followed: it is when the density with which
/// it was sampled is above zero.  Where it is not, the weight of what the
/// ray would bring has no value, and the surface shows what it emits.
pub open spec fn follows(pdf: Scalar) -> bool {
    (Scalar { bits: 0 }).lt_spec(pdf)
}

/// `radiance` is what the estimator may return for `ray` with `depth`
/// bounces left.
///
/// With no bounce left that is black.  Else the scene is searched along
/// the ray within the search interval: a ray that meets nothing sees the
/// background; at a surface the radiance is what the surface emits, plus,
/// where the surface scatters and the scattered ray is followed, what
/// `weigh` makes of the radiance along that ray, estimated with one bounce
/// less.
pub open spec fn radiance_along<I, S, W>(
    ray: Ray,
    background: Vec3,
    depth: usize,
    intersect: I,
    scatter: S,
    weigh: W,
    radiance: Vec3,
) -> bool where
    I: Fn(&Ray, Scalar, Scalar) -> Option<HitRecord>,
    S: Fn(&Ray, &HitRecord, &mut Rand) -> Bounce,
    W: Fn(&Bounce, &Vec3) -> Vec3,

    decreases depth,
{
    if depth == 0 {
        radiance == Vec3::zero_spec()
    } else {
        exists|met: Option<HitRecord>|
            #[trigger] call_ensures(
                intersect,
                (&ray, search_interval_spec().0, search_interval_spec().1),
                met,
            ) && match met {
                None => radiance == background,
                Some(hit) => exists|rng: &mut Rand, bounce: Bounce|
                    #[trigger] call_ensures(scatter, (&ray, &hit, rng), bounce) && match bounce {
                        Bounce::Absorbed { emitted } => radiance == emitted,
                        Bounce::Scattered { emitted, pdf, scattered, .. } => {
                            if follows(pdf) {
                                exists|incoming: Vec3|
                                    radiance_along(
                                        scattered,
                                        background,
                                        (depth - 1) as usize,
                                        intersect,
                                        scatter,
                                        weigh,
                                        incoming,
                                    ) && #[trigger] call_ensures(
                                        weigh,
                                        (&bounce, &incoming),
                                        radiance,
                                    )
                            } else {
                                radiance == emitted
                            }
                        },
                    },
            }
    }
}

/// Estimates the radiance that arrives along `ray`, following it through at
/// most `depth` bounces.
///
/// `intersect` finds the nearest surface that a ray meets within an
/// interval.  `scatter` tells what that surface emits and, drawing from
/// `rng`, whether and where it scatters.  `weigh` adds to what a surface
/// emits the radiance that comes in along the scattered ray, weighted by
/// the surface's colour and the ratio of the two densities.
pub fn ray_color<I, S, W>(
    ray: &Ray,
    background: &Vec3,
    depth: usize,
    intersect: &I,
    scatter: &S,
    weigh: &W,
    rng: &mut Rand,
) -> (radiance: Vec3) where
    I: Fn(&Ray, Scalar, Scalar) -> Option<HitRecord>,
    S: Fn(&Ray, &HitRecord, &mut Rand) -> Bounce,
    W: Fn(&Bounce, &Vec3) -> Vec3,

    requires
        forall|r: &Ray, lo: Scalar, hi: Scalar| call_requires(*intersect, (r, lo, hi)),
        forall|r: &Ray, hit: &HitRecord, g: &mut Rand| call_requires(*scatter, (r, hit, g)),
        forall|bounce: &Bounce, incoming: &Vec3| call_requires(*weigh, (bounce, incoming)),
    ensures
        radiance_along(*ray, *background, depth, *intersect, *scatter, *weigh, radiance),
    decreases depth,
{
    if depth == 0 {
        return Vec3::zero();
    }
    let (t_min, t_max) = search_interval();
    match intersect(ray, t_min, t_max) {
        None => *background,
        Some(hit) => {
            let bounce = scatter(ray, &hit, rng);
            match bounce {
                Bounce::Absorbed { emitted } => emitted,
                Bounce::Scattered { emitted, pdf, scattered, .. } => {
                    if pdf.gt(Scalar::zero()) {
                        let incoming = ray_color(
                            &scattered,
                            background,
                            depth - 1,
                            intersect,
                            scatter,
                            weigh,
                            rng,
                        );
                        weigh(&bounce, &incoming)
                    } else {
                        emitted
                    }
                },
            }
        },
    }
}

/// With no bounce left the estimate is black, whatever the scene.
pub proof fn lemma_no_budget_is_black<I, S, W>(
    ray: Ray,
    background: Vec3,
    intersect: I,
    scatter: S,
    weigh: W,
    radiance: Vec3,
) where
    I: Fn(&Ray, Scalar, Scalar) -> Option<HitRecord>,
    S: Fn(&Ray, &HitRecord, &mut Rand) -> Bounce,
    W: Fn(&Bounce, &Vec3) -> Vec3,

    requires
        radiance_along(ray, background, 0, intersect, scatter, weigh, radiance),
    ensures
        radiance == Vec3::zero_spec(),
{
}

/// A ray that meets nothing, whatever the search answers, sees the
/// background as long as a bounce is left.
pub proof fn lemma_miss_sees_background<I, S, W>(
    ray: Ray,
    background: Vec3,
    depth: usize,
    intersect: I,
    scatter: S,
    weigh: W,
    radiance: Vec3,
) where
    I: Fn(&Ray, Scalar, Scalar) -> Option<HitRecord>,
    S: Fn(&Ray, &HitRecord, &mut Rand) -> Bounce,
    W: Fn(&Bounce, &Vec3) -> Vec3,

    requires
        depth > 0,
        forall|r: &Ray, lo: Scalar, hi: Scalar, met: Option<HitRecord>|
            #[trigger] call_ensures(intersect, (r, lo, hi), met) ==> met is None,
        radiance_along(ray, background, depth, intersect, scatter, weigh, radiance),
    ensures
        radiance == background,
{
}

/// `total` is what `count` samples through the pixel in column `x` of row
/// `y` may add up to: nothing for no sample, and for every further sample
/// what `sum` makes of the total so far and the radiance of the sample.
pub open spec fn samples_total<P, A>(
    x: usize,
    y: usize,
    count: nat,
    sample: P,
    sum: A,
    total: Vec3,
) -> bool where P: Fn(usize, usize, &mut Rand) -> Vec3, A: Fn(&Vec3, &Vec3) -> Vec3
    decreases count,
{
    if count == 0 {
        total == Vec3::zero_spec()
    } else {
        exists|before: Vec3, rng: &mut Rand, one: Vec3|
            samples_total(x, y, (count - 1) as nat, sample, sum, before) && #[trigger] call_ensures(
                sample,
                (x, y, rng),
                one,
            ) && #[trigger] call_ensures(sum, (&before, &one), total)
    }
}

/// `levels` is what a pixel may show: what `level` makes of the total of
/// its samples and their number.
pub open spec fn pixel_levels<P, A, L>(
    x: usize,
    y: usize,
    samples_per_pixel: usize,
    sample: P,
    sum: A,
    level: L,
    levels: Vec3,
) -> bool where
    P: Fn(usize, usize, &mut Rand) -> Vec3,
    A: Fn(&Vec3, &Vec3) -> Vec3,
    L: Fn(&Vec3, usize) -> Vec3,
{
    exists|total: Vec3|
        samples_total(x, y, samples_per_pixel as nat, sample, sum, total) && #[trigger] call_ensures(
            level,
            (&total, samples_per_pixel),
            levels,
        )
}

/// Renders row `y` of an image: for each pixel from left to right it takes
/// `samples_per_pixel` samples, adds them up and turns the total into
/// levels of brightness.
///
/// `sample` estimates the radiance along one random ray through a pixel,
/// `sum` adds two colours, and `level` turns the total of a number of
/// samples into the levels that `draw` takes.  All samples of the row draw
/// from `rng`, so that rows can be rendered side by side, each with a
/// generator of its own.
pub fn render_row<P, A, L>(
    y: usize,
    img_width: usize,
    samples_per_pixel: usize,
    sample: &P,
    sum: &A,
    level: &L,
    rng: &mut Rand,
) -> (row: Vec<Vec3>) where
    P: Fn(usize, usize, &mut Rand) -> Vec3,
    A: Fn(&Vec3, &Vec3) -> Vec3,
    L: Fn(&Vec3, usize) -> Vec3,

    requires
        forall|x: usize, row: usize, g: &mut Rand| call_requires(*sample, (x, row, g)),
        forall|a: &Vec3, b: &Vec3| call_requires(*sum, (a, b)),
        forall|total: &Vec3, count: usize| call_requires(*level, (total, count)),
    ensures
        row.len() == img_width,
        forall|x: int|
            0 <= x < img_width ==> pixel_levels(
                x as usize,
                y,
                samples_per_pixel,
                *sample,
                *sum,
                *level,
                #[trigger] row[x],
            ),
{
    let mut row: Vec<Vec3> = Vec::new();
    let mut x: usize = 0;
    while x < img_width
        invariant
            x <= img_width,
            row.len() == x,
            forall|x: usize, row: usize, g: &mut Rand| call_requires(*sample, (x, row, g)),
            forall|a: &Vec3, b: &Vec3| call_requires(*sum, (a, b)),
            forall|total: &Vec3, count: usize| call_requires(*level, (total, count)),
            forall|done: int|
                0 <= done < x ==> pixel_levels(
                    done as usize,
                    y,
                    samples_per_pixel,
                    *sample,
                    *sum,
                    *level,
                    #[trigger] row[done],
                ),
        decreases img_width - x,
    {
        let mut total = Vec3::zero();
        let mut taken: usize = 0;
        while taken < samples_per_pixel
            invariant
                taken <= samples_per_pixel,
                forall|x: usize, row: usize, g: &mut Rand| call_requires(*sample, (x, row, g)),
                forall|a: &Vec3, b: &Vec3| call_requires(*sum, (a, b)),
                samples_total(x, y, taken as nat, *sample, *sum, total),
            decreases samples_per_pixel - taken,
        {
            let one = sample(x, y, rng);
            total = sum(&total, &one);
            taken += 1;
        }
        let levels = level(&total, samples_per_pixel);
        let ghost before = row@;
        row.push(levels);
        proof {
            assert forall|done: int| 0 <= done < x + 1 implies pixel_levels(
                done as usize,
                y,
                samples_per_pixel,
                *sample,
                *sum,
                *level,
                #[trigger] row[done],
            ) by {
                if done < x {
                    assert(row[done] == before[done]);
                }
            }
        }
        x += 1;
    }
    row
}

/// The byte that shows a level of brightness: the level kept within
/// `0 ..= 255.999` and cut off behind the point.
pub open spec fn tone(level: Scalar) -> int {
    level.clamp_spec(Scalar { bits: 0 }, Scalar { bits: WHITE_BITS }).to_u8_spec()
}

pub fn tone_byte(level: Scalar) -> (r: u8)
    ensures
        r == tone(level),
{
    level.clamp(Scalar::zero(), Scalar { bits: WHITE_BITS }).to_u8()
}

/// The three bytes of a pixel.
pub open spec fn pixel_bytes(levels: Vec3) -> Seq<u8> {
    seq![tone(levels.x) as u8, tone(levels.y) as u8, tone(levels.z) as u8]
}

/// The bytes of the first `count` pixels of a row, from left to right.
pub open spec fn row_bytes(row: Seq<Vec3>, count: int) -> Seq<u8>
    decreases count,
{
    if count <= 0 {
        Seq::empty()
    } else {
        row_bytes(row, count - 1) + pixel_bytes(row[count - 1])
    }
}

/// The bytes of the rows from the topmost down to row `from`.  Row 0 is the
/// bottom of the image, and the image starts with its top.
pub open spec fn image_bytes(rows: Seq<Vec<Vec3>>, from: int) -> Seq<u8>
    decreases rows.len() - from,
{
    if from >= rows.len() || from < 0 {
        Seq::empty()
    } else {
        image_bytes(rows, from + 1) + row_bytes(rows[from]@, rows[from]@.len() as int)
    }
}

/// Lays an image out as bytes: three per pixel, the rows from top to
/// bottom, each row from left to right.
///
/// `rows[y][x]` holds, for the red, green and blue of the pixel in column
/// `x` of row `y` counted from the bottom, the level of brightness: 256
/// times the square root of the mean radiance.  In whatever order the rows
/// were computed, the bytes come out in the order of the image.
pub fn draw(rows: &Vec<Vec<Vec3>>) -> (image: Vec<u8>)
    ensures
        image@ == image_bytes(rows@, 0),
{
    let mut image: Vec<u8> = Vec::new();
    let mut y: usize = rows.len();
    while y > 0
        invariant
            y <= rows.len(),
            image@ == image_bytes(rows@, y as int),
        decreases y,
    {
        y -= 1;
        let row = &rows[y];
        let ghost above = image@;
        let mut x: usize = 0;
        while x < row.len()
            invariant
                x <= row.len(),
                image@ == above + row_bytes(row@, x as int),
            decreases row.len() - x,
        {
            let levels = row[x];
            let ghost before = image@;
            image.push(tone_byte(levels.x));
            image.push(tone_byte(levels.y));
            image.push(tone_byte(levels.z));
            proof {
                assert(image@ =~= before + pixel_bytes(levels));
                assert(image@ =~= above + row_bytes(row@, x + 1));
            }
            x += 1;
        }
    }
    image
}

/// A row of `count` pixels has three bytes per pixel, and byte `c` of pixel
/// `x` shows the level of channel `c` of that pixel.
pub proof fn lemma_row_bytes_index(row: Seq<Vec3>, count: int, x: int, c: int)
    requires
        0 <= x < count <= row.len(),
        0 <= c < 3,
    ensures
        row_bytes(row, count).len() == 3 * count,
        row_bytes(row, count)[3 * x + c] == tone(row[x].at(c)) as u8,
    decreases count,
{
    lemma_row_bytes_len(row, count - 1);
    if x < count - 1 {
        lemma_row_bytes_index(row, count - 1, x, c);
    }
}

proof fn lemma_row_bytes_len(row: Seq<Vec3>, count: int)
    requires
        0 <= count,
    ensures
        row_bytes(row, count).len() == 3 * count,
    decreases count,
{
    if count > 0 {
        lemma_row_bytes_len(row, count - 1);
    }
}

/// In an image of rows of one width, the pixel in column `x` of row `y`
/// stands behind the rows above it and the pixels to its left: its bytes
/// start at `3 * ((height - 1 - y) * width + x)`.
pub proof fn lemma_image_bytes_index(rows: Seq<Vec<Vec3>>, width: int, y: int, x: int, c: int)
    requires
        forall|i: int| 0 <= i < rows.len() ==> (#[trigger] rows[i])@.len() == width,
        0 <= y < rows.len(),
        0 <= x < width,
        0 <= c < 3,
    ensures
        image_bytes(rows, 0).len() == 3 * width * rows.len(),
        0 <= 3 * ((rows.len() - 1 - y) * width + x) + c < image_bytes(rows, 0).len(),
        image_bytes(rows, 0)[3 * ((rows.len() - 1 - y) * width + x) + c] == tone(
            rows[y]@[x].at(c),
        ) as u8,
{
    lemma_image_bytes_from(rows, width, 0, y, x, c);
}

proof fn lemma_image_bytes_len(rows: Seq<Vec<Vec3>>, width: int, from: int)
    requires
        forall|i: int| 0 <= i < rows.len() ==> (#[trigger] rows[i])@.len() == width,
        0 <= from <= rows.len(),
    ensures
        image_bytes(rows, from).len() == 3 * (width * (rows.len() - from)),
    decreases rows.len() - from,
{
    if from < rows.len() {
        lemma_image_bytes_len(rows, width, from + 1);
        lemma_row_bytes_len(rows[from]@, width);
        assert(3 * (width * (rows.len() - from - 1)) + 3 * width == 3 * (width * (rows.len()
            - from))) by (nonlinear_arith);
    } else {
        assert(width * (rows.len() - from) == 0) by (nonlinear_arith)
            requires
                rows.len() - from == 0,
        ;
    }
}

proof fn lemma_image_bytes_from(rows: Seq<Vec<Vec3>>, width: int, from: int, y: int, x: int, c: int)
    requires
        forall|i: int| 0 <= i < rows.len() ==> (#[trigger] rows[i])@.len() == width,
        0 <= from <= y < rows.len(),
        0 <= x < width,
        0 <= c < 3,
    ensures
        image_bytes(rows, from).len() == 3 * width * (rows.len() - from),
        0 <= 3 * ((rows.len() - 1 - y) * width + x) + c < image_bytes(rows, from).len(),
        image_bytes(rows, from)[3 * ((rows.len() - 1 - y) * width + x) + c] == tone(
            rows[y]@[x].at(c),
        ) as u8,
    decreases rows.len() - from,
{
    let height = rows.len() as int;
    let at = 3 * ((height - 1 - y) * width + x) + c;
    lemma_image_bytes_len(rows, width, from);
    lemma_image_bytes_len(rows, width, from + 1);
    assert(3 * (width * (height - from)) == 3 * width * (height - from)) by (nonlinear_arith);
    let above = image_bytes(rows, from + 1);
    let here = row_bytes(rows[from]@, width);
    assert(image_bytes(rows, from) == above + here);
    assert(0 <= (height - 1 - y) * width) by (nonlinear_arith)
        requires
            0 <= height - 1 - y,
            0 <= width,
    ;
    if from < y {
        lemma_image_bytes_from(rows, width, from + 1, y, x, c);
        assert(3 * (width * (height - (from + 1))) == 3 * width * (height - (from + 1)))
            by (nonlinear_arith);
        assert((above + here)[at] == above[at]);
    } else {
        lemma_row_bytes_index(rows[from]@, width, x, c);
        assert((height - 1 - y) * width == width * (height - from - 1)) by (nonlinear_arith)
            requires
                y == from,
        ;
        assert(at == above.len() + 3 * x + c);
        assert((above + here)[at] == here[3 * x + c]);
        assert(at < 3 * (width * (height - from))) by (nonlinear_arith)
            requires
                at == 3 * (width * (height - from - 1)) + 3 * x + c,
                0 <= x < width,
                0 <= c < 3,
        ;
    }
    if from < y {
        assert(at < 3 * (width * (height - from))) by (nonlinear_arith)
            requires
                at < 3 * (width * (height - (from + 1))),
                0 <= width,
        ;
    }
}

} // verus!
