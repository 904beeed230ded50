//! The integrator, which estimates the light that arrives along a ray, and
//! the loop that turns its estimates into the pixels of an image file.
//!
//! Each sampling function comes with two specifications: a relation that
//! holds of its result whatever is drawn (`may_...`), and a function that
//! gives its result for a sampler that replays given words
//! (`..._replayed`).

use crate::camera::Camera;
use crate::config::ConfigError;
use crate::config::Settings;
use crate::color::decimal;
use crate::color::pixel_line;
use crate::color::push_decimal;
use crate::color::Color;
use crate::color::ASCII_LINE_FEED;
use crate::color::ASCII_SPACE;
use crate::fixed::Fixed;
use crate::fixed::RAW_MAX;
use crate::fixed::SCALE;
use crate::hittable::Hittable;
use crate::hittable_list::HittableList;
use crate::material::Material;
use crate::material::Scatter;
use crate::random::Sampler;
use crate::ray::Ray;
use crate::vec3::Vec3;
use vstd::prelude::*;
use vstd::std_specs::ops::AddSpec;
use vstd::std_specs::ops::DivSpec;
use vstd::std_specs::ops::MulSpec;
use vstd::std_specs::ops::SubSpec;

verus! {

/// The raw value of a thousandth: hits nearer than this to the origin of a
/// ray are ignored, so that a scattered ray does not hit the surface that it
/// leaves.
pub const T_MIN_RAW: i64 = 4294967;

/// The raw value of one half.
pub const HALF_RAW: i64 = 0x8000_0000;

/// The raw value of 0.7, the green of the sky.
pub const SKY_GREEN_RAW: i64 = 3006477107;

/// Black: no light.
pub open spec fn black() -> Color {
    Vec3::zero_spec()
}

/// White: full intensity in each channel.
pub open spec fn white() -> Color {
    Vec3 { x: Fixed { raw: SCALE }, y: Fixed { raw: SCALE }, z: Fixed { raw: SCALE } }
}

/// The blue of the sky.
pub open spec fn sky_blue() -> Color {
    Vec3 { x: Fixed { raw: HALF_RAW }, y: Fixed { raw: SKY_GREEN_RAW }, z: Fixed { raw: SCALE } }
}

/// The colour of the background along `ray`: white blended into the blue of
/// the sky by `t = (y + 1) / 2`, where `y` is the height of the ray's unit
/// direction.
pub open spec fn background_spec(ray: Ray) -> Color {
    let t = (Fixed { raw: HALF_RAW }).mul_spec(
        ray.direction.unit_vector_spec().y.add_spec(Fixed { raw: SCALE }),
    );
    white().scaled((Fixed { raw: SCALE }).sub_spec(t)).plus(sky_blue().scaled(t))
}

/// The colour that a ray which hits nothing brings back: a gradient from
/// white at the bottom to blue at the top.
pub fn background(ray: &Ray) -> (c: Color)
    ensures
        c == background_spec(*ray),
{
    let unit_direction = ray.direction.unit_vector();
    let t = Fixed::from_raw(HALF_RAW) * (unit_direction.y + Fixed::one());
    let white = Vec3::new(Fixed::one(), Fixed::one(), Fixed::one());
    let blue = Vec3::new(Fixed::from_raw(HALF_RAW), Fixed::from_raw(SKY_GREEN_RAW), Fixed::one());
    (Fixed::one() - t) * white + t * blue
}

/// The light that a scattered ray carries on: what comes in along it,
/// attenuated channel by channel, or nothing where the ray was absorbed.
pub open spec fn shade(out: Scatter, incoming: Color) -> Color {
    if out.2 {
        out.0.hadamard(incoming)
    } else {
        black()
    }
}

/// Whether `color` is a possible estimate of the light that arrives along
/// `ray` with `depth` bounces left: black where none is left; the background
/// where the ray hits nothing; and else the shading of a possible scattering
/// at the nearest hit by a possible estimate along the scattered ray.
#[verifier::opaque]
pub open spec fn may_yield<W: Hittable>(world: &W, ray: Ray, depth: int, color: Color) -> bool where
    W::Surface: Material,

    decreases depth,
{
    if depth <= 0 {
        color == black()
    } else {
        match world.hit_spec(ray, Fixed { raw: RAW_MAX }, Fixed { raw: T_MIN_RAW }) {
            None => color == background_spec(ray),
            Some(record) => exists|out: Scatter, incoming: Color|
                record.material.may_scatter(ray, record, out) && (out.2 ==> may_yield(
                    world,
                    out.1,
                    depth - 1,
                    incoming,
                )) && color == #[trigger] shade(out, incoming),
        }
    }
}

/// What `ray_color` gives with a replaying sampler, and the sampler
/// afterwards.
#[verifier::opaque]
pub open spec fn ray_color_replayed<W: Hittable>(world: &W, ray: Ray, depth: int, rng: Sampler) -> (
    Color,
    Sampler,
) where W::Surface: Material
    decreases depth,
{
    if depth <= 0 {
        (black(), rng)
    } else {
        match world.hit_spec(ray, Fixed { raw: RAW_MAX }, Fixed { raw: T_MIN_RAW }) {
            None => (background_spec(ray), rng),
            Some(record) => {
                let (out, next) = record.material.scatter_replayed(ray, record, rng);
                if out.2 {
                    let (incoming, last) = ray_color_replayed(world, out.1, depth - 1, next);
                    (shade(out, incoming), last)
                } else {
                    (black(), next)
                }
            },
        }
    }
}

/// In a scene without objects every ray brings back the colour of the
/// background, whatever is drawn.
pub proof fn lemma_empty_scene_shows_background<H: Hittable>(
    world: &HittableList<H>,
    ray: Ray,
    depth: int,
    color: Color,
) where H::Surface: Material
    requires
        world.objects@.len() == 0,
        depth > 0,
        may_yield(world, ray, depth, color),
    ensures
        color == background_spec(ray),
{
    reveal(may_yield);
    world.lemma_empty_list_is_missed(ray, Fixed { raw: RAW_MAX }, Fixed { raw: T_MIN_RAW });
}

/// Estimates the light that arrives along `ray` from the scene `world`,
/// following the ray over at most `depth` bounces.
pub fn ray_color<W: Hittable>(ray: &Ray, world: &W, depth: i32, rng: &mut Sampler) -> (color:
    Color) where W::Surface: Material
    ensures
        may_yield(world, *ray, depth as int, color),
        old(rng).replays() ==> (color, *final(rng)) == ray_color_replayed(
            world,
            *ray,
            depth as int,
            *old(rng),
        ),
        depth <= 0 ==> color == black(),
        depth > 0 && world.hit_spec(*ray, Fixed { raw: RAW_MAX }, Fixed { raw: T_MIN_RAW })
            is None ==> color == background_spec(*ray),
        old(rng).replays() == final(rng).replays(),
    decreases depth,
{
    proof {
        reveal(may_yield);
        reveal(ray_color_replayed);
    }
    if depth <= 0 {
        return Vec3::zero();
    }
    match world.hit(ray, Fixed::max_value(), Fixed::from_raw(T_MIN_RAW)) {
        Some(record) => {
            let material = record.material;
            let out = material.scatter(ray, record, rng);
            let (attenuation, scattered, success) = out;
            if success {
                let incoming = ray_color(&scattered, world, depth - 1, rng);
                proof {
                    assert(attenuation.hadamard(incoming) == shade(out, incoming));
                }
                attenuation * incoming
            } else {
                proof {
                    assert(Vec3::zero_spec() == shade(out, Vec3::zero_spec()));
                }
                Vec3::zero()
            }
        },
        None => background(ray),
    }
}

/// The position of a pixel along one axis of the viewport: its index,
/// displaced by `jitter` within the pixel, over the last index.
pub open spec fn pixel_coordinate_spec(index: int, jitter: Fixed, extent: int) -> Fixed {
    Fixed::int_spec(index).add_spec(jitter).div_spec(
        Fixed::int_spec(extent).sub_spec(Fixed { raw: SCALE }),
    )
}

/// Maps the pixel `index` of an axis with `extent` pixels, displaced by
/// `jitter`, to its position on the viewport. On an axis of a single pixel
/// the position saturates, unless it is zero.
pub fn pixel_coordinate(index: i32, jitter: Fixed, extent: i32) -> (r: Fixed)
    ensures
        r == pixel_coordinate_spec(index as int, jitter, extent as int),
{
    (Fixed::from_int(index) + jitter) / (Fixed::from_int(extent) - Fixed::one())
}

/// Whether `color` is a possible estimate for one sample of the pixel in
/// column `col` and row `row`: a possible estimate along a ray that the
/// camera may cast through the pixel, displaced within it.
pub open spec fn may_sample<W: Hittable>(
    camera: Camera,
    world: &W,
    col: int,
    row: int,
    settings: Settings,
    color: Color,
) -> bool where W::Surface: Material {
    exists|du: Fixed, dv: Fixed, ray: Ray|
        0 <= du.raw < SCALE && 0 <= dv.raw < SCALE && #[trigger] camera.may_cast(
            pixel_coordinate_spec(col, du, settings.image_width as int),
            pixel_coordinate_spec(row, dv, settings.image_height as int),
            ray,
        ) && may_yield(world, ray, settings.max_depth as int, color)
}

/// Whether `sum` is a possible sum of `count` samples of a pixel.
#[verifier::opaque]
pub open spec fn may_accumulate<W: Hittable>(
    camera: Camera,
    world: &W,
    col: int,
    row: int,
    settings: Settings,
    count: int,
    sum: Color,
) -> bool where W::Surface: Material
    decreases count,
{
    if count <= 0 {
        sum == black()
    } else {
        exists|before: Color, color: Color|
            may_accumulate(camera, world, col, row, settings, count - 1, before) && may_sample(
                camera,
                world,
                col,
                row,
                settings,
                color,
            ) && sum == #[trigger] before.plus(color)
    }
}

/// What one sample of a pixel gives with a replaying sampler, and the
/// sampler afterwards: the first draw displaces the ray upward and the
/// second to the right, then the camera casts the ray, and the integrator
/// follows it.
pub open spec fn sample_replayed<W: Hittable>(
    camera: Camera,
    world: &W,
    col: int,
    row: int,
    settings: Settings,
    rng: Sampler,
) -> (Color, Sampler) where W::Surface: Material {
    let v = pixel_coordinate_spec(row, rng.upcoming_unit(), settings.image_height as int);
    let u = pixel_coordinate_spec(
        col,
        rng.advanced().upcoming_unit(),
        settings.image_width as int,
    );
    let (ray, next) = camera.get_ray_replayed(u, v, rng.advanced().advanced());
    ray_color_replayed(world, ray, settings.max_depth as int, next)
}

/// What the sum of `count` samples of a pixel is with a replaying sampler,
/// and the sampler afterwards.
#[verifier::opaque]
pub open spec fn accumulate_replayed<W: Hittable>(
    camera: Camera,
    world: &W,
    col: int,
    row: int,
    settings: Settings,
    count: int,
    rng: Sampler,
) -> (Color, Sampler) where W::Surface: Material
    decreases count,
{
    if count <= 0 {
        (black(), rng)
    } else {
        let (before, next) = accumulate_replayed(camera, world, col, row, settings, count - 1, rng);
        let (color, last) = sample_replayed(camera, world, col, row, settings, next);
        (before.plus(color), last)
    }
}

/// No samples sum up to black.
proof fn lemma_accumulate_start<W: Hittable>(
    camera: Camera,
    world: &W,
    col: int,
    row: int,
    settings: Settings,
    rng: Sampler,
) where W::Surface: Material
    ensures
        forall|count: int|
            count <= 0 ==> #[trigger] may_accumulate(
                camera,
                world,
                col,
                row,
                settings,
                count,
                black(),
            ),
        forall|count: int|
            count <= 0 ==> #[trigger] accumulate_replayed(
                camera,
                world,
                col,
                row,
                settings,
                count,
                rng,
            ) == (black(), rng),
{
    reveal(may_accumulate);
    reveal(accumulate_replayed);
}

/// One more sample extends a possible sum of samples.
proof fn lemma_accumulate_step<W: Hittable>(
    camera: Camera,
    world: &W,
    col: int,
    row: int,
    settings: Settings,
    count: int,
    before: Color,
    color: Color,
    rng: Sampler,
) where W::Surface: Material
    requires
        count >= 0,
        may_accumulate(camera, world, col, row, settings, count, before),
        may_sample(camera, world, col, row, settings, color),
    ensures
        may_accumulate(camera, world, col, row, settings, count + 1, before.plus(color)),
        accumulate_replayed(camera, world, col, row, settings, count + 1, rng) == ({
            let (sum, next) = accumulate_replayed(camera, world, col, row, settings, count, rng);
            let (sample, last) = sample_replayed(camera, world, col, row, settings, next);
            (sum.plus(sample), last)
        }),
{
    reveal(may_accumulate);
    reveal(accumulate_replayed);
}

/// Sums the estimates of `samples_per_pixel` rays through the pixel in
/// column `col` and row `row`, where row zero is the lowest.
pub fn sample_pixel<W: Hittable>(
    camera: &Camera,
    world: &W,
    col: i32,
    row: i32,
    settings: &Settings,
    rng: &mut Sampler,
) -> (sum: Color) where W::Surface: Material
    ensures
        may_accumulate(
            *camera,
            world,
            col as int,
            row as int,
            *settings,
            settings.samples_per_pixel as int,
            sum,
        ),
        old(rng).replays() ==> (sum, *final(rng)) == accumulate_replayed(
            *camera,
            world,
            col as int,
            row as int,
            *settings,
            settings.samples_per_pixel as int,
            *old(rng),
        ),
        old(rng).replays() == final(rng).replays(),
{
    let mut sum = Vec3::zero();
    let mut count: i32 = 0;
    proof {
        lemma_accumulate_start(*camera, world, col as int, row as int, *settings, *rng);
    }
    while count < settings.samples_per_pixel
        invariant
            0 <= count,
            count <= settings.samples_per_pixel || count == 0,
            count == 0 ==> sum == black(),
            may_accumulate(*camera, world, col as int, row as int, *settings, count as int, sum),
            old(rng).replays() ==> (sum, *rng) == accumulate_replayed(
                *camera,
                world,
                col as int,
                row as int,
                *settings,
                count as int,
                *old(rng),
            ),
            old(rng).replays() == rng.replays(),
        decreases settings.samples_per_pixel - count,
    {
        let dv = rng.next_unit();
        let v = pixel_coordinate(row, dv, settings.image_height);
        let du = rng.next_unit();
        let u = pixel_coordinate(col, du, settings.image_width);
        let ray = camera.get_ray(u, v, rng);
        let color = ray_color(&ray, world, settings.max_depth, rng);
        proof {
            assert(may_sample(*camera, world, col as int, row as int, *settings, color));
            lemma_accumulate_step(
                *camera,
                world,
                col as int,
                row as int,
                *settings,
                count as int,
                sum,
                color,
                *old(rng),
            );
        }
        sum = sum + color;
        count = count + 1;
    }
    proof {
        lemma_accumulate_start(*camera, world, col as int, row as int, *settings, *old(rng));
    }
    sum
}

/// The head of the image file: the magic number of a plain pixmap, the
/// width and the height, and the largest value of a channel.
pub open spec fn header_spec(width: nat, height: nat) -> Seq<u8> {
    seq![80u8, 51u8, ASCII_LINE_FEED] + decimal(width).push(ASCII_SPACE) + decimal(height).push(
        ASCII_LINE_FEED,
    ) + seq![50u8, 53u8, 53u8, ASCII_LINE_FEED]
}

/// Appends the head of the image file to `out`: the lines `P3`, the width
/// and the height, and `255`.
pub fn write_header(width: u32, height: u32, out: &mut Vec<u8>)
    ensures
        final(out)@ == old(out)@ + header_spec(width as nat, height as nat),
{
    out.push(80u8);
    out.push(51u8);
    out.push(ASCII_LINE_FEED);
    push_decimal(out, width);
    out.push(ASCII_SPACE);
    push_decimal(out, height);
    out.push(ASCII_LINE_FEED);
    out.push(50u8);
    out.push(53u8);
    out.push(53u8);
    out.push(ASCII_LINE_FEED);
}

/// The lines `before`, followed by the line for the sum `sum` of
/// `samples_per_pixel` samples.
pub open spec fn with_pixel(before: Seq<u8>, sum: Color, samples_per_pixel: int) -> Seq<u8> {
    before + pixel_line(sum.to_rgb_spec(samples_per_pixel))
}

/// Whether `bytes` can be the lines for the first `cols` pixels of the row
/// `row`, from left to right.
#[verifier::opaque]
pub open spec fn may_write_row<W: Hittable>(
    camera: Camera,
    world: &W,
    row: int,
    settings: Settings,
    cols: int,
    bytes: Seq<u8>,
) -> bool where W::Surface: Material
    decreases cols,
{
    if cols <= 0 {
        bytes == Seq::<u8>::empty()
    } else {
        exists|before: Seq<u8>, sum: Color|
            may_write_row(camera, world, row, settings, cols - 1, before) && may_accumulate(
                camera,
                world,
                cols - 1,
                row,
                settings,
                settings.samples_per_pixel as int,
                sum,
            ) && bytes == #[trigger] with_pixel(before, sum, settings.samples_per_pixel as int)
    }
}

/// What the lines for the first `cols` pixels of the row `row` are with a
/// replaying sampler, and the sampler afterwards.
#[verifier::opaque]
pub open spec fn write_row_replayed<W: Hittable>(
    camera: Camera,
    world: &W,
    row: int,
    settings: Settings,
    cols: int,
    rng: Sampler,
) -> (Seq<u8>, Sampler) where W::Surface: Material
    decreases cols,
{
    if cols <= 0 {
        (Seq::<u8>::empty(), rng)
    } else {
        let (before, next) = write_row_replayed(camera, world, row, settings, cols - 1, rng);
        let (sum, last) = accumulate_replayed(
            camera,
            world,
            cols - 1,
            row,
            settings,
            settings.samples_per_pixel as int,
            next,
        );
        (with_pixel(before, sum, settings.samples_per_pixel as int), last)
    }
}

/// No pixels give no lines.
proof fn lemma_write_row_start<W: Hittable>(
    camera: Camera,
    world: &W,
    row: int,
    settings: Settings,
    rng: Sampler,
) where W::Surface: Material
    ensures
        forall|cols: int|
            cols <= 0 ==> #[trigger] may_write_row(
                camera,
                world,
                row,
                settings,
                cols,
                Seq::<u8>::empty(),
            ),
        forall|cols: int|
            cols <= 0 ==> #[trigger] write_row_replayed(camera, world, row, settings, cols, rng)
                == (Seq::<u8>::empty(), rng),
{
    reveal(may_write_row);
    reveal(write_row_replayed);
}

/// One more pixel extends the possible lines of a row.
proof fn lemma_write_row_step<W: Hittable>(
    camera: Camera,
    world: &W,
    row: int,
    settings: Settings,
    cols: int,
    before: Seq<u8>,
    sum: Color,
    rng: Sampler,
) where W::Surface: Material
    requires
        cols >= 0,
        may_write_row(camera, world, row, settings, cols, before),
        may_accumulate(
            camera,
            world,
            cols,
            row,
            settings,
            settings.samples_per_pixel as int,
            sum,
        ),
    ensures
        may_write_row(
            camera,
            world,
            row,
            settings,
            cols + 1,
            with_pixel(before, sum, settings.samples_per_pixel as int),
        ),
        write_row_replayed(camera, world, row, settings, cols + 1, rng) == ({
            let (lines, next) = write_row_replayed(camera, world, row, settings, cols, rng);
            let (total, last) = accumulate_replayed(
                camera,
                world,
                cols,
                row,
                settings,
                settings.samples_per_pixel as int,
                next,
            );
            (with_pixel(lines, total, settings.samples_per_pixel as int), last)
        }),
{
    reveal(may_write_row);
    reveal(write_row_replayed);
}

/// Renders one row of the image, from left to right, as lines of the image
/// file. Row zero is the lowest.
pub fn render_row<W: Hittable>(
    camera: &Camera,
    world: &W,
    row: i32,
    settings: &Settings,
    rng: &mut Sampler,
) -> (line: Vec<u8>) where W::Surface: Material
    ensures
        may_write_row(*camera, world, row as int, *settings, settings.image_width as int, line@),
        old(rng).replays() ==> (line@, *final(rng)) == write_row_replayed(
            *camera,
            world,
            row as int,
            *settings,
            settings.image_width as int,
            *old(rng),
        ),
        old(rng).replays() == final(rng).replays(),
{
    let mut line: Vec<u8> = Vec::new();
    let mut col: i32 = 0;
    proof {
        lemma_write_row_start(*camera, world, row as int, *settings, *rng);
    }
    while col < settings.image_width
        invariant
            0 <= col,
            col <= settings.image_width || col == 0,
            col == 0 ==> line@ == Seq::<u8>::empty(),
            may_write_row(*camera, world, row as int, *settings, col as int, line@),
            old(rng).replays() ==> (line@, *rng) == write_row_replayed(
                *camera,
                world,
                row as int,
                *settings,
                col as int,
                *old(rng),
            ),
            old(rng).replays() == rng.replays(),
        decreases settings.image_width - col,
    {
        let ghost before = line@;
        let sum = sample_pixel(camera, world, col, row, settings, rng);
        sum.write_color(settings.samples_per_pixel, &mut line);
        proof {
            assert(line@ == with_pixel(before, sum, settings.samples_per_pixel as int));
            lemma_write_row_step(
                *camera,
                world,
                row as int,
                *settings,
                col as int,
                before,
                sum,
                *old(rng),
            );
        }
        col = col + 1;
    }
    proof {
        lemma_write_row_start(*camera, world, row as int, *settings, *old(rng));
    }
    line
}

/// The lines `before`, followed by the lines `line`.
pub open spec fn with_row(before: Seq<u8>, line: Seq<u8>) -> Seq<u8> {
    before + line
}

/// Whether `bytes` can be the lines of the `rows` topmost rows of the image,
/// from the top down.
#[verifier::opaque]
pub open spec fn may_write_rows<W: Hittable>(
    camera: Camera,
    world: &W,
    settings: Settings,
    rows: int,
    bytes: Seq<u8>,
) -> bool where W::Surface: Material
    decreases rows,
{
    if rows <= 0 {
        bytes == Seq::<u8>::empty()
    } else {
        exists|before: Seq<u8>, line: Seq<u8>|
            may_write_rows(camera, world, settings, rows - 1, before) && may_write_row(
                camera,
                world,
                settings.image_height - rows,
                settings,
                settings.image_width as int,
                line,
            ) && bytes == #[trigger] with_row(before, line)
    }
}

/// What the lines of the `rows` topmost rows of the image are with a
/// replaying sampler, and the sampler afterwards.
#[verifier::opaque]
pub open spec fn write_rows_replayed<W: Hittable>(
    camera: Camera,
    world: &W,
    settings: Settings,
    rows: int,
    rng: Sampler,
) -> (Seq<u8>, Sampler) where W::Surface: Material
    decreases rows,
{
    if rows <= 0 {
        (Seq::<u8>::empty(), rng)
    } else {
        let (before, next) = write_rows_replayed(camera, world, settings, rows - 1, rng);
        let (line, last) = write_row_replayed(
            camera,
            world,
            settings.image_height - rows,
            settings,
            settings.image_width as int,
            next,
        );
        (with_row(before, line), last)
    }
}

/// No rows give no lines.
proof fn lemma_write_rows_start<W: Hittable>(
    camera: Camera,
    world: &W,
    settings: Settings,
    rng: Sampler,
) where W::Surface: Material
    ensures
        forall|rows: int|
            rows <= 0 ==> #[trigger] may_write_rows(
                camera,
                world,
                settings,
                rows,
                Seq::<u8>::empty(),
            ),
        forall|rows: int|
            rows <= 0 ==> #[trigger] write_rows_replayed(camera, world, settings, rows, rng) == (
                Seq::<u8>::empty(),
                rng,
            ),
{
    reveal(may_write_rows);
    reveal(write_rows_replayed);
}

/// One more row extends the possible lines of an image.
proof fn lemma_write_rows_step<W: Hittable>(
    camera: Camera,
    world: &W,
    settings: Settings,
    rows: int,
    before: Seq<u8>,
    line: Seq<u8>,
    rng: Sampler,
) where W::Surface: Material
    requires
        rows >= 0,
        may_write_rows(camera, world, settings, rows, before),
        may_write_row(
            camera,
            world,
            settings.image_height - (rows + 1),
            settings,
            settings.image_width as int,
            line,
        ),
    ensures
        may_write_rows(camera, world, settings, rows + 1, with_row(before, line)),
        write_rows_replayed(camera, world, settings, rows + 1, rng) == ({
            let (lines, next) = write_rows_replayed(camera, world, settings, rows, rng);
            let (written, last) = write_row_replayed(
                camera,
                world,
                settings.image_height - (rows + 1),
                settings,
                settings.image_width as int,
                next,
            );
            (with_row(lines, written), last)
        }),
{
    reveal(may_write_rows);
    reveal(write_rows_replayed);
}

/// Renders all rows of the image, from the top down, as lines of the image
/// file.
pub fn render_rows<W: Hittable>(
    camera: &Camera,
    world: &W,
    settings: &Settings,
    rng: &mut Sampler,
) -> (body: Vec<u8>) where W::Surface: Material
    ensures
        may_write_rows(*camera, world, *settings, settings.image_height as int, body@),
        old(rng).replays() ==> (body@, *final(rng)) == write_rows_replayed(
            *camera,
            world,
            *settings,
            settings.image_height as int,
            *old(rng),
        ),
        old(rng).replays() == final(rng).replays(),
{
    let mut body: Vec<u8> = Vec::new();
    let mut done: i32 = 0;
    proof {
        lemma_write_rows_start(*camera, world, *settings, *rng);
    }
    while done < settings.image_height
        invariant
            0 <= done,
            done <= settings.image_height || done == 0,
            done == 0 ==> body@ == Seq::<u8>::empty(),
            may_write_rows(*camera, world, *settings, done as int, body@),
            old(rng).replays() ==> (body@, *rng) == write_rows_replayed(
                *camera,
                world,
                *settings,
                done as int,
                *old(rng),
            ),
            old(rng).replays() == rng.replays(),
        decreases settings.image_height - done,
    {
        let ghost before = body@;
        let mut line = render_row(camera, world, settings.image_height - 1 - done, settings, rng);
        let ghost written = line@;
        body.append(&mut line);
        proof {
            assert(body@ == with_row(before, written));
            lemma_write_rows_step(
                *camera,
                world,
                *settings,
                done as int,
                before,
                written,
                *old(rng),
            );
        }
        done = done + 1;
    }
    proof {
        lemma_write_rows_start(*camera, world, *settings, *old(rng));
    }
    body
}

/// Whether `bytes` can be the image file of the scene: the head, and then
/// the rows from the top down.
pub open spec fn may_render<W: Hittable>(
    camera: Camera,
    world: &W,
    settings: Settings,
    bytes: Seq<u8>,
) -> bool where W::Surface: Material {
    exists|body: Seq<u8>|
        #[trigger] may_write_rows(camera, world, settings, settings.image_height as int, body)
            && bytes == header_spec(settings.image_width as nat, settings.image_height as nat)
            + body
}

/// What a rendering is refused for: what is wrong with the settings, or
/// else with the camera, or else with the scene.
pub open spec fn configuration_fault<W: Hittable>(
    camera: Camera,
    world: &W,
    settings: Settings,
) -> Option<ConfigError> {
    match settings.fault() {
        Some(error) => Some(error),
        None => match camera.fault() {
            Some(error) => Some(error),
            None => world.fault(),
        },
    }
}

/// What the image file of the scene is with a replaying sampler, and the
/// sampler afterwards.
pub open spec fn render_replayed<W: Hittable>(
    camera: Camera,
    world: &W,
    settings: Settings,
    rng: Sampler,
) -> (Seq<u8>, Sampler) where W::Surface: Material {
    let (body, last) = write_rows_replayed(
        camera,
        world,
        settings,
        settings.image_height as int,
        rng,
    );
    (header_spec(settings.image_width as nat, settings.image_height as nat) + body, last)
}

/// Renders the scene `world` as seen by `camera` into a plain pixmap file.
/// A configuration that is not valid is refused before any ray is cast.
pub fn render<W: Hittable>(
    camera: &Camera,
    world: &W,
    settings: &Settings,
    rng: &mut Sampler,
) -> (r: Result<Vec<u8>, ConfigError>) where W::Surface: Material
    ensures
        r is Ok <==> configuration_fault(*camera, world, *settings) is None,
        r matches Ok(bytes) ==> may_render(*camera, world, *settings, bytes@),
        r matches Ok(bytes) ==> old(rng).replays() ==> (bytes@, *final(rng)) == render_replayed(
            *camera,
            world,
            *settings,
            *old(rng),
        ),
        r matches Err(error) ==> configuration_fault(*camera, world, *settings) == Some(error),
        r is Err ==> *final(rng) == *old(rng),
        old(rng).replays() == final(rng).replays(),
{
    match settings.check() {
        Err(error) => {
            return Err(error);
        },
        Ok(_) => {},
    }
    match camera.check() {
        Err(error) => {
            return Err(error);
        },
        Ok(_) => {},
    }
    match world.check() {
        Err(error) => {
            return Err(error);
        },
        Ok(_) => {},
    }
    let mut out: Vec<u8> = Vec::new();
    write_header(settings.image_width as u32, settings.image_height as u32, &mut out);
    let mut body = render_rows(camera, world, settings, rng);
    out.append(&mut body);
    Ok(out)
}

} // verus!
