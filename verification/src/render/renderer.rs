//! From a scene and a camera to the bytes of an image.
//!
//! The image is cut into groups of eight pixels that lie side by side.  A
//! group is traced as one batch, once per sample; the light of the samples
//! is averaged, its square root taken and brought into `[0, 1]`, and the
//! result written as bytes.  No group reads or writes what belongs to
//! another.

use crate::render::camera::Camera;
use crate::lanes::splat;
use crate::math::{Color, Colors, Rays, Reals, LANES};
use crate::render::batch;
use crate::render::batch::{byte_of, is_full_byte, to_byte, BRIGHTEST_BITS};
use crate::sampling::{places, stratified, stratified_samples, Sample, GRID};
use crate::nearest::is_nearest_single;
use crate::scalar::{
    is_product, is_quotient, product, quotient, Arithmetic, Real, ZERO_BITS, ONE_BITS,
};
use crate::render::scene::Scene;
use vstd::prelude::*;

verus! {

/// `r` is what `unit` gave for `steps / GRID`: a place on the sampling grid
/// as a share of the pixel.
pub open spec fn is_share<A: Arithmetic>(unit: &A, steps: u64, r: Real) -> bool {
    exists|a: Real, b: Real|
        #![trigger is_nearest_single(steps, a), is_nearest_single(GRID, b)]
        is_nearest_single(steps, a) && is_nearest_single(GRID, b) && is_quotient(unit, a, b, r)
}

/// `byte` is what `unit` gave for `shade * 255 * coef`, cut down to a byte.
pub open spec fn is_byte<A: Arithmetic>(unit: &A, shade: Real, coef: Real, byte: u8) -> bool {
    exists|full: Real, dimmed: Real|
        #![trigger is_product(unit, shade, Real { bits: BRIGHTEST_BITS }, full), is_product(unit, full, coef, dimmed)]
        is_product(unit, shade, Real { bits: BRIGHTEST_BITS }, full) && is_product(
            unit,
            full,
            coef,
            dimmed,
        ) && byte == byte_of(dimmed.cut())
}

/// How bright an image is painted.
#[derive(Clone, Copy, Debug)]
pub enum Brightness {
    /// As it is: a channel is `shade * 255`.
    Full,
    /// Dimmed: a channel is `shade * 255` times the number, which is a
    /// product of its own also where the number is one.
    Dimmed(Real),
}

/// `byte` is the channel `shade` as `brightness` asks for it: what `unit`
/// gave for `shade * 255`, or for `shade * 255 * coef`, cut down to a byte.
pub open spec fn is_shown<A: Arithmetic>(
    unit: &A,
    shade: Real,
    brightness: Brightness,
    byte: u8,
) -> bool {
    match brightness {
        Brightness::Full => is_full_byte(unit, shade, byte),
        Brightness::Dimmed(coef) => is_byte(unit, shade, coef, byte),
    }
}

/// `after` is `before` with the color `shade`, as bright as `brightness`
/// says, in its first three bytes; the fourth is left as it was.
pub open spec fn is_painted<A: Arithmetic>(
    unit: &A,
    shade: Color,
    brightness: Brightness,
    before: [u8; 4],
    after: [u8; 4],
) -> bool {
    &&& is_shown(unit, shade.x, brightness, after[0])
    &&& is_shown(unit, shade.y, brightness, after[1])
    &&& is_shown(unit, shade.z, brightness, after[2])
    &&& after[3] == before[3]
}

/// What is needed to render images of one size, with one number of samples
/// per pixel and one depth of reflection.
pub struct Renderer {
    columns: u16,
    rows: u16,
    width: Real,
    height: Real,
    lanes_per_line: usize,
    samples_per_pixel: usize,
    max_depth: usize,
    samples: Vec<Sample>,
    x_deltas: Vec<Reals>,
    y_deltas: Vec<Reals>,
}

impl Renderer {
    #[verifier::type_invariant]
    spec fn well_formed(self) -> bool {
        &&& self.samples.len() == self.samples_per_pixel || self.samples.len() == 0
        &&& self.x_deltas.len() == self.samples_per_pixel
        &&& self.y_deltas.len() == self.samples_per_pixel
        &&& self.lanes_per_line == self.columns as int / LANES as int
    }

    /// The number of pixels in a row of the image.
    pub closed spec fn columns(self) -> int {
        self.columns as int
    }

    /// The number of rows of the image.
    pub closed spec fn rows(self) -> int {
        self.rows as int
    }

    /// The width of the image as a number.
    pub closed spec fn width(self) -> Real {
        self.width
    }

    /// The height of the image as a number.
    pub closed spec fn height(self) -> Real {
        self.height
    }

    /// The number of samples per pixel.
    pub closed spec fn samples_per_pixel(self) -> int {
        self.samples_per_pixel as int
    }

    /// How often a ray is reflected at most.
    pub closed spec fn max_depth(self) -> int {
        self.max_depth as int
    }

    /// Where in a pixel its samples are taken, on the sampling grid; empty
    /// where the renderer was given its deltas and has laid out none.
    pub closed spec fn samples(self) -> Seq<Sample> {
        self.samples@
    }

    /// Per sample and lane, how far right of a pixel's corner the sample
    /// is taken, as a share of the pixel.
    pub closed spec fn x_deltas(self) -> Seq<Reals> {
        self.x_deltas@
    }

    /// Per sample and lane, how far below a pixel's corner the sample is
    /// taken, as a share of the pixel.
    pub closed spec fn y_deltas(self) -> Seq<Reals> {
        self.y_deltas@
    }

    /// The number of whole groups in a row of the image.
    pub open spec fn lanes_per_line(self) -> int {
        self.columns() / LANES as int
    }

    /// The row that group `n` is traced for.
    pub open spec fn row_of(self, n: int) -> int {
        n / self.lanes_per_line()
    }

    /// The column that lane `i` of group `n` is traced for.
    pub open spec fn column_of(self, n: int, i: int) -> int {
        (n % self.lanes_per_line()) * LANES + i
    }

    /// What [`Renderer::new`] sets up: the samples are stratified, and
    /// each delta is its sample's place as a share of the pixel, the same
    /// in every lane.
    pub open spec fn is_set_up<A: Arithmetic>(
        self,
        unit: &A,
        dimensions: (u16, u16),
        samples_per_pixel: usize,
        max_depth: usize,
    ) -> bool {
        &&& self.columns() == dimensions.0
        &&& self.rows() == dimensions.1
        &&& self.samples_per_pixel() == samples_per_pixel
        &&& self.max_depth() == max_depth
        &&& is_nearest_single(dimensions.0 as u64, self.width())
        &&& is_nearest_single(dimensions.1 as u64, self.height())
        &&& places(self.samples()) == stratified(samples_per_pixel as nat)
        &&& self.x_deltas().len() == samples_per_pixel
        &&& self.y_deltas().len() == samples_per_pixel
        &&& forall|j: int, i: int|
            0 <= j < samples_per_pixel && 0 <= i < LANES ==> is_share(
                unit,
                self.samples()[j].x,
                #[trigger] self.x_deltas()[j][i],
            )
        &&& forall|j: int, i: int|
            0 <= j < samples_per_pixel && 0 <= i < LANES ==> is_share(
                unit,
                self.samples()[j].y,
                #[trigger] self.y_deltas()[j][i],
            )
    }

    /// A renderer for images of `dimensions.0` columns and `dimensions.1`
    /// rows.
    pub fn new<A: Arithmetic>(
        unit: &A,
        dimensions: (u16, u16),
        samples_per_pixel: usize,
        max_depth: usize,
    ) -> (renderer: Renderer)
        requires
            samples_per_pixel >= 1,
        ensures
            renderer.is_set_up(unit, dimensions, samples_per_pixel, max_depth),
    {
        let (width, height) = dimensions;
        let lanes_per_line = width as usize / LANES;
        let samples = stratified_samples(samples_per_pixel);
        let grid = Real::from_integer(GRID);
        let mut x_deltas: Vec<Reals> = Vec::new();
        let mut y_deltas: Vec<Reals> = Vec::new();
        assert(samples@.len() == samples_per_pixel) by {
            crate::sampling::lemma_samples_are_spread(samples_per_pixel as nat);
            assert(places(samples@).len() == samples@.len());
        }
        let mut j: usize = 0;
        while j < samples_per_pixel
            invariant
                j <= samples_per_pixel,
                samples@.len() == samples_per_pixel,
                x_deltas@.len() == j,
                y_deltas@.len() == j,
                is_nearest_single(GRID, grid),
                forall|k: int, i: int|
                    0 <= k < j && 0 <= i < LANES ==> is_share(
                        unit,
                        samples@[k].x,
                        #[trigger] x_deltas@[k][i],
                    ),
                forall|k: int, i: int|
                    0 <= k < j && 0 <= i < LANES ==> is_share(
                        unit,
                        samples@[k].y,
                        #[trigger] y_deltas@[k][i],
                    ),
            decreases samples_per_pixel - j,
        {
            let sample = samples[j];
            let across = Real::from_integer(sample.x);
            let x_delta = quotient(unit, across, grid);
            let up = Real::from_integer(sample.y);
            let y_delta = quotient(unit, up, grid);
            assert(is_share(unit, sample.x, x_delta));
            assert(is_share(unit, sample.y, y_delta));
            x_deltas.push(splat(x_delta));
            y_deltas.push(splat(y_delta));
            j += 1;
        }
        Renderer {
            columns: width,
            rows: height,
            width: Real::from_integer(width as u64),
            height: Real::from_integer(height as u64),
            lanes_per_line,
            samples_per_pixel,
            max_depth,
            samples,
            x_deltas,
            y_deltas,
        }
    }

    /// The numbers of columns and of rows of the image.
    pub fn dimensions(&self) -> (dimensions: (u16, u16))
        ensures
            dimensions.0 == self.columns(),
            dimensions.1 == self.rows(),
    {
        (self.columns, self.rows)
    }

    /// The number of samples per pixel.
    pub fn samples_count(&self) -> (count: usize)
        ensures
            count == self.samples_per_pixel(),
    {
        self.samples_per_pixel
    }

    /// How often a ray is reflected at most.
    pub fn depth(&self) -> (depth: usize)
        ensures
            depth == self.max_depth(),
    {
        self.max_depth
    }

    /// What [`Renderer::with_deltas`] sets up: the deltas are the given
    /// ones, and no samples are laid out.
    pub open spec fn is_given(
        self,
        dimensions: (u16, u16),
        x_deltas: Seq<Reals>,
        y_deltas: Seq<Reals>,
        max_depth: usize,
    ) -> bool {
        &&& self.columns() == dimensions.0
        &&& self.rows() == dimensions.1
        &&& self.samples_per_pixel() == x_deltas.len()
        &&& self.max_depth() == max_depth
        &&& self.samples().len() == 0
        &&& self.x_deltas() == x_deltas
        &&& self.y_deltas() == y_deltas
    }

    /// A renderer that takes its samples where the caller says: sample `j`
    /// of lane `i` at `(x_deltas[j][i], y_deltas[j][i])` from the corner of
    /// its pixel, in shares of the pixel.  This is for samples drawn at
    /// random.
    pub fn with_deltas<A: Arithmetic>(
        unit: &A,
        dimensions: (u16, u16),
        x_deltas: Vec<Reals>,
        y_deltas: Vec<Reals>,
        max_depth: usize,
    ) -> (renderer: Renderer)
        requires
            x_deltas@.len() == y_deltas@.len(),
        ensures
            renderer.is_given(dimensions, x_deltas@, y_deltas@, max_depth),
            is_nearest_single(dimensions.0 as u64, renderer.width()),
            is_nearest_single(dimensions.1 as u64, renderer.height()),
    {
        let (width, height) = dimensions;
        let samples_per_pixel = x_deltas.len();
        Renderer {
            columns: width,
            rows: height,
            width: Real::from_integer(width as u64),
            height: Real::from_integer(height as u64),
            lanes_per_line: width as usize / LANES,
            samples_per_pixel,
            max_depth,
            samples: Vec::new(),
            x_deltas,
            y_deltas,
        }
    }

    /// The place of sample `j` on the sampling grid.
    pub fn sample(&self, j: usize) -> (sample: Sample)
        requires
            j < self.samples().len(),
        ensures
            sample == self.samples()[j as int],
    {
        proof {
            use_type_invariant(self);
        }
        self.samples[j]
    }
}

impl Renderer {
    /// The number of the group within its row.
    pub open spec fn group_of(self, n: int) -> int {
        n % self.lanes_per_line()
    }

    /// `shades` are the colors of the pixels of group `n`: the light of all
    /// samples, averaged and toned.
    pub open spec fn shades<A: Arithmetic, S: Scene<A>>(
        self,
        unit: &A,
        scene: &S,
        camera: Camera,
        n: int,
        shades: Colors,
    ) -> bool {
        batch::shades(
            unit,
            scene,
            camera,
            self.width(),
            self.height(),
            self.x_deltas(),
            self.y_deltas(),
            self.max_depth() as usize,
            self.group_of(n),
            self.row_of(n),
            shades,
        )
    }

    /// The rays of group `n` for sample `sample`: lane `i` goes through its
    /// pixel at the place of the sample.
    pub fn group_rays<A: Arithmetic>(&self, unit: &A, camera: &Camera, n: usize, sample: usize) -> (rays:
        Rays)
        requires
            self.columns() >= LANES,
            sample < self.samples_per_pixel(),
        ensures
            batch::aims(
                unit,
                *camera,
                self.width(),
                self.height(),
                self.x_deltas()[sample as int],
                self.y_deltas()[sample as int],
                self.group_of(n as int),
                self.row_of(n as int),
                rays,
            ),
    {
        proof {
            use_type_invariant(self);
        }
        let y = n / self.lanes_per_line;
        let x = n % self.lanes_per_line;
        batch::batch_rays(
            unit,
            camera,
            self.width,
            self.height,
            self.x_deltas[sample],
            self.y_deltas[sample],
            x,
            y,
        )
    }

    /// The colors of the pixels of group `n`, each number from zero to
    /// one.
    pub fn group_shades<A: Arithmetic, S: Scene<A>>(&self, unit: &A, scene: &S, camera: &Camera, n: usize) -> (shades:
        Colors)
        requires
            self.columns() >= LANES,
        ensures
            self.shades(unit, scene, *camera, n as int, shades),
    {
        proof {
            use_type_invariant(self);
        }
        let y = n / self.lanes_per_line;
        let x = n % self.lanes_per_line;
        batch::batch_shades(
            unit,
            scene,
            camera,
            self.width,
            self.height,
            &self.x_deltas,
            &self.y_deltas,
            self.max_depth,
            x,
            y,
        )
    }
}

/// `bytes` are the colors `shades`, as bright as `brightness` says, as
/// three bytes per lane.
pub open spec fn are_bytes<A: Arithmetic>(
    unit: &A,
    shades: Colors,
    brightness: Brightness,
    bytes: [[u8; 3]; LANES],
) -> bool {
    forall|i: int|
        0 <= i < LANES ==> {
            &&& is_shown(unit, shades.xs[i], brightness, (#[trigger] bytes[i])[0])
            &&& is_shown(unit, shades.ys[i], brightness, bytes[i][1])
            &&& is_shown(unit, shades.zs[i], brightness, bytes[i][2])
        }
}

/// The channel `shade` as a byte, as bright as `brightness` says.
fn shade_byte<A: Arithmetic>(unit: &A, shade: Real, brightness: Brightness) -> (byte: u8)
    ensures
        is_shown(unit, shade, brightness, byte),
{
    let full = product(unit, shade, Real::from_bits(BRIGHTEST_BITS));
    match brightness {
        Brightness::Full => to_byte(full.truncate()),
        Brightness::Dimmed(coef) => {
            let dimmed = product(unit, full, coef);
            to_byte(dimmed.truncate())
        },
    }
}

/// The colors `shades`, as bright as `brightness` says, as three bytes per
/// lane.
pub fn shade_bytes<A: Arithmetic>(
    unit: &A,
    shades: Colors,
    brightness: Brightness,
) -> (bytes: [[u8; 3]; LANES])
    ensures
        are_bytes(unit, shades, brightness, bytes),
{
    let mut bytes: [[u8; 3]; LANES] = [[0u8; 3]; LANES];
    let mut i: usize = 0;
    while i < LANES
        invariant
            i <= LANES,
            forall|k: int|
                0 <= k < i ==> {
                    &&& is_shown(unit, shades.xs[k], brightness, (#[trigger] bytes[k])[0])
                    &&& is_shown(unit, shades.ys[k], brightness, bytes[k][1])
                    &&& is_shown(unit, shades.zs[k], brightness, bytes[k][2])
                },
        decreases LANES - i,
    {
        let red = shade_byte(unit, shades.xs[i], brightness);
        let green = shade_byte(unit, shades.ys[i], brightness);
        let blue = shade_byte(unit, shades.zs[i], brightness);
        bytes[i] = [red, green, blue];
        i += 1;
    }
    bytes
}

impl Renderer {
    /// In `after`, the eight pixels of group `n` hold the colors of that
    /// group, as bright as `brightness` says; their fourth bytes are as in `before`.
    pub open spec fn paints<A: Arithmetic, S: Scene<A>>(
        self,
        unit: &A,
        scene: &S,
        camera: Camera,
        brightness: Brightness,
        n: int,
        before: Seq<[u8; 4]>,
        after: Seq<[u8; 4]>,
    ) -> bool {
        exists|shades: Colors| #[trigger]
            self.shades(unit, scene, camera, n, shades) && forall|i: int|
                0 <= i < LANES ==> is_painted(
                    unit,
                    #[trigger] shades.lane(i),
                    brightness,
                    before[n * LANES + i],
                    after[n * LANES + i],
                )
    }

    /// `after` is the image `before` once rendered: every whole group of
    /// eight pixels is painted, and what is left over at the end is as it
    /// was.
    pub open spec fn renders<A: Arithmetic, S: Scene<A>>(
        self,
        unit: &A,
        scene: &S,
        camera: Camera,
        brightness: Brightness,
        before: Seq<[u8; 4]>,
        after: Seq<[u8; 4]>,
    ) -> bool {
        &&& after.len() == before.len()
        &&& forall|k: int|
            (before.len() / LANES as nat) * LANES <= k < before.len() ==> #[trigger] after[k]
                == before[k]
        &&& forall|n: int|
            0 <= n < before.len() / LANES as nat ==> #[trigger] self.paints(
                unit,
                scene,
                camera,
                brightness,
                n,
                before,
                after,
            )
    }

    /// The colors of the pixels of group `n`, dimmed by `coef`, as three
    /// bytes per lane.
    pub fn group_bytes<A: Arithmetic, S: Scene<A>>(
        &self,
        unit: &A,
        scene: &S,
        camera: &Camera,
        coef: Real,
        n: usize,
    ) -> (bytes: [[u8; 3]; LANES])
        requires
            self.columns() >= LANES,
        ensures
            exists|shades: Colors| #[trigger]
                self.shades(unit, scene, *camera, n as int, shades) && are_bytes(
                    unit,
                    shades,
                    Brightness::Dimmed(coef),
                    bytes,
                ),
    {
        let shades = self.group_shades(unit, scene, camera, n);
        shade_bytes(unit, shades, Brightness::Dimmed(coef))
    }

    /// Renders `scene` as `camera` sees it into `buffer`, one pixel per
    /// four bytes, row after row.  `coef` dims the image: every channel is
    /// multiplied by it, also where it is one.
    pub fn render<A: Arithmetic, S: Scene<A>>(
        &self,
        unit: &A,
        scene: &S,
        camera: &Camera,
        coef: Real,
        buffer: &mut [[u8; 4]],
    )
        requires
            old(buffer)@.len() == self.columns() * self.rows(),
            self.columns() >= LANES || old(buffer)@.len() < LANES,
        ensures
            self.renders(
                unit,
                scene,
                *camera,
                Brightness::Dimmed(coef),
                old(buffer)@,
                final(buffer)@,
            ),
    {
        self.render_at(unit, scene, camera, Brightness::Dimmed(coef), buffer);
    }

    /// Renders `scene` as `camera` sees it into `buffer`, one pixel per
    /// four bytes, row after row, as bright as `brightness` says.
    pub fn render_at<A: Arithmetic, S: Scene<A>>(
        &self,
        unit: &A,
        scene: &S,
        camera: &Camera,
        brightness: Brightness,
        buffer: &mut [[u8; 4]],
    )
        requires
            old(buffer)@.len() == self.columns() * self.rows(),
            self.columns() >= LANES || old(buffer)@.len() < LANES,
        ensures
            self.renders(unit, scene, *camera, brightness, old(buffer)@, final(buffer)@),
    {
        let len = buffer.len();
        let groups = len / LANES;
        let mut n: usize = 0;
        while n < groups
            invariant
                n <= groups,
                len == buffer@.len(),
                groups == old(buffer)@.len() / LANES as nat,
                groups > 0 ==> self.columns() >= LANES,
                buffer@.len() == old(buffer)@.len(),
                forall|k: int|
                    n * LANES <= k < buffer@.len() ==> #[trigger] buffer@[k] == old(buffer)@[k],
                forall|m: int|
                    0 <= m < n ==> #[trigger] self.paints(
                        unit,
                        scene,
                        *camera,
                        brightness,
                        m,
                        old(buffer)@,
                        buffer@,
                    ),
            decreases groups - n,
        {
            let ghost earlier = buffer@;
            let shades = self.group_shades(unit, scene, camera, n);
            let bytes = shade_bytes(unit, shades, brightness);
            assert(n * LANES + LANES <= len);
            let mut i: usize = 0;
            while i < LANES
                invariant
                    i <= LANES,
                    n < groups,
                    len == buffer@.len(),
                    n * LANES + LANES <= len,
                    groups == old(buffer)@.len() / LANES as nat,
                    buffer@.len() == old(buffer)@.len(),
                    earlier.len() == old(buffer)@.len(),
                    are_bytes(unit, shades, brightness, bytes),
                    forall|k: int| 0 <= k < n * LANES ==> #[trigger] buffer@[k] == earlier[k],
                    forall|k: int|
                        n * LANES + i <= k < buffer@.len() ==> #[trigger] buffer@[k] == old(
                            buffer,
                        )@[k],
                    forall|j: int|
                        0 <= j < i ==> is_painted(
                            unit,
                            #[trigger] shades.lane(j),
                            brightness,
                            old(buffer)@[n * LANES + j],
                            buffer@[n * LANES + j],
                        ),
                decreases LANES - i,
            {
                let k = n * LANES + i;
                let mut pixel = buffer[k];
                let rgb = bytes[i];
                pixel[0] = rgb[0];
                pixel[1] = rgb[1];
                pixel[2] = rgb[2];
                buffer[k] = pixel;
                proof {
                    assert(shades.lane(i as int).x == shades.xs[i as int]);
                    assert(is_painted(
                        unit,
                        shades.lane(i as int),
                        brightness,
                        old(buffer)@[n * LANES + i],
                        buffer@[n * LANES + i],
                    ));
                }
                i += 1;
            }
            proof {
                assert forall|m: int| 0 <= m < n + 1 implies #[trigger] self.paints(
                    unit,
                    scene,
                    *camera,
                    brightness,
                    m,
                    old(buffer)@,
                    buffer@,
                ) by {
                    if m < n {
                        assert(self.paints(unit, scene, *camera, brightness, m, old(buffer)@, earlier));
                        let past = choose|past: Colors| #[trigger]
                            self.shades(unit, scene, *camera, m, past) && forall|i: int|
                                0 <= i < LANES ==> is_painted(
                                    unit,
                                    #[trigger] past.lane(i),
                                    brightness,
                                    old(buffer)@[m * LANES + i],
                                    earlier[m * LANES + i],
                                );
                        assert forall|i: int| 0 <= i < LANES implies is_painted(
                            unit,
                            #[trigger] past.lane(i),
                            brightness,
                            old(buffer)@[m * LANES + i],
                            buffer@[m * LANES + i],
                        ) by {
                            assert(buffer@[m * LANES + i] == earlier[m * LANES + i]);
                        }
                    } else {
                        assert(self.shades(unit, scene, *camera, n as int, shades));
                    }
                }
            }
            n += 1;
        }
    }
}

/// A dimmed byte is no brighter than the brightest byte dimmed.  With a unit
/// that rounds products in order, keeps a number times one, keeps zero for
/// a number times zero and multiplies either way round, the byte of a
/// channel from zero to one, dimmed by a finite `coef` that is not negative,
/// is at most the byte of what the unit gives for `255 * coef`.
pub proof fn lemma_dimmed_byte_is_bounded<A: Arithmetic>(
    unit: &A,
    shade: Real,
    coef: Real,
    byte: u8,
    brightest: Real,
)
    requires
        crate::scalar::rounds_products_in_order(unit),
        crate::scalar::keeps_times_one(unit),
        crate::scalar::keeps_times_zero(unit),
        crate::scalar::multiplies_either_way(unit),
        shade.is_finite(),
        (Real { bits: ZERO_BITS }).at_most(shade),
        shade.at_most(Real { bits: ONE_BITS }),
        coef.is_finite(),
        (Real { bits: ZERO_BITS }).at_most(coef),
        is_byte(unit, shade, coef, byte),
        is_product(unit, Real { bits: BRIGHTEST_BITS }, coef, brightest),
    ensures
        byte <= byte_of(brightest.cut()),
{
    let top = Real { bits: BRIGHTEST_BITS };
    let one = Real { bits: ONE_BITS };
    let (full, dimmed) = choose|full: Real, dimmed: Real|
        #![trigger is_product(unit, shade, Real { bits: BRIGHTEST_BITS }, full), is_product(unit, full, coef, dimmed)]
        is_product(unit, shade, Real { bits: BRIGHTEST_BITS }, full) && is_product(
            unit,
            full,
            coef,
            dimmed,
        ) && byte == byte_of(dimmed.cut());
    // The channel at its brightest is no more than 255, and not negative.
    assert(is_product(unit, top, shade, full));
    assert(is_product(unit, top, one, top));
    assert(full.at_most(top));
    crate::scalar::lemma_share_is_no_less(unit, top, shade, full);
    // Dimmed, it is no more than 255 dimmed.
    assert(is_product(unit, coef, full, dimmed));
    assert(is_product(unit, coef, top, brightest));
    assert(dimmed.at_most(brightest));
    crate::exact::lemma_cut_goes_with_the_order(dimmed, brightest);
}

/// Where a row is a whole number of groups, the groups tile the image:
/// lane `i` of group `n` is the pixel in row `row_of(n)` and column
/// `column_of(n, i)`, which is pixel number `n * LANES + i` of the buffer.
pub proof fn lemma_groups_tile_image(renderer: Renderer, n: int, i: int)
    requires
        renderer.columns() >= LANES,
        renderer.columns() % LANES as int == 0,
        0 <= n < renderer.columns() * renderer.rows() / LANES as int,
        0 <= i < LANES,
    ensures
        0 <= renderer.row_of(n) < renderer.rows(),
        0 <= renderer.column_of(n, i) < renderer.columns(),
        renderer.row_of(n) * renderer.columns() + renderer.column_of(n, i) == n * LANES + i,
{
    let columns = renderer.columns();
    let rows = renderer.rows();
    let per_line = renderer.lanes_per_line();
    let row = n / per_line;
    let group = n % per_line;
    assert(columns == per_line * 8);
    assert(per_line >= 1);
    vstd::arithmetic::div_mod::lemma_fundamental_div_mod(n, per_line);
    assert(n == per_line * row + group);
    assert(0 <= group < per_line);
    assert(columns * rows == (per_line * rows) * 8) by (nonlinear_arith)
        requires
            columns == per_line * 8,
    ;
    assert(n < per_line * rows);
    assert(row >= 0) by (nonlinear_arith)
        requires
            n >= 0,
            per_line >= 1,
            row == n / per_line,
    ;
    assert(row < rows) by (nonlinear_arith)
        requires
            n == per_line * row + group,
            0 <= group,
            n < per_line * rows,
            per_line >= 1,
    ;
    assert(row * columns + group * 8 == n * 8) by (nonlinear_arith)
        requires
            n == per_line * row + group,
            columns == per_line * 8,
    ;
}

/// No two groups write to the same pixel, nor two lanes of one group.
pub proof fn lemma_groups_do_not_overlap(n: int, i: int, m: int, j: int)
    requires
        0 <= i < LANES,
        0 <= j < LANES,
        n != m || i != j,
    ensures
        n * LANES + i != m * LANES + j,
{
}

} // verus!
