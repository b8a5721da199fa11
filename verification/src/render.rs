//! The tile scheduler: split the frame into slices, render each slice pixel
//! by pixel, and stitch the slices back into one canvas. The host may hand
//! each slice to its own worker; this module renders them in sequence.

use vstd::prelude::*;
use crate::fixed::SCALE;
use crate::vec3::{Vec3, Color, VMAX};
use crate::hittable::{Hittable, hittable_wf};
use crate::camera::{Camera, camera_wf, world_all_miss};
use crate::hittable::plain;
use crate::color::spec_rasterize_channel;
use crate::buffer::{Canvas, SliceBuffer, Pixel, slice_filled};
use crate::color::rasterize_color;
use crate::texture::color_wf;
use crate::rng::RngState;

verus! {

/// The pixel an all-missing frame shows everywhere: the background colour
/// accumulated over the samples and tone-mapped.
pub open spec fn spec_bg_pixel(c: Camera, samples: int) -> Pixel {
    Pixel {
        r: spec_rasterize_channel(c.background.x * samples, samples) as u8,
        g: spec_rasterize_channel(c.background.y * samples, samples) as u8,
        b: spec_rasterize_channel(c.background.z * samples, samples) as u8,
    }
}

/// How many rows and columns of slices a worker count maps to.
pub open spec fn spec_core_to_slices(core_count: int) -> (int, int) {
    if core_count == 1 {
        (1int, 1int)
    } else if core_count == 2 {
        (2int, 1int)
    } else if core_count == 4 {
        (2int, 2int)
    } else if core_count == 8 {
        (4int, 2int)
    } else if core_count == 12 {
        (4int, 3int)
    } else if core_count == 16 {
        (4int, 4int)
    } else if core_count == 32 {
        (8int, 4int)
    } else if core_count == 64 {
        (8int, 8int)
    } else {
        (1int, 1int)
    }
}

/// Offset and size of grid cell `k` of `n` along a dimension: every cell
/// gets the truncated share, and the last cell stretches to the edge so the
/// cells cover the whole dimension.
pub open spec fn spec_tile_extent(k: int, n: int, dim: int) -> (int, int) {
    let base = dim / n;
    let off = k * base;
    if k == n - 1 {
        (off, dim - off)
    } else {
        (off, base)
    }
}

/// Offset and size of grid cell `k` of `n` along a dimension of `dim`
/// pixels; the cells tile the dimension without gap or overlap.
pub fn tile_extent(k: usize, n: usize, dim: usize) -> (r: (usize, usize))
    requires
        k < n,
        1 <= n <= 8,
        dim <= 0x10000,
    ensures
        (r.0 as int, r.1 as int) == spec_tile_extent(k as int, n as int, dim as int),
        r.0 + r.1 <= dim,
        k == n - 1 ==> r.0 + r.1 == dim,
        r.0 == k * (dim / n),
{
    let base = dim / n;
    proof {
        lemma_grid_cell_fits(k as int, n as int, dim as int);
    }
    let off = k * base;
    if k == n - 1 {
        (off, dim - off)
    } else {
        (off, base)
    }
}

/// The slice grid for a worker count: a small fixed table; unknown counts
/// fall back to a single slice. The host resolves a zero count to the
/// machine's parallelism before calling.
pub fn core_to_slices(core_count: usize) -> (r: (usize, usize))
    ensures
        (r.0 as int, r.1 as int) == spec_core_to_slices(core_count as int),
        1 <= r.0 <= 8,
        1 <= r.1 <= 8,
{
    if core_count == 1 {
        (1, 1)
    } else if core_count == 2 {
        (2, 1)
    } else if core_count == 4 {
        (2, 2)
    } else if core_count == 8 {
        (4, 2)
    } else if core_count == 12 {
        (4, 3)
    } else if core_count == 16 {
        (4, 4)
    } else if core_count == 32 {
        (8, 4)
    } else if core_count == 64 {
        (8, 8)
    } else {
        (1, 1)
    }
}

/// Render one slice: for every pixel, average `samples_per_pixel` radiance
/// estimates from the camera and tone-map them into the slice's grid. Only
/// the pixel grid changes; the geometry of the slice is untouched.
pub fn render_slice(
    slice: &mut SliceBuffer,
    world: &Hittable,
    cam: &Camera,
    samples_per_pixel: usize,
    trace_depth: usize,
    rng: &mut RngState,
)
    requires
        camera_wf(*cam),
        hittable_wf(*world),
        1 <= samples_per_pixel <= 0x10000,
        old(slice).width <= 0x10000,
        old(slice).height <= 0x10000,
        old(slice).p_row + old(slice).height <= 0x10000,
        old(slice).p_col + old(slice).width <= 0x10000,
    ensures
        final(slice).width == old(slice).width,
        final(slice).height == old(slice).height,
        final(slice).p_row == old(slice).p_row,
        final(slice).p_col == old(slice).p_col,
        slice_filled(*final(slice)),
        plain(*world) && trace_depth > 0 && world_all_miss(*world) ==> forall|a: int, b: int|
            0 <= a < old(slice).height && 0 <= b < old(slice).width
                ==> #[trigger] final(slice).pixels@[a]@[b] == spec_bg_pixel(
                *cam,
                samples_per_pixel as int,
            ),
{
    let ghost missy = plain(*world) && trace_depth > 0 && world_all_miss(*world);
    let height = slice.height;
    let width = slice.width;
    let p_row = slice.p_row;
    let p_col = slice.p_col;
    let mut slice_vec: Vec<Vec<Pixel>> = Vec::new();
    let mut i: usize = 0;
    while i < height
        invariant
            camera_wf(*cam),
            hittable_wf(*world),
            1 <= samples_per_pixel <= 0x10000,
            width <= 0x10000,
            height <= 0x10000,
            p_row + height <= 0x10000,
            p_col + width <= 0x10000,
            i <= height,
            slice_vec@.len() == i,
            forall|a: int| 0 <= a < i ==> (#[trigger] slice_vec@[a])@.len() == width,
            missy ==> plain(*world) && trace_depth > 0 && world_all_miss(*world),
            missy ==> forall|a: int, b: int|
                0 <= a < i && 0 <= b < width ==> #[trigger] slice_vec@[a]@[b] == spec_bg_pixel(
                    *cam,
                    samples_per_pixel as int,
                ),
        decreases height - i,
    {
        let mut line_buffer: Vec<Pixel> = Vec::new();
        let pixel_row: i64 = ((p_row + i) as i64) * SCALE;
        let mut j: usize = 0;
        while j < width
            invariant
                camera_wf(*cam),
                hittable_wf(*world),
                1 <= samples_per_pixel <= 0x10000,
                width <= 0x10000,
                p_col + width <= 0x10000,
                p_row + i <= 0x10000,
                pixel_row == (p_row + i) * (SCALE as int),
                j <= width,
                line_buffer@.len() == j,
                missy ==> plain(*world) && trace_depth > 0 && world_all_miss(*world),
                missy ==> forall|b: int|
                    0 <= b < j ==> #[trigger] line_buffer@[b] == spec_bg_pixel(
                        *cam,
                        samples_per_pixel as int,
                    ),
            decreases width - j,
        {
            let pixel_col: i64 = ((p_col + j) as i64) * SCALE;
            let mut pixel_color: Color = Vec3 { x: 0, y: 0, z: 0 };
            let mut s: usize = 0;
            while s < samples_per_pixel
                invariant
                    camera_wf(*cam),
                    hittable_wf(*world),
                    samples_per_pixel <= 0x10000,
                    0 <= pixel_row <= 0x100000000,
                    0 <= pixel_col <= 0x100000000,
                    s <= samples_per_pixel,
                    0 <= pixel_color.x <= s * (VMAX as int),
                    0 <= pixel_color.y <= s * (VMAX as int),
                    0 <= pixel_color.z <= s * (VMAX as int),
                    missy ==> plain(*world) && trace_depth > 0 && world_all_miss(*world),
                    missy ==> 0 <= cam.background.x * s <= 0x1000000000000,
                    missy ==> 0 <= cam.background.y * s <= 0x1000000000000,
                    missy ==> 0 <= cam.background.z * s <= 0x1000000000000,
                    missy ==> pixel_color == (Vec3 {
                        x: (cam.background.x * s) as i64,
                        y: (cam.background.y * s) as i64,
                        z: (cam.background.z * s) as i64,
                    }),
                decreases samples_per_pixel - s,
            {
                let c = cam.render_ray(pixel_row, pixel_col, world, trace_depth, rng);
                pixel_color = Vec3 {
                    x: pixel_color.x + c.x,
                    y: pixel_color.y + c.y,
                    z: pixel_color.z + c.z,
                };
                s = s + 1;
                proof {
                    if missy {
                        assert(c == cam.background);
                        assert(cam.background.x * s == cam.background.x * (s - 1)
                            + cam.background.x) by (nonlinear_arith);
                        assert(cam.background.y * s == cam.background.y * (s - 1)
                            + cam.background.y) by (nonlinear_arith);
                        assert(cam.background.z * s == cam.background.z * (s - 1)
                            + cam.background.z) by (nonlinear_arith);
                        assert(0 <= cam.background.x * s <= 0x1000000000000) by (nonlinear_arith)
                            requires
                                0 <= cam.background.x <= 0x100000000,
                                0 <= s <= 0x10000,
                        ;
                        assert(0 <= cam.background.y * s <= 0x1000000000000) by (nonlinear_arith)
                            requires
                                0 <= cam.background.y <= 0x100000000,
                                0 <= s <= 0x10000,
                        ;
                        assert(0 <= cam.background.z * s <= 0x1000000000000) by (nonlinear_arith)
                            requires
                                0 <= cam.background.z <= 0x100000000,
                                0 <= s <= 0x10000,
                        ;
                    }
                }
            }
            let px = rasterize_color(pixel_color, samples_per_pixel);
            proof {
                if missy {
                    assert(px == spec_bg_pixel(*cam, samples_per_pixel as int));
                }
            }
            line_buffer.push(px);
            j = j + 1;
        }
        slice_vec.push(line_buffer);
        i = i + 1;
    }
    slice.pixels = slice_vec;
}

/// The rows a partly processed grid has fully covered: the bands before
/// `row`, which reach the frame's bottom once every band is done.
pub open spec fn rows_covered(row: int, rows: int, dim: int) -> int {
    if row == rows {
        dim
    } else {
        row * (dim / rows)
    }
}

/// Render a whole frame: build the slice grid for the worker count, render
/// each slice with its own seeded generator, and composite the slices into
/// a canvas of the camera's dimensions.
pub fn render_scene(
    core_count: usize,
    world: &Hittable,
    cam: &Camera,
    samples_per_pixel: usize,
    trace_depth: usize,
    seed: u64,
) -> (r: Canvas)
    requires
        camera_wf(*cam),
        hittable_wf(*world),
        1 <= samples_per_pixel <= 0x10000,
    ensures
        r.width == cam.image_width,
        r.height == cam.image_height,
        r.p_row == 0,
        r.p_col == 0,
        slice_filled(r),
        plain(*world) && trace_depth > 0 && world_all_miss(*world) ==> forall|a: int, b: int|
            0 <= a < cam.image_height && 0 <= b < cam.image_width
                ==> #[trigger] r.pixels@[a]@[b] == spec_bg_pixel(*cam, samples_per_pixel as int),
{
    let ghost missy = plain(*world) && trace_depth > 0 && world_all_miss(*world);
    let grid = core_to_slices(core_count);
    let rows = grid.0;
    let columns = grid.1;
    let mut image_canvas = Canvas::new(cam.image_width, cam.image_height);
    let mut row: usize = 0;
    while row < rows
        invariant
            camera_wf(*cam),
            hittable_wf(*world),
            1 <= samples_per_pixel <= 0x10000,
            1 <= rows <= 8,
            1 <= columns <= 8,
            image_canvas.width == cam.image_width,
            image_canvas.height == cam.image_height,
            image_canvas.p_row == 0,
            image_canvas.p_col == 0,
            slice_filled(image_canvas),
            row <= rows,
            missy ==> plain(*world) && trace_depth > 0 && world_all_miss(*world),
            missy ==> forall|a: int, b: int|
                0 <= a < rows_covered(row as int, rows as int, cam.image_height as int) && 0 <= b
                    < cam.image_width ==> #[trigger] image_canvas.pixels@[a]@[b] == spec_bg_pixel(
                    *cam,
                    samples_per_pixel as int,
                ),
        decreases rows - row,
    {
        let vert = tile_extent(row, rows, cam.image_height);
        let mut col: usize = 0;
        while col < columns
            invariant
                camera_wf(*cam),
                hittable_wf(*world),
                1 <= samples_per_pixel <= 0x10000,
                1 <= rows <= 8,
                1 <= columns <= 8,
                row < rows,
                image_canvas.width == cam.image_width,
                image_canvas.height == cam.image_height,
                image_canvas.p_row == 0,
                image_canvas.p_col == 0,
                slice_filled(image_canvas),
                col <= columns,
                (vert.0 as int, vert.1 as int) == spec_tile_extent(
                    row as int,
                    rows as int,
                    cam.image_height as int,
                ),
                vert.0 + vert.1 <= cam.image_height,
                row == rows - 1 ==> vert.0 + vert.1 == cam.image_height,
                vert.0 == row * (cam.image_height / rows),
                missy ==> plain(*world) && trace_depth > 0 && world_all_miss(*world),
                missy ==> forall|a: int, b: int|
                    0 <= a < rows_covered(row as int, rows as int, cam.image_height as int) && 0
                        <= b < cam.image_width ==> #[trigger] image_canvas.pixels@[a]@[b]
                        == spec_bg_pixel(*cam, samples_per_pixel as int),
                missy ==> forall|a: int, b: int|
                    vert.0 <= a < vert.0 + vert.1 && 0 <= b < rows_covered(
                        col as int,
                        columns as int,
                        cam.image_width as int,
                    ) ==> #[trigger] image_canvas.pixels@[a]@[b] == spec_bg_pixel(
                        *cam,
                        samples_per_pixel as int,
                    ),
            decreases columns - col,
        {
            let horiz = tile_extent(col, columns, cam.image_width);
            let mut sb = SliceBuffer::new_slice(horiz.1, vert.1, vert.0, horiz.0);
            let worker_index: u64 = ((row * 8 + col) as u64);
            let mut rng = RngState::from_seed(seed.wrapping_add(worker_index));
            render_slice(&mut sb, world, cam, samples_per_pixel, trace_depth, &mut rng);
            let ghost before = image_canvas.pixels@;
            let wrote = image_canvas.write_slice(&sb);
            proof {
                assert(wrote);
                if missy {
                    assert forall|a: int, b: int|
                        vert.0 <= a < vert.0 + vert.1 && 0 <= b < rows_covered(
                            col as int + 1,
                            columns as int,
                            cam.image_width as int,
                        ) implies #[trigger] image_canvas.pixels@[a]@[b] == spec_bg_pixel(
                        *cam,
                        samples_per_pixel as int,
                    ) by {
                        if horiz.0 <= b < horiz.0 + horiz.1 {
                            assert(image_canvas.pixels@[a]@[b] == sb.pixels@[a - vert.0 as int]@[b
                                - horiz.0 as int]);
                            assert(sb.pixels@[a - vert.0 as int]@[b - horiz.0 as int]
                                == spec_bg_pixel(*cam, samples_per_pixel as int));
                        } else {
                            assert((col as int + 1) * (cam.image_width as int / columns as int)
                                == col as int * (cam.image_width as int / columns as int) + (
                            cam.image_width as int / columns as int)) by (nonlinear_arith);
                            assert(b < horiz.0);
                            assert(b < rows_covered(
                                col as int,
                                columns as int,
                                cam.image_width as int,
                            ));
                            assert(image_canvas.pixels@[a]@[b] == before[a]@[b]);
                            assert(before[a]@[b] == spec_bg_pixel(
                                *cam,
                                samples_per_pixel as int,
                            ));
                        }
                    };
                    assert forall|a: int, b: int|
                        0 <= a < rows_covered(row as int, rows as int, cam.image_height as int)
                            && 0 <= b < cam.image_width
                            implies #[trigger] image_canvas.pixels@[a]@[b] == spec_bg_pixel(
                        *cam,
                        samples_per_pixel as int,
                    ) by {
                        assert(a < vert.0);
                        assert(image_canvas.pixels@[a]@[b] == before[a]@[b]);
                        assert(before[a]@[b] == spec_bg_pixel(*cam, samples_per_pixel as int));
                    };
                }
            }
            col = col + 1;
        }
        proof {
            if missy {
                assert(rows_covered(columns as int, columns as int, cam.image_width as int)
                    == cam.image_width);
                assert forall|a: int, b: int|
                    0 <= a < rows_covered(row as int + 1, rows as int, cam.image_height as int)
                        && 0 <= b < cam.image_width
                        implies #[trigger] image_canvas.pixels@[a]@[b] == spec_bg_pixel(
                    *cam,
                    samples_per_pixel as int,
                ) by {
                    assert((row as int + 1) * (cam.image_height as int / rows as int) == row as int
                        * (cam.image_height as int / rows as int) + (cam.image_height as int
                        / rows as int)) by (nonlinear_arith);
                    if row == rows - 1 {
                        assert(vert.0 + vert.1 == cam.image_height);
                    } else {
                        assert(vert.1 == cam.image_height / rows);
                    }
                    if a >= vert.0 {
                        assert(vert.0 <= a < vert.0 + vert.1);
                    }
                };
            }
        }
        row = row + 1;
    }
    image_canvas
}

/// A grid cell at index `k` of `n` slices of size `dim / n` ends within the
/// frame.
proof fn lemma_grid_cell_fits(k: int, n: int, dim: int)
    requires
        0 <= k < n,
        1 <= n,
        0 <= dim,
    ensures
        k * (dim / n) + dim / n <= dim,
        k * (dim / n) >= 0,
{
    let c = dim / n;
    vstd::arithmetic::div_mod::lemma_div_pos_is_pos(dim, n);
    assert(k * c + c <= n * c) by (nonlinear_arith)
        requires
            0 <= k < n,
            c >= 0,
    ;
    assert(n * (dim / n) <= dim) by {
        vstd::arithmetic::div_mod::lemma_fundamental_div_mod(dim, n);
        vstd::arithmetic::div_mod::lemma_mod_bound(dim, n);
    };
    assert(k * c >= 0) by (nonlinear_arith)
        requires
            0 <= k,
            c >= 0,
    ;
}

} // verus!
