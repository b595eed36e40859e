//! Turning decoded colour planes into the RGB byte stream of a PNG image.
//!
//! A decoded plane may hold more bytes than `width * height`: each row can
//! be followed by padding. The padding per row is worked out from the
//! planes' total size, and the padding bytes are left out.
use vstd::prelude::*;
use vstd::arithmetic::div_mod::{
    lemma_div_pos_is_pos, lemma_fundamental_div_mod, lemma_fundamental_div_mod_converse, lemma_mod_pos_bound,
};

verus! {

/// Why the planes cannot be written as an image.
#[derive(Clone, Copy, Debug, PartialEq, Eq, Structural)]
pub enum PlaneError {
    /// The red, green and blue planes differ in length.
    UnequalPlanes,
}

/// The number of bytes the three planes hold as a `u32`: three times the
/// plane length, truncated to 32 bits.
pub open spec fn total_bytes_u32(plane_len: nat) -> int {
    ((3 * plane_len) % 0x1_0000_0000) as int
}

/// The padding bytes per row: the bytes beyond `width * height * 3`,
/// divided among the three planes and the rows.
pub open spec fn row_padding(plane_len: nat, width: u32, height: u32) -> int {
    (total_bytes_u32(plane_len) - width * height * 3) / 3 / (height as int)
}

/// The arithmetic on the plane sizes stays within `u32` and divides by no
/// zero (the row length is only divided by when the planes hold bytes).
pub open spec fn plane_geometry_fits(plane_len: nat, width: u32, height: u32) -> bool {
    &&& width * height * 3 <= u32::MAX
    &&& height > 0
    &&& total_bytes_u32(plane_len) >= width * height * 3
    &&& width + row_padding(plane_len, width, height) <= u32::MAX
    &&& plane_len > 0 ==> width + row_padding(plane_len, width, height) > 0
}

/// Whether the plane-size arithmetic for planes of `plane_len` bytes stays
/// within `u32` and divides by no zero.
pub fn plane_geometry_holds(plane_len: usize, width: u32, height: u32) -> (fits: bool)
    ensures
        fits == plane_geometry_fits(plane_len as nat, width, height),
{
    assert(width * height * 3 <= 3 * 0xffff_ffff * 0xffff_ffff) by (nonlinear_arith)
        requires width <= 0xffff_ffff, height <= 0xffff_ffff;
    let expected: u128 = width as u128 * height as u128 * 3;
    if expected > u32::MAX as u128 || height == 0 {
        return false;
    }
    let expected: u64 = expected as u64;
    let total: u64 = (3 * (plane_len as u128) % 0x1_0000_0000) as u64;
    assert(total as int == total_bytes_u32(plane_len as nat));
    if total < expected {
        return false;
    }
    let padding: u64 = (total - expected) / 3 / (height as u64);
    assert(padding as int == row_padding(plane_len as nat, width, height));
    let stride: u64 = width as u64 + padding;
    stride <= u32::MAX as u64 && (plane_len == 0 || stride > 0)
}

/// Whether the byte at position `id` of a plane is a pixel, not padding:
/// its place within its row (of `stride` bytes) is below `width`.
pub open spec fn is_pixel(id: int, stride: int, width: u32) -> bool {
    ((id as u32) as int) % stride < width
}

/// The RGB triples of the first `n` plane positions that are pixels, in order.
pub open spec fn visible_rgb(red: Seq<u8>, green: Seq<u8>, blue: Seq<u8>, stride: int, width: u32, n: nat) -> Seq<u8>
    decreases n,
{
    if n == 0 {
        Seq::empty()
    } else {
        let id = n - 1;
        let before = visible_rgb(red, green, blue, stride, width, (n - 1) as nat);
        if is_pixel(id, stride, width) {
            before + seq![red[id], green[id], blue[id]]
        } else {
            before
        }
    }
}

/// Planes without padding are written whole: when each plane holds exactly
/// `width * height` bytes, every position is a pixel and the result holds
/// three bytes per position.
pub proof fn lemma_unpadded_planes_written_whole(red: Seq<u8>, green: Seq<u8>, blue: Seq<u8>, width: u32, height: u32)
    requires
        red.len() == width * height,
        green.len() == red.len(),
        blue.len() == red.len(),
        plane_geometry_fits(red.len(), width, height),
    ensures
        row_padding(red.len(), width, height) == 0,
        visible_rgb(red, green, blue, width + row_padding(red.len(), width, height), width, red.len()).len()
            == 3 * red.len(),
{
    let n = red.len();
    assert(3 * n == width * height * 3) by (nonlinear_arith)
        requires n == width * height;
    assert(total_bytes_u32(n) == 3 * n);
    if n > 0 {
        lemma_all_pixels(red, green, blue, width, n);
    }
}

/// With rows of exactly `width` bytes, the first `n` positions all are pixels.
proof fn lemma_all_pixels(red: Seq<u8>, green: Seq<u8>, blue: Seq<u8>, width: u32, n: nat)
    requires
        width > 0,
        n <= red.len(),
        n <= u32::MAX,
    ensures
        visible_rgb(red, green, blue, width as int, width, n).len() == 3 * n,
    decreases n,
{
    if n > 0 {
        lemma_all_pixels(red, green, blue, width, (n - 1) as nat);
        let id = n - 1;
        assert(((id as u32) as int) % (width as int) < width);
    }
}

/// How many of the first `n` plane positions are pixels, with rows of
/// `stride` bytes of which the first `width` are pixels.
pub open spec fn pixel_count(n: nat, stride: int, width: u32) -> int {
    let t = (n as int) % stride;
    ((n as int) / stride) * width + (if t < width { t } else { width as int })
}

/// The plane position of the `j`-th pixel: row `j / width`, column `j % width`.
pub open spec fn pixel_position(j: int, stride: int, width: u32) -> int {
    (j / (width as int)) * stride + j % (width as int)
}

/// Position `c` of row `r` in a grid with rows of `row_len` entries.
pub open spec fn grid_index(r: int, c: int, row_len: int) -> int {
    r * row_len + c
}

/// The bytes for the first `n` plane positions: three per pixel, the
/// `j`-th triple being the red, green and blue bytes at the `j`-th pixel's
/// position, and nothing for padding.
proof fn lemma_visible_rgb_prefix(
    red: Seq<u8>, green: Seq<u8>, blue: Seq<u8>, stride: int, width: u32, n: nat,
)
    requires
        stride > 0,
        width <= stride,
        n <= red.len(),
        red.len() == green.len(),
        red.len() == blue.len(),
        n <= 0x1_0000_0000,
    ensures
        visible_rgb(red, green, blue, stride, width, n).len() == 3 * pixel_count(n, stride, width),
        forall|j: int| 0 <= j < pixel_count(n, stride, width) ==> {
            let p = #[trigger] pixel_position(j, stride, width);
            let out = visible_rgb(red, green, blue, stride, width, n);
            &&& 0 <= p < n
            &&& out[3 * j] == red[p]
            &&& out[3 * j + 1] == green[p]
            &&& out[3 * j + 2] == blue[p]
        },
    decreases n,
{
    let out = visible_rgb(red, green, blue, stride, width, n);
    if n == 0 {
        lemma_fundamental_div_mod_converse(0, stride, 0, 0);
        let z = (n as int) / stride;
        assert(z * width == 0) by (nonlinear_arith) requires z == 0;
        assert(pixel_count(n, stride, width) == 0);
        assert(out.len() == 0);
    } else {
        let m = (n - 1) as nat;
        lemma_visible_rgb_prefix(red, green, blue, stride, width, m);
        let before = visible_rgb(red, green, blue, stride, width, m);
        let id = m as int;
        let q = id / stride;
        let t = id % stride;
        assert(id == q * stride + t && 0 <= t < stride && q >= 0) by {
            lemma_fundamental_div_mod(id, stride);
            lemma_mod_pos_bound(id, stride);
            lemma_div_pos_is_pos(id, stride);
        }
        // Where position `n` falls: further along the same row, or at the start of the next.
        if t + 1 < stride {
            lemma_fundamental_div_mod_converse(n as int, stride, q, t + 1);
        } else {
            assert(n as int == (q + 1) * stride + 0) by (nonlinear_arith)
                requires id == q * stride + t, t + 1 == stride, n as int == id + 1;
            lemma_fundamental_div_mod_converse(n as int, stride, q + 1, 0);
        }
        assert(((id as u32) as int) == id);
        let old_count = pixel_count(m, stride, width);
        if t < width {
            // Position `id` is the pixel numbered `old_count`.
            assert(pixel_count(n, stride, width) == old_count + 1) by (nonlinear_arith)
                requires
                    old_count == q * width + t,
                    t < width,
                    width <= stride,
                    t + 1 < stride ==> pixel_count(n, stride, width) == q * width + t + 1,
                    t + 1 >= stride ==> pixel_count(n, stride, width) == (q + 1) * width,
                    t + 1 >= stride ==> t + 1 == stride;
            assert(old_count == q * (width as int) + t);
            lemma_fundamental_div_mod_converse(old_count, width as int, q, t);
            assert(pixel_position(old_count, stride, width) == id);
            assert(out == before + seq![red[id], green[id], blue[id]]);
            assert forall|j: int| 0 <= j < pixel_count(n, stride, width) implies {
                let p = #[trigger] pixel_position(j, stride, width);
                &&& 0 <= p < n
                &&& out[3 * j] == red[p]
                &&& out[3 * j + 1] == green[p]
                &&& out[3 * j + 2] == blue[p]
            } by {
                if j < old_count {
                    assert(pixel_position(j, stride, width) < m);
                } else {
                    assert(j == old_count);
                }
            }
            assert(out.len() == 3 * pixel_count(n, stride, width));
        } else {
            assert(pixel_count(n, stride, width) == old_count) by (nonlinear_arith)
                requires
                    old_count == q * width + width,
                    t >= width,
                    t + 1 < stride ==> pixel_count(n, stride, width) == q * width + width,
                    t + 1 >= stride ==> pixel_count(n, stride, width) == (q + 1) * width;
            assert(out == before);
            assert forall|j: int| 0 <= j < pixel_count(n, stride, width) implies {
                let p = #[trigger] pixel_position(j, stride, width);
                &&& 0 <= p < n
                &&& out[3 * j] == red[p]
                &&& out[3 * j + 1] == green[p]
                &&& out[3 * j + 2] == blue[p]
            } by {
                assert(pixel_position(j, stride, width) < m);
            }
            assert(out.len() == 3 * pixel_count(n, stride, width));
        }
    }
}

/// Every pixel is kept and no padding byte is: with `stride` the row length
/// (`width` plus the padding), the result holds three bytes per pixel
/// position, the `j`-th triple being the red, green and blue bytes of row
/// `j / width`, column `j % width`. When the planes hold exactly `height`
/// rows, that is `width * height * 3` bytes, byte `3 * (r * width + c) + ch`
/// being plane `ch` at position `r * stride + c` (see `grid_index`). (Positions are compared
/// as `u32`, so planes beyond `u32::MAX` bytes are left out.)
pub proof fn lemma_visible_rgb_layout(red: Seq<u8>, green: Seq<u8>, blue: Seq<u8>, width: u32, height: u32)
    requires
        red.len() == green.len(),
        red.len() == blue.len(),
        red.len() > 0,
        red.len() <= u32::MAX,
        plane_geometry_fits(red.len(), width, height),
    ensures
        ({
            let stride = width + row_padding(red.len(), width, height);
            let out = visible_rgb(red, green, blue, stride, width, red.len());
            &&& out.len() == 3 * pixel_count(red.len(), stride, width)
            &&& forall|j: int| 0 <= j < pixel_count(red.len(), stride, width) ==> {
                let p = #[trigger] pixel_position(j, stride, width);
                &&& 0 <= p < red.len()
                &&& out[3 * j] == red[p]
                &&& out[3 * j + 1] == green[p]
                &&& out[3 * j + 2] == blue[p]
            }
            &&& red.len() == height * stride ==> {
                &&& out.len() == 3 * width * height
                &&& forall|r: int, c: int| 0 <= r < height && 0 <= c < width ==> {
                    let p = #[trigger] grid_index(r, c, stride);
                    let j = grid_index(r, c, width as int);
                    &&& out[3 * j] == red[p]
                    &&& out[3 * j + 1] == green[p]
                    &&& out[3 * j + 2] == blue[p]
                }
            }
        }),
{
    let stride = width + row_padding(red.len(), width, height);
    let n = red.len();
    assert(row_padding(n, width, height) >= 0) by (nonlinear_arith)
        requires total_bytes_u32(n) >= width * height * 3, height > 0,
            row_padding(n, width, height) == (total_bytes_u32(n) - width * height * 3) / 3 / (height as int);
    lemma_visible_rgb_prefix(red, green, blue, stride, width, n);
    if n == height * stride {
        lemma_fundamental_div_mod_converse(n as int, stride, height as int, 0);
        assert(pixel_count(n, stride, width) == height * width);
        assert(3 * (height * width) == 3 * width * height) by (nonlinear_arith);
        let out = visible_rgb(red, green, blue, stride, width, n);
        assert forall|r: int, c: int| 0 <= r < height && 0 <= c < width implies {
            let p = #[trigger] grid_index(r, c, stride);
            let j = grid_index(r, c, width as int);
            &&& out[3 * j] == red[p]
            &&& out[3 * j + 1] == green[p]
            &&& out[3 * j + 2] == blue[p]
        } by {
            let j = r * width + c;
            lemma_fundamental_div_mod_converse(j, width as int, r, c);
            assert(j < height * width) by (nonlinear_arith)
                requires j == r * width + c, 0 <= r < height, 0 <= c < width;
            assert(0 <= j) by (nonlinear_arith) requires j == r * width + c, 0 <= r, 0 <= c;
            assert(pixel_position(j, stride, width) == r * stride + c);
        }
    }
}

/// The pixel bytes of an image of `width` x `height` pixels whose colour
/// planes are `red`, `green` and `blue`: for each plane position that is a
/// pixel, its red, green and blue bytes. Planes of unequal length are refused.
pub fn visible_rgb_bytes(red: &[u8], green: &[u8], blue: &[u8], width: u32, height: u32)
    -> (rgb: Result<Vec<u8>, PlaneError>)
    requires
        red@.len() + green@.len() + blue@.len() <= usize::MAX,
        red@.len() == green@.len() && green@.len() == blue@.len() ==>
            plane_geometry_fits(red@.len(), width, height),
    ensures
        rgb is Err <==> !(red@.len() == green@.len() && green@.len() == blue@.len()),
        rgb matches Ok(bytes) ==> bytes@ == visible_rgb(red@, green@, blue@,
            width + row_padding(red@.len(), width, height), width, red@.len()),
{
    let actual = red.len() + green.len() + blue.len();
    if red.len() != green.len() || green.len() != blue.len() {
        return Err(PlaneError::UnequalPlanes);
    }
    let expected = width * height * 3;
    // `actual as u32`: the low 32 bits of the total.
    let actual32 = ((actual as u64) % 0x1_0000_0000) as u32;
    assert(actual32 as int == total_bytes_u32(red@.len()));
    let offset = (actual32 - expected) / 3 / height;
    let stride = width + offset;
    let ghost stride_int = width + row_padding(red@.len(), width, height);
    assert(stride as int == stride_int);
    let n = red.len();
    let mut out: Vec<u8> = Vec::new();
    let mut id: usize = 0;
    while id < n
        invariant
            n == red@.len(),
            n == green@.len(),
            n == blue@.len(),
            id <= n,
            n > 0 ==> stride > 0,
            stride as int == stride_int,
            out@ == visible_rgb(red@, green@, blue@, stride_int, width, id as nat),
        decreases n - id,
    {
        if (id as u32) % stride < width {
            out.push(red[id]);
            out.push(green[id]);
            out.push(blue[id]);
        }
        id = id + 1;
        assert(out@ =~= visible_rgb(red@, green@, blue@, stride_int, width, id as nat));
    }
    Ok(out)
}

} // verus!
