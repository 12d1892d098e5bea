use crate::camera::Image;
use crate::color::Pixel;
use crate::parallel::sort_keyed;
use vstd::arithmetic::div_mod::lemma_div_is_ordered;
use vstd::arithmetic::div_mod::lemma_fundamental_div_mod;
use vstd::arithmetic::div_mod::lemma_fundamental_div_mod_converse;
use vstd::prelude::*;
use vstd::relations::sorted_by;
use vstd::relations::total_ordering;
use vstd::seq_lib::lemma_sorted_unique;

verus! {

/// The place of a pixel in the picture: its row, counted from the top, and
/// its column, counted from the left.
pub type PixelTask = (usize, usize);

/// A pixel together with its place.
pub type Keyed = (PixelTask, Pixel);

/// The place of the `i`-th pixel of a picture `width` pixels wide, when the
/// pixels are counted row by row from the top-left corner.
pub open spec fn raster_task(width: usize, i: int) -> PixelTask {
    ((i / width as int) as usize, (i % width as int) as usize)
}

/// Every place of a picture, row by row from the top-left corner.
pub open spec fn grid(height: usize, width: usize) -> Seq<PixelTask> {
    Seq::new((height * width) as nat, |i: int| raster_task(width, i))
}

/// Whether place `a` comes before place `b` in the raster: on a row above,
/// or on the same row and further left.
pub open spec fn task_before(a: PixelTask, b: PixelTask) -> bool {
    a.0 < b.0 || (a.0 == b.0 && a.1 < b.1)
}

/// Whether colour `a` is at most colour `b`, channel by channel from red on.
pub open spec fn pixel_le(a: Pixel, b: Pixel) -> bool {
    a.0 < b.0 || (a.0 == b.0 && (a.1 < b.1 || (a.1 == b.1 && a.2 <= b.2)))
}

/// The order of pixels with their places: by place first, then by colour.
pub open spec fn keyed_le(a: Keyed, b: Keyed) -> bool {
    task_before(a.0, b.0) || (a.0 == b.0 && pixel_le(a.1, b.1))
}

/// `keyed_le` as a relation.
pub open spec fn keyed_order() -> spec_fn(Keyed, Keyed) -> bool {
    |a: Keyed, b: Keyed| keyed_le(a, b)
}

/// `keyed_le` is a total order.
pub proof fn lemma_keyed_order_total()
    ensures
        total_ordering(keyed_order()),
{
    let r = keyed_order();
    assert forall|a: Keyed, b: Keyed| #[trigger] r(a, b) && #[trigger] r(b, a) implies a == b by {
        assert(keyed_le(a, b) && keyed_le(b, a));
    }
    assert forall|a: Keyed, b: Keyed, c: Keyed| #[trigger] r(a, b) && #[trigger] r(b, c) implies r(
        a,
        c,
    ) by {
        assert(keyed_le(a, b) && keyed_le(b, c));
    }
}

/// The `i`-th place of the raster lies inside the picture.
pub proof fn lemma_raster_task_in_image(height: usize, width: usize, i: int)
    requires
        0 <= i < height * width,
    ensures
        width > 0,
        raster_task(width, i).0 == i / (width as int),
        raster_task(width, i).1 == i % (width as int),
        raster_task(width, i).0 < height,
        raster_task(width, i).1 < width,
{
    let w = width as int;
    assert(w > 0) by (nonlinear_arith)
        requires
            0 < height * width,
            w == width,
    ;
    lemma_fundamental_div_mod(i, w);
    assert(0 <= i / w < height) by (nonlinear_arith)
        requires
            i == w * (i / w) + i % w,
            0 <= i % w < w,
            0 <= i < height * w,
    ;
}

/// Counting on in the raster leads to a later place.
pub proof fn lemma_raster_task_increases(height: usize, width: usize, i: int, j: int)
    requires
        0 <= i < j < height * width,
    ensures
        task_before(raster_task(width, i), raster_task(width, j)),
{
    let w = width as int;
    lemma_raster_task_in_image(height, width, i);
    lemma_raster_task_in_image(height, width, j);
    lemma_div_is_ordered(i, j, w);
    lemma_fundamental_div_mod(i, w);
    lemma_fundamental_div_mod(j, w);
}

/// Every place of `image`, row by row from the top-left corner.
pub fn pixel_tasks(image: &Image) -> (tasks: Vec<PixelTask>)
    requires
        image.height * image.width <= usize::MAX,
    ensures
        tasks@ == grid(image.height, image.width),
{
    let mut tasks: Vec<PixelTask> = Vec::new();
    let mut row: usize = 0;
    while row < image.height
        invariant
            row <= image.height,
            image.height * image.width <= usize::MAX,
            tasks.len() == row * image.width,
            forall|k: int| 0 <= k < tasks.len() ==> tasks[k] == raster_task(image.width, k),
        decreases image.height - row,
    {
        let mut col: usize = 0;
        while col < image.width
            invariant
                row < image.height,
                col <= image.width,
                image.height * image.width <= usize::MAX,
                tasks.len() == row * image.width + col,
                forall|k: int| 0 <= k < tasks.len() ==> tasks[k] == raster_task(image.width, k),
            decreases image.width - col,
        {
            proof {
                lemma_fundamental_div_mod_converse(
                    row * image.width + col,
                    image.width as int,
                    row as int,
                    col as int,
                );
            }
            tasks.push((row, col));
            col += 1;
        }
        proof {
            assert(row * image.width + image.width == (row + 1) * image.width)
                by (nonlinear_arith);
            assert((row + 1) * image.width <= image.height * image.width) by (nonlinear_arith)
                requires
                    row + 1 <= image.height,
            ;
        }
        row += 1;
    }
    proof {
        assert(row * image.width == image.height * image.width);
    }
    tasks
}

/// The colours of `keyed`, without their places.
pub open spec fn colours(keyed: Seq<Keyed>) -> Seq<Pixel> {
    keyed.map_values(|entry: Keyed| entry.1)
}

/// The entries of `keyed` in the order of the raster: sorted by place, and
/// by colour where a place occurs more than once.
pub open spec fn raster_order(keyed: Seq<Keyed>) -> Seq<Keyed> {
    keyed.sort_by(keyed_order())
}

/// The raster order of `keyed` holds the entries of `keyed`, each as often
/// as `keyed` does, in ascending order.
pub proof fn lemma_raster_order_sorts(keyed: Seq<Keyed>)
    ensures
        sorted_by(raster_order(keyed), keyed_order()),
        raster_order(keyed).to_multiset() == keyed.to_multiset(),
        raster_order(keyed).len() == keyed.len(),
{
    lemma_keyed_order_total();
    keyed.lemma_sort_by_ensures(keyed_order());
    keyed.to_multiset_ensures();
    raster_order(keyed).to_multiset_ensures();
}

/// There is one way only to put the entries of `keyed` in ascending order.
pub proof fn lemma_raster_order_is_unique(keyed: Seq<Keyed>, sorted: Seq<Keyed>)
    requires
        sorted_by(sorted, keyed_order()),
        sorted.to_multiset() == keyed.to_multiset(),
    ensures
        sorted == raster_order(keyed),
{
    lemma_keyed_order_total();
    lemma_raster_order_sorts(keyed);
    lemma_sorted_unique(sorted, raster_order(keyed), keyed_order());
}

/// Puts shaded pixels, in whatever order they were finished, in the order of
/// the raster, and hands back their colours.
pub fn order_pixels(keyed: Vec<Keyed>) -> (pixels: Vec<Pixel>)
    ensures
        pixels@ == colours(raster_order(keyed@)),
        pixels.len() == keyed.len(),
{
    let ghost finished = keyed@;
    proof {
        lemma_raster_order_sorts(finished);
    }
    let mut keyed = keyed;
    sort_keyed(&mut keyed);
    proof {
        lemma_raster_order_is_unique(finished, keyed@);
    }
    let mut pixels: Vec<Pixel> = Vec::new();
    let mut k: usize = 0;
    while k < keyed.len()
        invariant
            k <= keyed.len(),
            pixels@ == colours(keyed@.take(k as int)),
        decreases keyed.len() - k,
    {
        pixels.push(keyed[k].1);
        k += 1;
        assert(pixels@ == colours(keyed@.take(k as int)));
    }
    assert(keyed@.take(k as int) == keyed@);
    pixels
}

} // verus!
