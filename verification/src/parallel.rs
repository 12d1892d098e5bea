use crate::camera::Image;
use crate::color::Pixel;
use crate::raster::keyed_order;
use crate::raster::Keyed;
use crate::raster::PixelTask;
use crate::render::shade_task;
use crate::render::shader_input;
use crate::render::shading_of;
use crate::render::RenderConfig;
use rayon::iter::IntoParallelRefIterator;
use rayon::iter::ParallelIterator;
use rayon::slice::ParallelSliceMut;
use vstd::prelude::*;
use vstd::relations::sorted_by;

verus! {

/// Shades every task on rayon's thread pool: `par_iter`, `map` and `collect`
/// of `rayon`. Taken on trust: the vector that comes back holds what the
/// mapped function returned for each task, once for each task; nothing is
/// claimed of the order in which they stand.
#[verifier::external_body]
pub(crate) fn shade_all<F: Fn(usize, usize, RenderConfig) -> Pixel + Sync>(
    tasks: &Vec<PixelTask>,
    image: &Image,
    config: RenderConfig,
    shade: &F,
) -> (shaded: Vec<Keyed>)
    requires
        forall|i: int|
            0 <= i < tasks.len() ==> (#[trigger] tasks[i]).0 < image.height && shade.requires(
                shader_input(*image, config, tasks[i]),
            ),
    ensures
        shading_of(tasks@, *image, config, *shade, shaded@),
{
    tasks.par_iter().map(|task| shade_task(image, config, shade, *task)).collect()
}

/// Sorts pixels with their places: `par_sort` of `rayon`. Taken on trust:
/// afterwards the vector holds the same entries as before, in ascending
/// order, where tuples are ordered component by component from the left.
#[verifier::external_body]
pub(crate) fn sort_keyed(keyed: &mut Vec<Keyed>)
    ensures
        sorted_by(final(keyed)@, keyed_order()),
        final(keyed)@.to_multiset() == old(keyed)@.to_multiset(),
{
    keyed.par_sort()
}

} // verus!
