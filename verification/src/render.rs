use crate::camera::Image;
use crate::color::Pixel;
use crate::parallel::shade_all;
use crate::raster::grid;
use crate::raster::keyed_order;
use crate::raster::lemma_raster_order_is_unique;
use crate::raster::lemma_raster_task_in_image;
use crate::raster::lemma_raster_task_increases;
use crate::raster::order_pixels;
use crate::raster::pixel_tasks;
use crate::raster::raster_task;
use crate::raster::Keyed;
use crate::raster::PixelTask;
use vstd::arithmetic::div_mod::lemma_fundamental_div_mod;
use vstd::prelude::*;

verus! {

/// How much work goes into each pixel: the number of rays sent through it,
/// and the number of times a ray may be scattered before it is given up.
#[derive(Clone, Copy, Debug)]
pub struct RenderConfig {
    pub samples_per_pixel: usize,
    pub max_depth: isize,
}

impl RenderConfig {
    /// A configuration that a picture can be rendered with: at least one
    /// sample for each pixel, and a depth that is not negative.
    pub open spec fn is_valid(&self) -> bool {
        self.samples_per_pixel >= 1 && self.max_depth >= 0
    }

    pub fn new(samples_per_pixel: usize, max_depth: isize) -> (config: RenderConfig)
        ensures
            config.samples_per_pixel == samples_per_pixel,
            config.max_depth == max_depth,
    {
        RenderConfig { samples_per_pixel, max_depth }
    }
}

impl Default for RenderConfig {
    /// A hundred samples for each pixel, each scattered up to a hundred times.
    fn default() -> (config: RenderConfig)
        ensures
            config.samples_per_pixel == 100,
            config.max_depth == 100,
            config.is_valid(),
    {
        RenderConfig { samples_per_pixel: 100, max_depth: 100 }
    }
}

/// Why a picture cannot be rendered.
#[derive(Clone, Copy, Debug, PartialEq, Eq, Structural)]
pub enum RenderError {
    /// The image is less than two pixels wide or less than two pixels high.
    ImageTooSmall,
    /// The number of pixels of the image does not fit in `usize`.
    ImageTooLarge,
    /// The configuration asks for no sample at all.
    NoSamples,
    /// The configuration asks for a negative depth.
    NegativeDepth,
}

/// The first reason, if there is one, why `image` cannot be rendered with
/// `config`.
pub open spec fn render_refusal(image: Image, config: RenderConfig) -> Option<RenderError> {
    if image.height < 2 || image.width < 2 {
        Some(RenderError::ImageTooSmall)
    } else if image.height * image.width > usize::MAX {
        Some(RenderError::ImageTooLarge)
    } else if config.samples_per_pixel == 0 {
        Some(RenderError::NoSamples)
    } else if config.max_depth < 0 {
        Some(RenderError::NegativeDepth)
    } else {
        None
    }
}

/// Tells whether `image` can be rendered with `config`, and if not, why.
pub fn check_render(image: &Image, config: &RenderConfig) -> (checked: Result<(), RenderError>)
    ensures
        match checked {
            Ok(_) => render_refusal(*image, *config) is None,
            Err(error) => render_refusal(*image, *config) == Some(error),
        },
        checked is Ok ==> config.is_valid(),
{
    if image.height < 2 || image.width < 2 {
        Err(RenderError::ImageTooSmall)
    } else if image.pixel_count().is_none() {
        Err(RenderError::ImageTooLarge)
    } else if config.samples_per_pixel == 0 {
        Err(RenderError::NoSamples)
    } else if config.max_depth < 0 {
        Err(RenderError::NegativeDepth)
    } else {
        Ok(())
    }
}

/// What is handed to the shader for the pixel at `task`: the row counted
/// from the bottom of the image, the column, and the configuration.
pub open spec fn shader_input(image: Image, config: RenderConfig, task: PixelTask) -> (
    usize,
    usize,
    RenderConfig,
) {
    ((image.height - 1 - task.0) as usize, task.1, config)
}

/// Whether `pixel` is a colour that `shade` may give to the pixel at `task`.
pub open spec fn shaded_at<F: Fn(usize, usize, RenderConfig) -> Pixel>(
    image: Image,
    config: RenderConfig,
    shade: F,
    task: PixelTask,
    pixel: Pixel,
) -> bool {
    shade.ensures(shader_input(image, config, task), pixel)
}

/// Whether `pixels` is a rendering of `image` by `shade`: one pixel for each
/// place, row by row from the top-left corner, each shaded at its own place.
pub open spec fn is_raster<F: Fn(usize, usize, RenderConfig) -> Pixel>(
    image: Image,
    config: RenderConfig,
    shade: F,
    pixels: Seq<Pixel>,
) -> bool {
    &&& pixels.len() == image.height * image.width
    &&& forall|i: int|
        0 <= i < pixels.len() ==> shaded_at(
            image,
            config,
            shade,
            raster_task(image.width, i),
            #[trigger] pixels[i],
        )
}

/// Whether `shade` may be called for every pixel of `image`.
pub open spec fn shader_accepts<F: Fn(usize, usize, RenderConfig) -> Pixel>(
    image: Image,
    config: RenderConfig,
    shade: F,
) -> bool {
    forall|row: usize, col: usize|
        row < image.height && col < image.width ==> #[trigger] shade.requires((row, col, config))
}

/// Shades the pixel at `task` and hands it back with its place. The image
/// plane has its first row at the bottom, so the shader gets the row
/// counted from there.
pub fn shade_task<F: Fn(usize, usize, RenderConfig) -> Pixel>(
    image: &Image,
    config: RenderConfig,
    shade: &F,
    task: PixelTask,
) -> (keyed: Keyed)
    requires
        task.0 < image.height,
        shade.requires(shader_input(*image, config, task)),
    ensures
        keyed.0 == task,
        shaded_at(*image, config, *shade, task, keyed.1),
{
    let pixel = shade(image.height - 1 - task.0, task.1, config);
    (task, pixel)
}

/// Whether `keyed` holds one shaded pixel for each of `tasks`, in their order.
pub open spec fn one_per_task<F: Fn(usize, usize, RenderConfig) -> Pixel>(
    tasks: Seq<PixelTask>,
    image: Image,
    config: RenderConfig,
    shade: F,
    keyed: Seq<Keyed>,
) -> bool {
    &&& keyed.len() == tasks.len()
    &&& forall|i: int|
        0 <= i < tasks.len() ==> (#[trigger] keyed[i]).0 == tasks[i] && shaded_at(
            image,
            config,
            shade,
            tasks[i],
            keyed[i].1,
        )
}

/// Whether `shaded` holds one shaded pixel for each of `tasks`, in any order.
pub open spec fn shading_of<F: Fn(usize, usize, RenderConfig) -> Pixel>(
    tasks: Seq<PixelTask>,
    image: Image,
    config: RenderConfig,
    shade: F,
    shaded: Seq<Keyed>,
) -> bool {
    exists|in_order: Seq<Keyed>|
        one_per_task(tasks, image, config, shade, in_order) && shaded.to_multiset()
            == in_order.to_multiset()
}

/// Renders `image` one pixel after another, row by row from the top-left
/// corner.
pub fn process_pixels_seq<F: Fn(usize, usize, RenderConfig) -> Pixel>(
    image: &Image,
    config: &RenderConfig,
    shade: &F,
) -> (rendered: Result<Vec<Pixel>, RenderError>)
    requires
        render_refusal(*image, *config) is None ==> shader_accepts(*image, *config, *shade),
    ensures
        match rendered {
            Ok(pixels) => render_refusal(*image, *config) is None && is_raster(
                *image,
                *config,
                *shade,
                pixels@,
            ),
            Err(error) => render_refusal(*image, *config) == Some(error),
        },
{
    match check_render(image, config) {
        Err(error) => {
            return Err(error);
        },
        Ok(_) => {},
    }
    let tasks = pixel_tasks(image);
    let mut pixels: Vec<Pixel> = Vec::new();
    let mut k: usize = 0;
    while k < tasks.len()
        invariant
            k <= tasks.len(),
            tasks@ == grid(image.height, image.width),
            image.height * image.width <= usize::MAX,
            shader_accepts(*image, *config, *shade),
            pixels.len() == k,
            forall|i: int|
                0 <= i < k ==> shaded_at(
                    *image,
                    *config,
                    *shade,
                    raster_task(image.width, i),
                    #[trigger] pixels[i],
                ),
        decreases tasks.len() - k,
    {
        proof {
            lemma_raster_task_in_image(image.height, image.width, k as int);
        }
        let keyed = shade_task(image, *config, shade, tasks[k]);
        pixels.push(keyed.1);
        k += 1;
    }
    Ok(pixels)
}

/// Renders `image` with the pixels shaded in parallel. The shaded pixels
/// come back with their places and are sorted by them, so that the picture
/// does not depend on which pixel was finished first.
pub fn process_pixels_par<F: Fn(usize, usize, RenderConfig) -> Pixel + Sync>(
    image: &Image,
    config: &RenderConfig,
    shade: &F,
) -> (rendered: Result<Vec<Pixel>, RenderError>)
    requires
        render_refusal(*image, *config) is None ==> shader_accepts(*image, *config, *shade),
    ensures
        match rendered {
            Ok(pixels) => render_refusal(*image, *config) is None && is_raster(
                *image,
                *config,
                *shade,
                pixels@,
            ),
            Err(error) => render_refusal(*image, *config) == Some(error),
        },
{
    match check_render(image, config) {
        Err(error) => {
            return Err(error);
        },
        Ok(_) => {},
    }
    let tasks = pixel_tasks(image);
    proof {
        assert forall|i: int| 0 <= i < tasks.len() implies (#[trigger] tasks[i]).0 < image.height
            && shade.requires(shader_input(*image, *config, tasks[i])) by {
            lemma_raster_task_in_image(image.height, image.width, i);
        }
    }
    let shaded = shade_all(&tasks, image, *config, shade);
    proof {
        let in_order = choose|in_order: Seq<Keyed>|
            one_per_task(tasks@, *image, *config, *shade, in_order) && shaded@.to_multiset()
                == in_order.to_multiset();
        assert forall|i: int, j: int| 0 <= i < j < in_order.len() implies #[trigger] keyed_order()(
            in_order[i],
            in_order[j],
        ) by {
            lemma_raster_task_increases(image.height, image.width, i, j);
        }
        lemma_raster_order_is_unique(shaded@, in_order);
    }
    Ok(order_pixels(shaded))
}

/// Whether `shade` can give a pixel one colour only.
pub open spec fn shader_is_function<F: Fn(usize, usize, RenderConfig) -> Pixel>(shade: F) -> bool {
    forall|input: (usize, usize, RenderConfig), first: Pixel, second: Pixel|
        #[trigger] shade.ensures(input, first) && #[trigger] shade.ensures(input, second) ==> first
            == second
}

/// Whether `first` and `second` may both be the `i`-th pixel of a rendering
/// of `image`: the index stands for a place inside the image, and both were
/// shaded at that place.
pub open spec fn shaded_at_same_place<F: Fn(usize, usize, RenderConfig) -> Pixel>(
    image: Image,
    config: RenderConfig,
    shade: F,
    i: int,
    first: Pixel,
    second: Pixel,
) -> bool {
    let task = raster_task(image.width, i);
    &&& task.0 < image.height
    &&& task.1 < image.width
    &&& i == task.0 * image.width + task.1
    &&& shaded_at(image, config, shade, task, first)
    &&& shaded_at(image, config, shade, task, second)
}

/// The parallel and the sequential rendering of one image have the same
/// number of pixels, the pixels of the image, and hold them in the same
/// order: at each index both hold a pixel that was shaded at the same place,
/// the place that the index has in the raster. The colours may differ where
/// the shader may give a pixel more than one colour.
pub proof fn lemma_renderings_agree<F: Fn(usize, usize, RenderConfig) -> Pixel>(
    image: Image,
    config: RenderConfig,
    shade: F,
    parallel: Seq<Pixel>,
    sequential: Seq<Pixel>,
)
    requires
        is_raster(image, config, shade, parallel),
        is_raster(image, config, shade, sequential),
    ensures
        parallel.len() == sequential.len(),
        parallel.len() == image.height * image.width,
        forall|i: int|
            0 <= i < parallel.len() ==> shaded_at_same_place(
                image,
                config,
                shade,
                i,
                #[trigger] parallel[i],
                sequential[i],
            ),
{
    assert forall|i: int| 0 <= i < parallel.len() implies shaded_at_same_place(
        image,
        config,
        shade,
        i,
        #[trigger] parallel[i],
        sequential[i],
    ) by {
        let w = image.width as int;
        lemma_raster_task_in_image(image.height, image.width, i);
        lemma_fundamental_div_mod(i, w);
        assert(w * (i / w) == (i / w) * w) by (nonlinear_arith);
        assert(shaded_at(image, config, shade, raster_task(image.width, i), parallel[i]));
        assert(shaded_at(image, config, shade, raster_task(image.width, i), sequential[i]));
    }
}

/// With a shader that gives each pixel one colour only, the parallel and
/// the sequential rendering of one image are the same picture.
pub proof fn lemma_renderings_equal<F: Fn(usize, usize, RenderConfig) -> Pixel>(
    image: Image,
    config: RenderConfig,
    shade: F,
    parallel: Seq<Pixel>,
    sequential: Seq<Pixel>,
)
    requires
        is_raster(image, config, shade, parallel),
        is_raster(image, config, shade, sequential),
        shader_is_function(shade),
    ensures
        parallel == sequential,
{
    assert forall|i: int| 0 <= i < parallel.len() implies parallel[i] == sequential[i] by {
        let task = raster_task(image.width, i);
        assert(shaded_at(image, config, shade, task, parallel[i]));
        assert(shaded_at(image, config, shade, task, sequential[i]));
    }
    assert(parallel =~= sequential);
}

} // verus!
