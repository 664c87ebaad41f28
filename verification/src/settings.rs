use vstd::prelude::*;
use crate::scene::ImageConfig;

verus! {

/// The command line: the scene file, the output image, optional overrides
/// of the scene's image settings, and the global random seed.
#[derive(Debug)]
pub struct Cli {
    pub scene: String,
    pub output: String,
    pub width: Option<u32>,
    pub height: Option<u32>,
    pub samples: Option<u32>,
    pub seed: u64,
    pub depth: Option<u32>,
}

/// What a render runs with.
#[derive(Clone, Copy, Debug, PartialEq, Eq, Structural)]
pub struct RenderSettings {
    pub width: u32,
    pub height: u32,
    pub samples: u32,
    pub max_depth: u32,
    pub seed: u64,
}

pub open spec fn or_default(o: Option<u32>, d: u32) -> u32 {
    match o {
        Some(v) => v,
        None => d,
    }
}

fn pick(o: Option<u32>, d: u32) -> (v: u32)
    ensures
        v == or_default(o, d),
{
    match o {
        Some(v) => v,
        None => d,
    }
}

/// The settings of a render: each value given on the command line overrides
/// the scene's; the seed is the command line's.
pub fn render_settings(cli: &Cli, image: &ImageConfig) -> (s: RenderSettings)
    ensures
        s.width == or_default(cli.width, image.width),
        s.height == or_default(cli.height, image.height),
        s.samples == or_default(cli.samples, image.samples_per_pixel),
        s.max_depth == or_default(cli.depth, image.max_depth),
        s.seed == cli.seed,
{
    RenderSettings {
        width: pick(cli.width, image.width),
        height: pick(cli.height, image.height),
        samples: pick(cli.samples, image.samples_per_pixel),
        max_depth: pick(cli.depth, image.max_depth),
        seed: cli.seed,
    }
}

/// Where the scene comes from when the file named on the command line could
/// not be loaded.
#[derive(Clone, Copy, Debug, PartialEq, Eq, Structural)]
pub enum SceneSource {
    /// `output.json` in the working directory.
    Local,
    /// `scenes/output.json`.
    Bundled,
    /// The scene built into the program.
    Builtin,
}

/// The fallback after the named scene failed to load: `output.json` when it
/// exists, else `scenes/output.json` when it exists, else the built-in scene.
pub fn fallback_scene(local_exists: bool, bundled_exists: bool) -> (src: SceneSource)
    ensures
        src == (if local_exists {
            SceneSource::Local
        } else if bundled_exists {
            SceneSource::Bundled
        } else {
            SceneSource::Builtin
        }),
{
    if local_exists {
        SceneSource::Local
    } else if bundled_exists {
        SceneSource::Bundled
    } else {
        SceneSource::Builtin
    }
}

/// The pixel that the `index`-th job of a render of width `width` draws:
/// pixels are numbered row by row from the top-left corner.
pub fn pixel_coords(index: u32, width: u32) -> (xy: (u32, u32))
    requires
        width > 0,
    ensures
        xy.0 < width,
        index == xy.1 * width + xy.0,
        xy.0 == index % width,
        xy.1 == index / width,
{
    let x = index % width;
    let y = index / width;
    assert(index == y * width + x) by (nonlinear_arith)
        requires
            width > 0,
            x == index % width,
            y == index / width,
    ;
    (x, y)
}

/// Every pixel of a `width` by `height` image is drawn by exactly one job:
/// job indices below `width * height` map one to one onto the pixels.
pub proof fn lemma_jobs_cover_image(width: u32, height: u32, x: u32, y: u32)
    requires
        width > 0,
        x < width,
        y < height,
    ensures
        y * width + x < width * height,
        (y * width + x) % (width as int) == x,
        (y * width + x) / (width as int) == y,
{
    assert(y * width + x < width * height) by (nonlinear_arith)
        requires
            x < width,
            y < height,
    ;
    vstd::arithmetic::div_mod::lemma_fundamental_div_mod_converse(
        (y * width + x) as int,
        width as int,
        y as int,
        x as int,
    );
}

} // verus!
