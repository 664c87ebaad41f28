use ray_tracer::scene::ImageConfig;
use ray_tracer::settings::{fallback_scene, pixel_coords, render_settings, Cli, SceneSource};

fn cli(width: Option<u32>, height: Option<u32>, samples: Option<u32>, depth: Option<u32>) -> Cli {
    Cli {
        scene: "scenes/output.json".to_string(),
        output: "output.png".to_string(),
        width,
        height,
        samples,
        seed: 42,
        depth,
    }
}

const IMAGE: ImageConfig = ImageConfig { width: 800, height: 450, samples_per_pixel: 100, max_depth: 50 };

#[test]
fn test_scene_settings_when_nothing_overridden() {
    let s = render_settings(&cli(None, None, None, None), &IMAGE);
    assert_eq!((s.width, s.height, s.samples, s.max_depth, s.seed), (800, 450, 100, 50, 42));
}

#[test]
fn test_command_line_overrides_scene() {
    let s = render_settings(&cli(Some(1920), Some(1080), Some(150), Some(8)), &IMAGE);
    assert_eq!((s.width, s.height, s.samples, s.max_depth), (1920, 1080, 150, 8));
    let s = render_settings(&cli(None, Some(10), None, Some(0)), &IMAGE);
    assert_eq!((s.width, s.height, s.samples, s.max_depth), (800, 10, 100, 0));
}

#[test]
fn test_fallback_scene_order() {
    assert_eq!(fallback_scene(true, true), SceneSource::Local);
    assert_eq!(fallback_scene(true, false), SceneSource::Local);
    assert_eq!(fallback_scene(false, true), SceneSource::Bundled);
    assert_eq!(fallback_scene(false, false), SceneSource::Builtin);
}

#[test]
fn test_pixel_coords() {
    assert_eq!(pixel_coords(0, 800), (0, 0));
    assert_eq!(pixel_coords(799, 800), (799, 0));
    assert_eq!(pixel_coords(800, 800), (0, 1));
    assert_eq!(pixel_coords(359999, 800), (799, 449));
    assert_eq!(pixel_coords(u32::MAX, 1), (0, u32::MAX));
}

#[test]
fn test_jobs_cover_every_pixel_once() {
    let (w, h) = (7u32, 5u32);
    let mut seen = vec![false; (w * h) as usize];
    for i in 0..w * h {
        let (x, y) = pixel_coords(i, w);
        assert!(x < w && y < h);
        let k = (y * w + x) as usize;
        assert!(!seen[k]);
        seen[k] = true;
    }
    assert!(seen.iter().all(|b| *b));
}
