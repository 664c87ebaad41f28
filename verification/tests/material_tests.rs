use ray_tracer::material::{Emissive, Lambertian};
use ray_tracer::parquet::plank_shade;
use ray_tracer::triangle::Triangle;
use ray_tracer::vec3::Vec3Bits;

fn bits(x: f64, y: f64, z: f64) -> Vec3Bits {
    Vec3Bits::new(x.to_bits(), y.to_bits(), z.to_bits())
}

#[test]
fn test_lambertian_keeps_albedo() {
    let m = Lambertian::new(bits(0.8, 0.8, 0.0));
    assert_eq!(f64::from_bits(m.albedo.x), 0.8);
    assert_eq!(f64::from_bits(m.albedo.z), 0.0);
}

#[test]
fn test_emissive_keeps_color() {
    let m = Emissive::new(bits(15.0, 14.0, 13.0));
    assert_eq!(m.color, bits(15.0, 14.0, 13.0));
}

#[test]
fn test_triangle_keeps_corners() {
    let t = Triangle::new(bits(0.0, 0.0, 0.0), bits(1.0, 0.0, 0.0), bits(0.0, 1.0, 0.0), 3);
    assert_eq!(t.b, bits(1.0, 0.0, 0.0));
    assert_eq!(t.material, 3);
}

#[test]
fn test_plank_shade_values() {
    assert_eq!(plank_shade(0, 0), 0);
    assert_eq!(plank_shade(1, 2), 762);
    assert_eq!(plank_shade(-1, -3), 17);
    assert_eq!(plank_shade(5, -7), 454);
    assert!(plank_shade(i64::MIN, i64::MAX) < 1000);
}
