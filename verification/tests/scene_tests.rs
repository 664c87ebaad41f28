use ray_tracer::scene::{find_material, material_kind, object_kind, ImageConfig, MaterialKind, ObjectKind};

#[test]
fn test_material_kinds() {
    assert_eq!(material_kind("lambertian"), MaterialKind::Lambertian);
    assert_eq!(material_kind("metal"), MaterialKind::Metal);
    assert_eq!(material_kind("dielectric"), MaterialKind::Dielectric);
    assert_eq!(material_kind("emissive"), MaterialKind::Emissive);
    assert_eq!(material_kind("herringbone_parquet"), MaterialKind::HerringboneParquet);
    assert_eq!(material_kind("Lambertian"), MaterialKind::Fallback);
    assert_eq!(material_kind(""), MaterialKind::Fallback);
    assert_eq!(material_kind("glass"), MaterialKind::Fallback);
}

#[test]
fn test_object_kinds() {
    assert_eq!(object_kind("quad"), ObjectKind::Quad);
    assert_eq!(object_kind("sphere"), ObjectKind::Sphere);
    assert_eq!(object_kind("triangle"), ObjectKind::Sphere);
    assert_eq!(object_kind(""), ObjectKind::Sphere);
}

#[test]
fn test_find_material_last_definition_wins() {
    let names: Vec<String> = ["ground", "left", "ground", "right"].iter().map(|s| s.to_string()).collect();
    assert_eq!(find_material(&names, "ground"), Some(2));
    assert_eq!(find_material(&names, "left"), Some(1));
    assert_eq!(find_material(&names, "right"), Some(3));
}

#[test]
fn test_find_material_unknown_name() {
    let names: Vec<String> = ["ground", "left"].iter().map(|s| s.to_string()).collect();
    assert_eq!(find_material(&names, "center"), None);
    assert_eq!(find_material(&names, "Ground"), None);
    assert_eq!(find_material(&Vec::new(), "ground"), None);
}

#[test]
fn test_image_config_fields() {
    let c = ImageConfig { width: 800, height: 450, samples_per_pixel: 100, max_depth: 50 };
    assert_eq!(c.width * c.height, 360000);
}
