use vstd::prelude::*;

verus! {

/// The kinds of material a scene file can name.
#[derive(Clone, Copy, Debug, PartialEq, Eq, Structural)]
pub enum MaterialKind {
    Lambertian,
    Metal,
    Dielectric,
    Emissive,
    HerringboneParquet,
    /// Any other name: a grey diffuse material stands in.
    Fallback,
}

/// The kinds of object a scene file can name.
#[derive(Clone, Copy, Debug, PartialEq, Eq, Structural)]
pub enum ObjectKind {
    Sphere,
    Quad,
}

/// The material kind a scene file's `type` field selects.
pub open spec fn spec_material_kind(kind: Seq<char>) -> MaterialKind {
    if kind == "lambertian"@ {
        MaterialKind::Lambertian
    } else if kind == "metal"@ {
        MaterialKind::Metal
    } else if kind == "dielectric"@ {
        MaterialKind::Dielectric
    } else if kind == "emissive"@ {
        MaterialKind::Emissive
    } else if kind == "herringbone_parquet"@ {
        MaterialKind::HerringboneParquet
    } else {
        MaterialKind::Fallback
    }
}

/// The object kind a scene file's `type` field selects: a quad for "quad",
/// a sphere for anything else.
pub open spec fn spec_object_kind(kind: Seq<char>) -> ObjectKind {
    if kind == "quad"@ {
        ObjectKind::Quad
    } else {
        ObjectKind::Sphere
    }
}

fn text_is(s: &str, literal: &str) -> (b: bool)
    ensures
        b == (s@ == literal@),
{
    s.to_owned() == literal.to_owned()
}

/// The material kind named by `kind`.
pub fn material_kind(kind: &str) -> (k: MaterialKind)
    ensures
        k == spec_material_kind(kind@),
{
    if text_is(kind, "lambertian") {
        MaterialKind::Lambertian
    } else if text_is(kind, "metal") {
        MaterialKind::Metal
    } else if text_is(kind, "dielectric") {
        MaterialKind::Dielectric
    } else if text_is(kind, "emissive") {
        MaterialKind::Emissive
    } else if text_is(kind, "herringbone_parquet") {
        MaterialKind::HerringboneParquet
    } else {
        MaterialKind::Fallback
    }
}

/// The object kind named by `kind`.
pub fn object_kind(kind: &str) -> (k: ObjectKind)
    ensures
        k == spec_object_kind(kind@),
{
    if text_is(kind, "quad") {
        ObjectKind::Quad
    } else {
        ObjectKind::Sphere
    }
}

/// The material an object's `material` field refers to, among the scene's
/// materials in file order: the last one of that name (a later definition
/// replaces an earlier one), or none when no material has that name, in
/// which case a grey diffuse material stands in.
pub fn find_material(names: &Vec<String>, wanted: &str) -> (found: Option<usize>)
    ensures
        match found {
            Some(i) => {
                &&& i < names.len()
                &&& names@[i as int]@ == wanted@
                &&& forall|j: int| i < j < names.len() ==> (#[trigger] names@[j])@ != wanted@
            },
            None => forall|j: int| 0 <= j < names.len() ==> (#[trigger] names@[j])@ != wanted@,
        },
{
    let mut i = names.len();
    while i > 0
        invariant
            i <= names.len(),
            forall|j: int| i <= j < names.len() ==> (#[trigger] names@[j])@ != wanted@,
        decreases i,
    {
        i = i - 1;
        if text_is(names[i].as_str(), wanted) {
            return Some(i);
        }
    }
    None
}

/// The image section of a scene file.
#[derive(Clone, Copy, Debug, PartialEq, Eq, Structural)]
pub struct ImageConfig {
    pub width: u32,
    pub height: u32,
    pub samples_per_pixel: u32,
    pub max_depth: u32,
}

} // verus!
