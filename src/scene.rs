use vstd::prelude::*;
use crate::node::{Vec3, ONE_F32_BITS};

verus! {

/// A texture of the flat scene. An image texture carries its path as `key`; its
/// texels stay empty until the image has been decoded.
pub struct TextureData {
    pub width: u32,
    pub height: u32,
    /// Row-major linear colours.
    pub pixels: Vec<Vec3>,
    pub key: Option<String>,
    /// `f32` bits.
    pub scale: u32,
}

/// Path and scale identify an image texture.
pub open spec fn texture_matches(t: TextureData, path: Seq<char>, scale: u32) -> bool {
    &&& t.key is Some
    &&& t.key->Some_0@ == path
    &&& t.scale == scale
}

impl TextureData {
    /// A one-texel texture of a single colour.
    pub fn solid(color: Vec3) -> (r: Self)
        ensures
            r.width == 1 && r.height == 1,
            r.pixels@ == seq![color],
            r.key is None,
            r.scale == ONE_F32_BITS,
    {
        TextureData { width: 1, height: 1, pixels: vec![color], key: None, scale: ONE_F32_BITS }
    }

    /// An image texture still to be decoded.
    pub fn pending(path: String, scale: u32) -> (r: Self)
        ensures
            r.width == 0 && r.height == 0,
            r.pixels@.len() == 0,
            r.key == Some(path),
            r.scale == scale,
    {
        TextureData { width: 0, height: 0, pixels: Vec::new(), key: Some(path), scale }
    }

    pub fn is_pending(&self) -> (r: bool)
        ensures
            r == (self.key is Some && self.pixels@.len() == 0),
    {
        self.key.is_some() && self.pixels.len() == 0
    }

    pub fn matches(&self, path: &String, scale: u32) -> (r: bool)
        ensures
            r == texture_matches(*self, path@, scale),
    {
        match &self.key {
            Some(k) => *k == *path && self.scale == scale,
            None => false,
        }
    }
}

/// A material of the flat scene; texture fields index the scene's textures.
#[derive(Clone, Copy, Debug, PartialEq, Eq, Structural)]
pub enum Material {
    Lambertian { albedo: usize },
    /// `fuzz` is `f32` bits.
    Metal { albedo: usize, fuzz: u32 },
    /// `refraction_index` is `f32` bits.
    Dielectric { refraction_index: u32 },
    Checkerboard { even: usize, odd: usize },
    Emissive { emit: usize },
}

/// Every texture a material reads exists.
pub open spec fn material_refs_ok(m: Material, n_textures: nat) -> bool {
    match m {
        Material::Lambertian { albedo } => albedo < n_textures,
        Material::Metal { albedo, .. } => albedo < n_textures,
        Material::Dielectric { .. } => true,
        Material::Checkerboard { even, odd } => even < n_textures && odd < n_textures,
        Material::Emissive { emit } => emit < n_textures,
    }
}

#[derive(Clone, Copy, Debug, PartialEq, Eq, Structural)]
pub struct Sphere {
    pub center: Vec3,
    /// `f32` bits.
    pub radius: u32,
    pub material_idx: u32,
}

impl Sphere {
    pub fn new(center: Vec3, radius: u32, material_idx: u32) -> (r: Self)
        ensures
            r == (Sphere { center, radius, material_idx }),
    {
        Sphere { center, radius, material_idx }
    }
}

/// The flat, GPU-ready scene.
pub struct Scene {
    pub spheres: Vec<Sphere>,
    pub materials: Vec<Material>,
    pub textures: Vec<TextureData>,
}

/// No two image textures share path and scale.
pub open spec fn textures_unique(t: Seq<TextureData>) -> bool {
    forall|i: int, j: int|
        0 <= i < t.len() && 0 <= j < t.len() && i != j && (#[trigger] t[i]).key is Some ==> !texture_matches(
            #[trigger] t[j],
            t[i].key->Some_0@,
            t[i].scale,
        )
}

impl Scene {
    /// Every index in the scene points at an existing entry, and image textures are unique.
    pub open spec fn wf(&self) -> bool {
        &&& forall|i: int|
            0 <= i < self.materials@.len() ==> material_refs_ok(
                #[trigger] self.materials@[i],
                self.textures@.len(),
            )
        &&& forall|i: int|
            0 <= i < self.spheres@.len() ==> (#[trigger] self.spheres@[i]).material_idx
                < self.materials@.len()
        &&& textures_unique(self.textures@)
    }

    pub fn empty() -> (r: Self)
        ensures
            r.spheres@.len() == 0,
            r.materials@.len() == 0,
            r.textures@.len() == 0,
            r.wf(),
    {
        Scene { spheres: Vec::new(), materials: Vec::new(), textures: Vec::new() }
    }

    /// A placeholder scene shown while no scene is wired: a black texture, one
    /// diffuse and one emissive material, and two spheres of radius zero.
    pub fn stub() -> (r: Self)
        ensures
            r.wf(),
            r.textures@.len() == 1,
            r.textures@[0].pixels@ == seq![Vec3 { x: 0, y: 0, z: 0 }],
            r.textures@[0].key is None,
            r.materials@ == seq![Material::Lambertian { albedo: 0 }, Material::Emissive { emit: 0 }],
            r.spheres@ == seq![
                Sphere { center: Vec3 { x: 0, y: 0, z: 0 }, radius: 0, material_idx: 0 },
                Sphere { center: Vec3 { x: 0, y: 0, z: 0 }, radius: 0, material_idx: 1 },
            ],
    {
        let origin = Vec3 { x: 0, y: 0, z: 0 };
        let textures = vec![TextureData::solid(origin)];
        let materials = vec![Material::Lambertian { albedo: 0 }, Material::Emissive { emit: 0 }];
        let spheres = vec![Sphere::new(origin, 0, 0), Sphere::new(origin, 0, 1)];
        Scene { spheres, materials, textures }
    }

    /// Indices of the spheres that emit light.
    pub fn light_indices(&self) -> (r: Vec<u32>)
        requires
            self.spheres@.len() <= u32::MAX,
        ensures
            r@ == light_indices_spec(self.spheres@, self.materials@),
    {
        let mut out: Vec<u32> = Vec::new();
        let mut i: usize = 0;
        while i < self.spheres.len()
            invariant
                0 <= i <= self.spheres@.len(),
                self.spheres@.len() <= u32::MAX,
                out@ == light_indices_spec(self.spheres@.take(i as int), self.materials@),
            decreases self.spheres@.len() - i,
        {
            assert(self.spheres@.take(i + 1 as int).drop_last() == self.spheres@.take(i as int));
            let idx = self.spheres[i].material_idx as usize;
            if idx < self.materials.len() {
                match self.materials[idx] {
                    Material::Emissive { .. } => {
                        out.push(i as u32);
                    },
                    _ => {},
                }
            }
            i += 1;
        }
        assert(self.spheres@.take(self.spheres@.len() as int) == self.spheres@);
        out
    }
}

pub open spec fn is_light(s: Sphere, materials: Seq<Material>) -> bool {
    s.material_idx < materials.len() && materials[s.material_idx as int] is Emissive
}

/// The positions, in order, of the spheres whose material is emissive.
pub open spec fn light_indices_spec(spheres: Seq<Sphere>, materials: Seq<Material>) -> Seq<u32>
    decreases spheres.len(),
{
    if spheres.len() == 0 {
        Seq::empty()
    } else {
        let rest = light_indices_spec(spheres.drop_last(), materials);
        if is_light(spheres.last(), materials) {
            rest.push((spheres.len() - 1) as u32)
        } else {
            rest
        }
    }
}

/// Where one texture's texels sit in the texel buffer shared by all textures.
#[derive(Clone, Copy, Debug, PartialEq, Eq, Structural)]
pub struct TextureDescriptor {
    pub width: u32,
    pub height: u32,
    pub offset: u32,
}

impl TextureDescriptor {
    /// The descriptor of an unused texture slot.
    pub fn empty() -> (r: Self)
        ensures
            r.width == 0 && r.height == 0 && r.offset == u32::MAX,
    {
        TextureDescriptor { width: 0, height: 0, offset: 0xffff_ffff }
    }
}

/// One material as the GPU kernel reads it: a kind tag, up to two textures and
/// one real parameter (`f32` bits).
#[derive(Clone, Copy, Debug, PartialEq, Eq, Structural)]
pub struct GpuMaterial {
    pub id: u32,
    pub desc1: TextureDescriptor,
    pub desc2: TextureDescriptor,
    pub x: u32,
}

impl GpuMaterial {
    pub fn lambertian(albedo: TextureDescriptor) -> (r: Self)
        ensures
            r == (GpuMaterial { id: 0, desc1: albedo, desc2: empty_descriptor(), x: 0 }),
    {
        GpuMaterial { id: 0, desc1: albedo, desc2: TextureDescriptor::empty(), x: 0 }
    }

    pub fn metal(albedo: TextureDescriptor, fuzz: u32) -> (r: Self)
        ensures
            r == (GpuMaterial { id: 1, desc1: albedo, desc2: empty_descriptor(), x: fuzz }),
    {
        GpuMaterial { id: 1, desc1: albedo, desc2: TextureDescriptor::empty(), x: fuzz }
    }

    pub fn dielectric(refraction_index: u32) -> (r: Self)
        ensures
            r == (GpuMaterial { id: 2, desc1: empty_descriptor(), desc2: empty_descriptor(), x: refraction_index }),
    {
        GpuMaterial {
            id: 2,
            desc1: TextureDescriptor::empty(),
            desc2: TextureDescriptor::empty(),
            x: refraction_index,
        }
    }

    pub fn checkerboard(even: TextureDescriptor, odd: TextureDescriptor) -> (r: Self)
        ensures
            r == (GpuMaterial { id: 3, desc1: even, desc2: odd, x: 0 }),
    {
        GpuMaterial { id: 3, desc1: even, desc2: odd, x: 0 }
    }

    pub fn emissive(emit: TextureDescriptor) -> (r: Self)
        ensures
            r == (GpuMaterial { id: 4, desc1: emit, desc2: empty_descriptor(), x: 0 }),
    {
        GpuMaterial { id: 4, desc1: emit, desc2: TextureDescriptor::empty(), x: 0 }
    }
}

pub open spec fn empty_descriptor() -> TextureDescriptor {
    TextureDescriptor { width: 0, height: 0, offset: u32::MAX }
}

/// The GPU form of a material, given the descriptors of the scene's textures. The
/// kernel takes a checkerboard's odd texture first.
pub open spec fn gpu_material_spec(m: Material, d: Seq<TextureDescriptor>) -> GpuMaterial {
    match m {
        Material::Lambertian { albedo } => GpuMaterial { id: 0, desc1: d[albedo as int], desc2: empty_descriptor(), x: 0 },
        Material::Metal { albedo, fuzz } => GpuMaterial { id: 1, desc1: d[albedo as int], desc2: empty_descriptor(), x: fuzz },
        Material::Dielectric { refraction_index } => GpuMaterial {
            id: 2,
            desc1: empty_descriptor(),
            desc2: empty_descriptor(),
            x: refraction_index,
        },
        Material::Checkerboard { even, odd } => GpuMaterial { id: 3, desc1: d[odd as int], desc2: d[even as int], x: 0 },
        Material::Emissive { emit } => GpuMaterial { id: 4, desc1: d[emit as int], desc2: empty_descriptor(), x: 0 },
    }
}

/// The materials of a scene in the GPU's form.
pub fn gpu_materials(materials: &Vec<Material>, descriptors: &Vec<TextureDescriptor>) -> (r: Vec<GpuMaterial>)
    requires
        forall|i: int| 0 <= i < materials@.len() ==> material_refs_ok(#[trigger] materials@[i], descriptors@.len()),
    ensures
        r@.len() == materials@.len(),
        forall|i: int| 0 <= i < r@.len() ==> #[trigger] r@[i] == gpu_material_spec(materials@[i], descriptors@),
{
    let mut out: Vec<GpuMaterial> = Vec::new();
    let mut i: usize = 0;
    while i < materials.len()
        invariant
            0 <= i <= materials@.len(),
            forall|k: int| 0 <= k < materials@.len() ==> material_refs_ok(#[trigger] materials@[k], descriptors@.len()),
            out@.len() == i,
            forall|k: int| 0 <= k < i ==> #[trigger] out@[k] == gpu_material_spec(materials@[k], descriptors@),
        decreases materials@.len() - i,
    {
        let g = match materials[i] {
            Material::Lambertian { albedo } => GpuMaterial::lambertian(descriptors[albedo]),
            Material::Metal { albedo, fuzz } => GpuMaterial::metal(descriptors[albedo], fuzz),
            Material::Dielectric { refraction_index } => GpuMaterial::dielectric(refraction_index),
            Material::Checkerboard { even, odd } => GpuMaterial::checkerboard(descriptors[odd], descriptors[even]),
            Material::Emissive { emit } => GpuMaterial::emissive(descriptors[emit]),
        };
        out.push(g);
        i += 1;
    }
    out
}

/// The texels of all textures, end to end, in texture order.
pub open spec fn texels_concat(t: Seq<TextureData>) -> Seq<Vec3>
    decreases t.len(),
{
    if t.len() == 0 {
        Seq::empty()
    } else {
        texels_concat(t.drop_last()) + t.last().pixels@
    }
}

/// The texel buffer shared by all textures: each texture's texels, in order, at
/// the offset its descriptor gives.
pub fn texel_buffer(textures: &Vec<TextureData>) -> (r: Vec<Vec3>)
    ensures
        r@ == texels_concat(textures@),
{
    let mut out: Vec<Vec3> = Vec::new();
    let mut i: usize = 0;
    while i < textures.len()
        invariant
            0 <= i <= textures@.len(),
            out@ == texels_concat(textures@.take(i as int)),
        decreases textures@.len() - i,
    {
        let px = &textures[i].pixels;
        let ghost base = out@;
        let mut j: usize = 0;
        while j < px.len()
            invariant
                0 <= j <= px@.len(),
                out@ == base + px@.take(j as int),
            decreases px@.len() - j,
        {
            out.push(px[j]);
            j += 1;
            assert(out@ == base + px@.take(j as int));
        }
        assert(px@.take(px@.len() as int) == px@);
        assert(textures@.take(i + 1 as int).drop_last() == textures@.take(i as int));
        i += 1;
    }
    assert(textures@.take(textures@.len() as int) == textures@);
    out
}

/// Texels of the textures before index `n`.
pub open spec fn texels_before(t: Seq<TextureData>, n: int) -> int
    decreases n,
{
    if n <= 0 {
        0
    } else {
        texels_before(t, n - 1) + t[n - 1].pixels@.len()
    }
}

/// Lays the scene's textures end to end in one texel buffer. `None` when the
/// buffer would hold more than `u32::MAX` texels.
pub fn texture_descriptors(textures: &Vec<TextureData>) -> (r: Option<Vec<TextureDescriptor>>)
    ensures
        r is Some <==> texels_before(textures@, textures@.len() as int) <= u32::MAX,
        r is Some ==> r->Some_0@.len() == textures@.len() && forall|i: int|
            0 <= i < textures@.len() ==> (#[trigger] r->Some_0@[i]) == (TextureDescriptor {
                width: textures@[i].width,
                height: textures@[i].height,
                offset: texels_before(textures@, i) as u32,
            }),
{
    let mut out: Vec<TextureDescriptor> = Vec::new();
    let mut offset: u64 = 0;
    let mut i: usize = 0;
    while i < textures.len()
        invariant
            0 <= i <= textures@.len(),
            offset == texels_before(textures@, i as int),
            offset <= u32::MAX,
            out@.len() == i,
            forall|k: int|
                0 <= k < i ==> (#[trigger] out@[k]) == (TextureDescriptor {
                    width: textures@[k].width,
                    height: textures@[k].height,
                    offset: texels_before(textures@, k) as u32,
                }),
        decreases textures@.len() - i,
    {
        let t = &textures[i];
        out.push(TextureDescriptor { width: t.width, height: t.height, offset: offset as u32 });
        let n: u64 = t.pixels.len() as u64;
        if n > 0xffff_ffff - offset {
            proof {
                lemma_texels_before_monotone(textures@, i + 1, textures@.len() as int);
            }
            return None;
        }
        offset = offset + n;
        i += 1;
    }
    Some(out)
}

proof fn lemma_texels_before_monotone(t: Seq<TextureData>, a: int, b: int)
    requires
        0 <= a <= b <= t.len(),
    ensures
        texels_before(t, a) <= texels_before(t, b),
    decreases b - a,
{
    if a < b {
        lemma_texels_before_monotone(t, a, b - 1);
    }
}

} // verus!
