use noded::node::Vec3;
use noded::scene::{texture_descriptors, Material, Scene, Sphere, TextureData, TextureDescriptor};

fn v(x: u32) -> Vec3 {
    Vec3 { x, y: x, z: x }
}

#[test]
fn lights_are_spheres_with_emissive_material() {
    let scene = Scene {
        spheres: vec![Sphere::new(v(0), 1, 0), Sphere::new(v(0), 1, 1), Sphere::new(v(0), 1, 1)],
        materials: vec![Material::Lambertian { albedo: 0 }, Material::Emissive { emit: 0 }],
        textures: vec![TextureData::solid(v(1))],
    };
    assert_eq!(scene.light_indices(), vec![1, 2]);
}

#[test]
fn descriptors_lay_textures_end_to_end() {
    let textures = vec![TextureData::solid(v(1)), TextureData {
        width: 2,
        height: 2,
        pixels: vec![v(1), v(2), v(3), v(4)],
        key: Some(String::from("x.png")),
        scale: 1,
    }, TextureData::solid(v(2))];
    let d = texture_descriptors(&textures).unwrap();
    assert_eq!(d, vec![
        TextureDescriptor { width: 1, height: 1, offset: 0 },
        TextureDescriptor { width: 2, height: 2, offset: 1 },
        TextureDescriptor { width: 1, height: 1, offset: 5 },
    ]);
}

#[test]
fn empty_descriptor_marks_unused_slot() {
    let e = TextureDescriptor::empty();
    assert_eq!((e.width, e.height, e.offset), (0, 0, 0xffff_ffff));
}

#[test]
fn pending_texture_waits_for_decode() {
    let t = TextureData::pending(String::from("moon.jpeg"), 1.0f32.to_bits());
    assert!(t.is_pending());
    assert!(t.matches(&String::from("moon.jpeg"), 1.0f32.to_bits()));
    assert!(!t.matches(&String::from("moon.jpeg"), 2.0f32.to_bits()));
    assert!(!TextureData::solid(v(0)).is_pending());
}
