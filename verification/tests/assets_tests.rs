use spottedcat::atlas::{register_image, AtlasError, DynamicAtlas};
use spottedcat::image::{Bounds, Image, PixelBounds};
use spottedcat::image_shader::{ImageShaderBindings, ImageShaderInput};
use spottedcat::packer::Packer;
use spottedcat::pt::Pt;
use spottedcat::registry::{ResourceRegistry, TargetError, TextureError};
use spottedcat::texture::{texture_upload_bytes, Texture};

fn pt(v: f32) -> Pt {
    Pt::from_bits(v.to_bits())
}

fn logical(px: u32) -> Pt {
    pt(px as f32 / 2.0)
}

#[test]
fn test_auto_atlas_logic() {
    let mut reg = ResourceRegistry::new();
    let mut no_atlas: Option<DynamicAtlas> = None;
    let img1 = register_image(&mut reg, &mut no_atlas, &logical, 1, 1, pt(10.0), pt(10.0), &[0, 0, 0, 0]);
    let img2 = register_image(&mut reg, &mut no_atlas, &logical, 1, 1, pt(10.0), pt(10.0), &[0, 0, 0, 0]);
    assert_ne!(img1.texture_id(), img2.texture_id(), "Should not auto-atlas without graphics");
}

#[test]
fn small_images_share_an_atlas_page() {
    let mut reg = ResourceRegistry::new();
    let mut atlas = Some(DynamicAtlas::new(4096));
    let red = [255u8, 0, 0, 255].repeat(4);
    let img1 = register_image(&mut reg, &mut atlas, &logical, 2, 2, pt(1.0), pt(1.0), &red);
    let img2 = register_image(&mut reg, &mut atlas, &logical, 2, 2, pt(1.0), pt(1.0), &red);
    assert_eq!(img1.texture_id(), img2.texture_id());
    assert_ne!(img1.id(), img2.id());
    let a = atlas.as_ref().unwrap();
    assert_eq!(a.pages.len(), 1);
    assert_eq!(a.pages[0].pixel_width, 256);
    assert_eq!(img1.pixel_bounds(), PixelBounds { x: 0, y: 0, width: 2, height: 2 });
    let pb = img2.pixel_bounds();
    assert_eq!((pb.width, pb.height), (2, 2));
    assert!(pb.x >= 3 || pb.y >= 3);
    // the page holds the pixels at the image's place
    let page = &a.pages[0];
    for row in 0..2u32 {
        for col in 0..2u32 {
            let at = (((pb.y + row) * page.pixel_width + pb.x + col) * 4) as usize;
            assert_eq!(&page.buffer[at..at + 4], &[255, 0, 0, 255]);
        }
    }
    // the texture of the page got the new pixels
    let tex = reg.texture(img1.texture_id()).unwrap();
    assert_eq!(tex.raw_data.as_ref().unwrap(), &page.buffer);
    assert_eq!(f32::from_bits(img2.bounds().x.to_bits()), pb.x as f32 / 2.0);
}

#[test]
fn large_images_get_their_own_texture() {
    let mut reg = ResourceRegistry::new();
    let mut atlas = Some(DynamicAtlas::new(4096));
    let data = vec![7u8; 513 * 1 * 4];
    let img = register_image(&mut reg, &mut atlas, &logical, 513, 1, pt(513.0), pt(1.0), &data);
    assert!(atlas.as_ref().unwrap().pages.is_empty());
    assert_eq!(img.pixel_bounds(), PixelBounds { x: 0, y: 0, width: 513, height: 1 });
    assert_eq!(reg.texture(img.texture_id()).unwrap().raw_data.as_ref().unwrap(), &data);
}

#[test]
fn atlas_refuses_regions_larger_than_a_page() {
    let mut reg = ResourceRegistry::new();
    let mut atlas = DynamicAtlas::new(16);
    let data = vec![0u8; 16 * 4 * 4];
    let res = atlas.add_region(&mut reg, &logical, pt(16.0), pt(4.0), 16, 4, &data);
    assert_eq!(res.unwrap_err(), AtlasError::RegionTooLarge { width: 16, height: 4 });
    assert!(atlas.pages.is_empty());
    let ok = atlas.add_region(&mut reg, &logical, pt(15.0), pt(4.0), 15, 4, &data).unwrap();
    assert_eq!(atlas.pages.len(), 1);
    assert_eq!((atlas.pages[0].pixel_width, atlas.pages[0].pixel_height), (16, 16));
    assert_eq!(ok.pixel_bounds().x, 0);
}

#[test]
fn atlas_opens_a_new_page_when_the_first_is_full() {
    let mut reg = ResourceRegistry::new();
    let mut atlas = DynamicAtlas::new(8);
    let data = vec![1u8; 7 * 7 * 4];
    let a = atlas.add_region(&mut reg, &logical, pt(7.0), pt(7.0), 7, 7, &data).unwrap();
    let b = atlas.add_region(&mut reg, &logical, pt(7.0), pt(7.0), 7, 7, &data).unwrap();
    assert_eq!(atlas.pages.len(), 2);
    assert_ne!(a.texture_id(), b.texture_id());
}

#[test]
fn texture_new_checks_data_length() {
    let mut reg = ResourceRegistry::new();
    let err = Texture::new(&mut reg, pt(2.0), pt(2.0), 2, 2, &[0u8; 15]).unwrap_err();
    assert_eq!(err, TextureError::LengthMismatch { expected: 16, got: 15 });
    assert_eq!(reg.next_texture_id(), 1);
    let t = Texture::new(&mut reg, pt(2.0), pt(2.0), 2, 2, &[0u8; 16]).unwrap();
    assert_eq!(t.id(), 1);
    assert!(!t.is_render_target(&reg));
    assert!(!t.is_ready(&reg));
    let view = t.view();
    assert_eq!(view.pixel_bounds(), PixelBounds { x: 0, y: 0, width: 2, height: 2 });
    assert_eq!(reg.image(view.id()).unwrap().texture_id, t.id());
}

#[test]
fn texture_zero_pixel_size_becomes_one() {
    let mut reg = ResourceRegistry::new();
    let t = Texture::new(&mut reg, pt(0.2), pt(0.2), 0, 0, &[1, 2, 3, 4]).unwrap();
    assert_eq!(t.view().pixel_bounds().width, 1);
    let rt = Texture::new_render_target(&mut reg, pt(10.0), pt(5.0), 10, 0);
    assert!(rt.is_render_target(&reg));
    assert_eq!(rt.view().pixel_bounds(), PixelBounds { x: 0, y: 0, width: 10, height: 1 });
    assert_eq!(reg.resolve_target_texture_id(rt.view()), rt.id());
}

#[test]
fn uploaded_textures_are_ready_until_the_gpu_changes() {
    let mut reg = ResourceRegistry::new();
    let t = Texture::new(&mut reg, pt(1.0), pt(1.0), 1, 1, &[0u8; 4]).unwrap();
    reg.mark_texture_uploaded(t.id());
    assert!(t.is_ready(&reg));
    assert!(t.view().is_ready(&reg));
    reg.bump_gpu_generation();
    assert!(!t.is_ready(&reg));
}

#[test]
fn sub_images_and_destroy() {
    let mut reg = ResourceRegistry::new();
    let t = Texture::new(&mut reg, pt(4.0), pt(4.0), 4, 4, &[0u8; 64]).unwrap();
    let full = t.view();
    let bounds = Bounds::new(pt(1.0), pt(2.0), pt(2.0), pt(2.0));
    let sub = Image::sub_image(&mut reg, full, bounds, 1, 2, 2, 2);
    assert_eq!(sub.texture_id(), t.id());
    assert_eq!(sub.bounds(), bounds);
    assert_eq!(sub.pixel_bounds(), PixelBounds { x: 1, y: 2, width: 2, height: 2 });
    assert!(sub.destroy(&mut reg));
    assert!(!sub.destroy(&mut reg));
    assert!(reg.image(full.id()).is_some());
}

#[test]
fn fonts_and_shaders_get_increasing_ids() {
    let mut reg = ResourceRegistry::new();
    let f1 = reg.register_font(vec![1, 2, 3]);
    let f2 = reg.register_font(vec![4]);
    assert_eq!((f1, f2), (1, 2));
    assert_eq!(reg.get_font(f1), Some(vec![1, 2, 3]));
    reg.unregister_font(f1);
    assert_eq!(reg.get_font(f1), None);
    assert_eq!(reg.register_image_shader("fn user() {}"), 1);
}

#[test]
fn named_shader_bindings_replace_by_name() {
    let mut reg = ResourceRegistry::new();
    let a = Texture::new(&mut reg, pt(1.0), pt(1.0), 1, 1, &[0u8; 4]).unwrap().view();
    let b = Texture::new(&mut reg, pt(1.0), pt(1.0), 1, 1, &[0u8; 4]).unwrap().view();
    let bindings = ImageShaderBindings::new().with_image("t_noise", a).with_image("t_mask", a).with_image("t_noise", b);
    assert_eq!(bindings.named_input("t_noise"), Some(ImageShaderInput::Image(b)));
    assert_eq!(bindings.named_input("t_mask"), Some(ImageShaderInput::Image(a)));
    assert_eq!(bindings.named_input("t_none"), None);
}

#[test]
fn packer_places_first_fit_and_splits() {
    let mut p = Packer::new(10, 4);
    assert_eq!(p.insert(2, 2), Some((0, 0)));
    assert_eq!(p.insert(8, 2), Some((2, 0)));
    assert_eq!(p.insert(11, 1), None);
    let mut exact = Packer::new(3, 3);
    assert_eq!(exact.insert(3, 3), Some((0, 0)));
    assert_eq!(exact.insert(1, 1), None);
}

#[test]
fn packer_wide_split_keeps_pieces_apart() {
    // After a wide split the strip under the first rectangle is only as wide
    // as that rectangle, so later placements never overlap.
    let mut p = Packer::new(10, 4);
    assert_eq!(p.insert(2, 2), Some((0, 0)));
    assert_eq!(p.insert(8, 2), Some((2, 0)));
    assert_eq!(p.insert(8, 2), Some((2, 2)));
    assert_eq!(p.insert(8, 2), None);
    assert_eq!(p.insert(2, 2), Some((0, 2)));
    assert_eq!(p.insert(1, 1), None);

    // A narrow leftover keeps the strip under the rectangle as wide as the
    // leftover, as the tree packer always did.
    let mut n = Packer::new(5, 2);
    assert_eq!(n.insert(3, 1), Some((0, 0)));
    assert_eq!(n.insert(3, 1), None);
    assert_eq!(n.insert(2, 2), Some((3, 0)));
    assert_eq!(n.insert(2, 1), Some((0, 1)));

    let mut q = Packer::new(8, 4);
    assert_eq!(q.insert(2, 2), Some((0, 0)));
    assert_eq!(q.insert(6, 2), Some((2, 0)));
    assert_eq!(q.insert(6, 2), Some((2, 2)));
    assert_eq!(q.insert(6, 2), None);
}

#[test]
fn packer_placements_are_pairwise_disjoint() {
    let mut p = Packer::new(16, 16);
    let sizes = [(5, 3), (4, 4), (7, 2), (3, 9), (2, 2), (6, 6), (1, 5), (8, 1), (3, 3), (2, 7)];
    let mut placed: Vec<(i32, i32, i32, i32)> = Vec::new();
    for (w, h) in sizes {
        if let Some((x, y)) = p.insert(w, h) {
            assert!(x >= 0 && y >= 0 && x + w <= 16 && y + h <= 16);
            for &(a, b, c, d) in &placed {
                let apart = x + w <= a || a + c <= x || y + h <= b || b + d <= y;
                assert!(apart, "({x},{y},{w},{h}) overlaps ({a},{b},{c},{d})");
            }
            placed.push((x, y, w, h));
        }
    }
    assert!(placed.len() >= 5);
}

#[test]
fn uploads_are_planned_for_stale_textures() {
    let mut reg = ResourceRegistry::new();
    let a = Texture::new(&mut reg, pt(1.0), pt(1.0), 1, 1, &[0u8; 4]).unwrap();
    let b = Texture::new(&mut reg, pt(1.0), pt(1.0), 1, 1, &[0u8; 4]).unwrap();
    assert_eq!(reg.textures_to_upload(), vec![a.id(), b.id()]);
    reg.mark_texture_uploaded(a.id());
    assert_eq!(reg.textures_to_upload(), vec![b.id()]);
    reg.reset_gpu_state();
    assert_eq!(reg.textures_to_upload(), vec![a.id(), b.id()]);
    assert!(!a.is_ready(&reg));
}

#[test]
fn upload_bytes_swap_red_and_blue_for_bgra_targets() {
    let rgba = [1u8, 2, 3, 4, 5, 6, 7, 8, 9];
    assert_eq!(texture_upload_bytes(&rgba, true, 2, 1), Some(vec![3, 2, 1, 4, 7, 6, 5, 8, 9]));
    assert_eq!(texture_upload_bytes(&rgba, false, 2, 1), Some(rgba.to_vec()));
    assert_eq!(texture_upload_bytes(&rgba, true, 0, 1), None);
    assert_eq!(texture_upload_bytes(&rgba, false, 3, 0), None);
}

#[test]
fn shader_bindings_compare_named_images_as_a_map() {
    let mut reg = ResourceRegistry::new();
    let a = Texture::new(&mut reg, pt(1.0), pt(1.0), 1, 1, &[0u8; 4]).unwrap().view();
    let b = Texture::new(&mut reg, pt(1.0), pt(1.0), 1, 1, &[0u8; 4]).unwrap().view();
    let one = ImageShaderBindings::new().with_image("t_noise", a).with_image("t_mask", b);
    let two = ImageShaderBindings::new().with_image("t_mask", b).with_image("t_noise", a);
    assert!(one == two);
    let three = ImageShaderBindings::new().with_image("t_mask", a).with_image("t_noise", a);
    assert!(one != three);
    let four = ImageShaderBindings::new().with_image("t_noise", a);
    assert!(one != four && four != one);
    assert!(one.clone().with_screen() != one);
    assert!(ImageShaderBindings::new().with_extra_image(0, a) == ImageShaderBindings::new().with_extra_image(0, a));
    assert!(ImageShaderBindings::new().with_extra_image(0, a) != ImageShaderBindings::new().with_extra_image(1, a));
}

#[test]
fn draw_targets_are_checked() {
    let mut reg = ResourceRegistry::new();
    let rt = Texture::new_render_target(&mut reg, pt(4.0), pt(4.0), 4, 4);
    assert_eq!(reg.check_draw_target(rt.view()), Ok(rt.id()));
    let plain = Texture::new(&mut reg, pt(1.0), pt(1.0), 1, 1, &[0u8; 4]).unwrap();
    assert_eq!(reg.check_draw_target(plain.view()), Err(TargetError::NotRenderTarget));
    let bounds = Bounds::new(pt(1.0), pt(1.0), pt(2.0), pt(2.0));
    let part = Image::sub_image(&mut reg, rt.view(), bounds, 1, 1, 2, 2);
    assert_eq!(reg.check_draw_target(part), Err(TargetError::NotFullView));
    let other = ResourceRegistry::new();
    assert_eq!(other.check_draw_target(rt.view()), Err(TargetError::MissingTexture));
}
