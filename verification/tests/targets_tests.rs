use spottedcat::pt::Pt;
use spottedcat::registry::ResourceRegistry;
use spottedcat::targets::{collect_target_ids, render_order, target_dependencies, TargetDraw};
use spottedcat::texture::Texture;

fn pt(v: f32) -> Pt {
    Pt::from_bits(v.to_bits())
}

fn image_draw(target: u32, image: u32) -> TargetDraw {
    TargetDraw { target, is_text: false, image, extra_images: Vec::new() }
}

fn setup() -> (ResourceRegistry, Texture, Texture, Texture) {
    let mut reg = ResourceRegistry::new();
    let a = Texture::new_render_target(&mut reg, pt(8.0), pt(8.0), 8, 8);
    let b = Texture::new_render_target(&mut reg, pt(8.0), pt(8.0), 8, 8);
    let c = Texture::new(&mut reg, pt(1.0), pt(1.0), 1, 1, &[0u8; 4]).unwrap();
    for t in [a, b, c] {
        reg.mark_texture_uploaded(t.id());
    }
    (reg, a, b, c)
}

#[test]
fn targets_are_drawn_after_what_they_sample() {
    let (reg, a, b, c) = setup();
    let draws = vec![
        image_draw(0, a.view().id()),
        image_draw(a.id(), b.view().id()),
        image_draw(b.id(), c.view().id()),
        TargetDraw { target: a.id(), is_text: true, image: 0, extra_images: Vec::new() },
    ];
    assert_eq!(collect_target_ids(&reg, &draws), vec![a.id(), b.id()]);
    assert_eq!(target_dependencies(&reg, &draws, a.id()), vec![b.id()]);
    assert_eq!(target_dependencies(&reg, &draws, b.id()), Vec::<u32>::new());
    assert_eq!(render_order(&reg, &draws), Ok(vec![b.id(), a.id()]));
}

#[test]
fn shader_inputs_count_when_the_image_is_gone() {
    let (reg, a, b, _c) = setup();
    let draws = vec![
        TargetDraw { target: a.id(), is_text: false, image: 999, extra_images: vec![998, b.view().id()] },
        image_draw(b.id(), 0),
    ];
    assert_eq!(target_dependencies(&reg, &draws, a.id()), vec![b.id()]);
    assert_eq!(render_order(&reg, &draws), Ok(vec![b.id(), a.id()]));
}

#[test]
fn dependency_cycles_are_reported() {
    let (reg, a, b, _c) = setup();
    let draws = vec![image_draw(a.id(), b.view().id()), image_draw(b.id(), a.view().id())];
    assert_eq!(render_order(&reg, &draws), Err(a.id()));
}

#[test]
fn targets_not_uploaded_are_skipped() {
    let mut reg = ResourceRegistry::new();
    let a = Texture::new_render_target(&mut reg, pt(8.0), pt(8.0), 8, 8);
    let draws = vec![image_draw(a.id(), 0)];
    assert_eq!(collect_target_ids(&reg, &draws), Vec::<u32>::new());
    assert_eq!(render_order(&reg, &draws), Ok(Vec::new()));
}
