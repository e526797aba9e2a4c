use cosmic_text::fontdb::Database;
use cosmic_text::FontSystem;
use std::io::Cursor;
use stratus::fonts::{
    next_vertex, outline_step, DrawRange, Face, FontHandle, FontTable, GlyphHandle, GlyphTable,
    OutlineCommand, STYLE_ITALIC, STYLE_NORMAL,
};
use stratus::gpu_memory::{
    buffer_size, pool_layout, program_layout, swap_chain_layout, BufferVec, StageStep,
};
use stratus::images::{
    descriptor_layout, vertex_range, wrap_mode, DrawnImages, ImageSampler, Images, ScalingMode,
    TextureRequest,
};
use stratus::nvn::{
    align_up, call_count, is_power_of_two, BufferAddress, CopyRegion, DeviceInfo, Format, TextureHandle,
    TextureTarget, WrapMode, PAGE_ALIGNMENT,
};
use stratus::shaders::{find_program, section_count, table_size, ShaderSection, StaticShaderData};
use stratus::uniforms::{UniformHandle, UniformSlots};

#[test]
fn sizes_are_rounded_up() {
    assert_eq!(align_up(0, 0x1000), 0);
    assert_eq!(align_up(1, 0x1000), 0x1000);
    assert_eq!(align_up(0x1000, 0x1000), 0x1000);
    assert_eq!(align_up(0x1001, 0x1000), 0x2000);
    assert_eq!(align_up(7, 1), 7);
    assert!(is_power_of_two(1) && is_power_of_two(64));
    assert!(!is_power_of_two(0) && !is_power_of_two(48));
}

#[test]
fn numbers_of_the_graphics_interface() {
    assert_eq!(DeviceInfo::MinQueueCommandMemorySize.number(), 81);
    assert_eq!(DeviceInfo::BufferAlignment.number(), 4);
    assert_eq!(Format::Rgba8Srgb.number(), 0x38);
    assert_eq!(TextureTarget::D2.number(), 1);
    assert_eq!(call_count(3), Some(3));
    assert_eq!(call_count(usize::MAX), None);
    assert_eq!(BufferAddress(0x100).offset(0x20), BufferAddress(0x120));
    let region = CopyRegion::from_size_2d(4, 5);
    assert_eq!((region.x, region.y, region.z, region.w, region.h, region.d), (0, 0, 0, 4, 5, 1));
}

#[test]
fn pools_are_made_of_pages() {
    let layout = pool_layout(1, None).unwrap();
    assert_eq!((layout.size, layout.align), (PAGE_ALIGNMENT, PAGE_ALIGNMENT));
    let layout = pool_layout(0x1001, Some(0x10)).unwrap();
    assert_eq!((layout.size, layout.align), (0x2000, 0x1000));
    let layout = pool_layout(0x1001, Some(0x4000)).unwrap();
    assert_eq!((layout.size, layout.align), (0x2000, 0x4000));
    assert_eq!(pool_layout(1, Some(0)), None);
    assert_eq!(pool_layout(1, Some(3)), None);
    assert_eq!(pool_layout(usize::MAX, None), None);
    assert_eq!(buffer_size(0), 1);
    assert_eq!(buffer_size(5), 5);
}

#[test]
fn textures_lie_side_by_side() {
    let layout = swap_chain_layout(100, 64).unwrap();
    assert_eq!(
        (layout.offset_0, layout.offset_1, layout.offset_2, layout.total_size),
        (0, 128, 256, 384)
    );
    assert_eq!(swap_chain_layout(100, 3), None);
    assert_eq!(swap_chain_layout(usize::MAX / 2, 1), None);
}

#[test]
fn shaders_lie_one_behind_the_other() {
    let layout = program_layout(100, 50, 64, 1024).unwrap();
    assert_eq!(
        (layout.vertex_offset, layout.fragment_offset, layout.total_size),
        (0, 128, 192 + 1024)
    );
    assert_eq!(program_layout(1, 1, 5, 0), None);
    assert_eq!(program_layout(1, 1, 8, usize::MAX), None);
}

#[test]
fn elements_are_staged_when_they_have_changed() {
    let mut v: BufferVec<u32, &str> = BufferVec::new("first", 16);
    assert_eq!(v.stage(4), (StageStep::NoAction, vec![]));
    v.push(1);
    v.extend(vec![2, 3]);
    v.set(0, 9);
    assert_eq!(v.len(), 3);
    assert_eq!(*v.elements(), vec![9, 2, 3]);
    assert_eq!(v.stage(4), (StageStep::Flush, vec![]));
    assert_eq!(v.stage(4), (StageStep::NoAction, vec![]));
    v.extend(vec![4, 5]);
    assert_eq!(v.stage(4), (StageStep::Grow(32), vec![]));
    v.replace_buffer("second", 32);
    assert_eq!(*v.buffer(), "second");
    assert_eq!(v.address_for_element(BufferAddress(0x100), 4, 2), BufferAddress(0x108));
    v.truncate(1);
    assert_eq!(v.len(), 1);
}

#[test]
fn replaced_buffers_are_given_up_at_the_third_stage() {
    let mut v: BufferVec<u8, u32> = BufferVec::new(1, 1);
    v.extend(vec![0; 100]);
    assert_eq!(v.stage(1).0, StageStep::Grow(100));
    v.replace_buffer(2, 100);
    v.push(0);
    assert_eq!(v.stage(1), (StageStep::Grow(200), vec![]));
    v.replace_buffer(3, 200);
    v.push(0);
    assert_eq!(v.stage(1), (StageStep::Flush, vec![]));
    v.push(0);
    assert_eq!(v.stage(1), (StageStep::Flush, vec![1]));
    v.push(0);
    assert_eq!(v.stage(1), (StageStep::Flush, vec![2]));
    v.push(0);
    assert_eq!(v.stage(1), (StageStep::Flush, vec![]));
}

#[test]
fn places_for_uniforms_are_used_again() {
    let mut slots = UniformSlots::new();
    for i in 0..70 {
        assert_eq!(slots.request_new_uniform(), Some((UniformHandle(i), true)));
    }
    assert_eq!(slots.len(), 70);
    slots.release_uniform(UniformHandle(66));
    slots.release_uniform(UniformHandle(3));
    assert_eq!(slots.request_new_uniform(), Some((UniformHandle(3), false)));
    assert_eq!(slots.request_new_uniform(), Some((UniformHandle(66), false)));
    assert_eq!(slots.request_new_uniform(), Some((UniformHandle(70), true)));
}

fn face(family: &str, weight: u16) -> Option<Face> {
    Some(Face { family: String::from(family), stretch: 5, style: STYLE_NORMAL, weight })
}

#[test]
fn fonts_keep_their_handles() {
    let mut fonts = FontTable::new();
    assert_eq!(fonts.get_handle("a"), None);
    assert!(fonts.add_face(String::from("a"), face("First", 400)));
    assert!(fonts.add_face(String::from("b"), face("Second", 400)));
    assert!(fonts.add_face(String::from("c"), face("Third", 400)));
    assert_eq!(fonts.get_handle("b"), Some(FontHandle(1)));
    assert!(fonts.add_face(String::from("b"), face("Other", 700)));
    assert_eq!(fonts.get_handle("b"), Some(FontHandle(1)));
    let other = fonts.face(FontHandle(1)).unwrap();
    assert_eq!((other.family.as_str(), other.weight), ("Other", 700));
    assert_eq!(fonts.face(FontHandle(2)).unwrap().family, "Third");
    assert!(fonts.face(FontHandle(3)).is_none());
    assert!(!fonts.add_face(String::from("d"), None));
    assert_eq!(fonts.get_handle("d"), None);
}

fn put_be16(bytes: &mut Vec<u8>, value: u16) {
    bytes.extend(value.to_be_bytes());
}

fn put_be32(bytes: &mut Vec<u8>, value: u32) {
    bytes.extend(value.to_be_bytes());
}

/// A font file with a family name, a PostScript name and the figures of a face, and without glyphs.
fn font_file(family: &str, weight: u16, width: u16, italic: bool) -> Vec<u8> {
    let mut os2 = vec![0u8; 78];
    os2[4..6].copy_from_slice(&weight.to_be_bytes());
    os2[6..8].copy_from_slice(&width.to_be_bytes());
    os2[63] = italic as u8;
    let text: Vec<u8> = family.encode_utf16().flat_map(|c| c.to_be_bytes()).collect();
    let mut name: Vec<u8> = Vec::new();
    put_be16(&mut name, 0);
    put_be16(&mut name, 2);
    put_be16(&mut name, 6 + 2 * 12);
    for name_id in [1u16, 6] {
        for value in [3, 1, 0x409, name_id, text.len() as u16, 0] {
            put_be16(&mut name, value);
        }
    }
    name.extend(&text);
    let mut file: Vec<u8> = Vec::new();
    put_be32(&mut file, 0x0001_0000);
    put_be16(&mut file, 2);
    file.extend([0u8; 6]);
    let mut offset: u32 = 12 + 2 * 16;
    for (tag, table) in [(b"OS/2", &os2), (b"name", &name)] {
        file.extend(tag);
        put_be32(&mut file, 0);
        put_be32(&mut file, offset);
        put_be32(&mut file, table.len() as u32);
        offset += table.len() as u32;
    }
    file.extend(&os2);
    file.extend(&name);
    file
}

#[test]
fn faces_are_loaded_from_font_files() {
    let mut system = FontSystem::new_with_locale_and_db(String::from("en-US"), Database::new());
    let mut fonts = FontTable::new();
    assert!(fonts.add_font(&mut system, String::from("bold"), font_file("Sample", 700, 3, true)));
    assert!(fonts.add_font(&mut system, String::from("plain"), font_file("Other", 400, 5, false)));
    let bold = fonts.face(fonts.get_handle("bold").unwrap()).unwrap();
    assert_eq!(
        (bold.family.as_str(), bold.stretch, bold.style, bold.weight),
        ("Sample", 3, STYLE_ITALIC, 700)
    );
    let plain = fonts.face(fonts.get_handle("plain").unwrap()).unwrap();
    assert_eq!(
        (plain.family.as_str(), plain.stretch, plain.style, plain.weight),
        ("Other", 5, STYLE_NORMAL, 400)
    );
    assert_eq!(system.db().len(), 2);
}

#[test]
fn files_without_a_face_are_refused() {
    let mut system = FontSystem::new_with_locale_and_db(String::from("en-US"), Database::new());
    let mut fonts = FontTable::new();
    assert!(!fonts.add_font(&mut system, String::from("none"), Vec::new()));
    assert!(!fonts.add_font(&mut system, String::from("none"), b"no font at all".to_vec()));
    assert_eq!(fonts.get_handle("none"), None);
    assert_eq!(system.db().len(), 0);
}

#[test]
fn glyphs_are_prepared_once() {
    let mut glyphs = GlyphTable::new();
    let key = (0, 5, 12, 0, 0);
    assert_eq!(glyphs.find(key), None);
    assert_eq!(glyphs.add(key, 0, 30, None), GlyphHandle(0));
    let outlined = (0, 5, 12, 0, 1);
    assert_eq!(glyphs.add(outlined, 30, 60, Some(99)), GlyphHandle(1));
    assert_eq!(glyphs.find(key), Some(GlyphHandle(0)));
    assert_eq!(glyphs.find(outlined), Some(GlyphHandle(1)));
    assert_eq!(glyphs.fill(GlyphHandle(1)), Some(DrawRange { start: 30, count: 30 }));
    assert_eq!(glyphs.outline(GlyphHandle(1)), Some(DrawRange { start: 60, count: 39 }));
    assert_eq!(glyphs.outline(GlyphHandle(0)), None);
    assert_eq!(glyphs.fill(GlyphHandle(2)), None);
}

#[test]
fn parts_of_an_outline_are_closed_before_the_next_one() {
    let mut open = false;
    assert!(!outline_step(&mut open, OutlineCommand::MoveTo));
    assert!(!outline_step(&mut open, OutlineCommand::LineTo));
    assert!(outline_step(&mut open, OutlineCommand::MoveTo));
    assert!(!outline_step(&mut open, OutlineCommand::QuadTo));
    assert!(outline_step(&mut open, OutlineCommand::Close));
    assert!(!open);
    assert!(!outline_step(&mut open, OutlineCommand::Close));
    assert!(!outline_step(&mut open, OutlineCommand::CurveTo));
    assert!(open);
    assert_eq!(next_vertex(7), Some(7));
    assert_eq!(next_vertex(u32::MAX as usize), None);
}

fn png(width: u32, height: u32) -> Vec<u8> {
    let mut picture = image::RgbaImage::new(width, height);
    picture.put_pixel(0, 0, image::Rgba([1, 2, 3, 4]));
    let mut out = Cursor::new(Vec::new());
    image::DynamicImage::ImageRgba8(picture).write_to(&mut out, image::ImageFormat::Png).unwrap();
    out.into_inner()
}

#[test]
fn images_are_decoded_and_numbered() {
    let mut images = Images::new(256, 256, 2);
    let bytes = png(2, 3);
    let (texture, pixels) = images.load_texture(String::from("a"), &bytes).unwrap();
    assert_eq!((texture.width, texture.height, texture.texture_id), (2, 3, 256));
    assert_eq!(pixels.len(), 24);
    assert_eq!(pixels[..4], [1, 2, 3, 4]);
    assert!(images.load_texture(String::from("a"), &bytes).is_none());
    assert!(images.load_texture(String::from("b"), b"no image").is_none());
    assert_eq!(images.load_texture(String::from("b"), &bytes).unwrap().0.texture_id, 257);
    assert!(images.load_texture(String::from("c"), &bytes).is_none());
    assert_eq!(images.get_texture("b").unwrap().texture_id, 257);
    assert_eq!(images.get_texture("c"), None);
}

#[test]
fn samplers_are_registered_once() {
    let mut images = Images::new(256, 100, 4);
    images.load_texture(String::from("a"), &png(2, 3)).unwrap();
    let clamp = ImageSampler { wrap_mode_x: WrapMode::ClampEdge, wrap_mode_y: WrapMode::ClampEdge };
    let tiled = ImageSampler {
        wrap_mode_x: wrap_mode(ScalingMode::Tiling),
        wrap_mode_y: wrap_mode(ScalingMode::Stretch),
    };
    assert_eq!(images.request_texture("b", clamp), TextureRequest::Missing);
    assert_eq!(
        images.request_texture("a", clamp),
        TextureRequest::Register { texture_id: 256, sampler_id: 100 }
    );
    let info = images.register(String::from("a"), clamp, TextureHandle(77));
    assert_eq!((info.width, info.height, info.handle), (2, 3, TextureHandle(77)));
    assert_eq!(images.request_texture("a", clamp), TextureRequest::Known(info));
    assert_eq!(
        images.request_texture("a", tiled),
        TextureRequest::Register { texture_id: 256, sampler_id: 101 }
    );
    assert_eq!(images.next_ids(), (257, 101));
    assert_eq!(images.new_multisampled_render_target(String::from("t"), 8, 8), (257, 101));
    assert_eq!(images.next_ids(), (258, 102));
}

#[test]
fn descriptors_of_textures_come_first() {
    let layout = descriptor_layout(32, 16, 256, 128, 10).unwrap();
    assert_eq!((layout.texture_count, layout.sampler_count), (266, 138));
    assert_eq!((layout.sampler_offset, layout.total_size), (32 * 266, 32 * 266 + 16 * 138));
    assert_eq!(descriptor_layout(32, 16, 256, 128, 0), None);
    assert_eq!(descriptor_layout(usize::MAX, 16, 256, 128, 1), None);
}

#[test]
fn vertices_of_drawn_images() {
    let mut drawn = DrawnImages::new();
    drawn.add(TextureHandle(5), 2, 3, ScalingMode::Stretch, ScalingMode::Tiling);
    drawn.add(TextureHandle(9), 4, 4, ScalingMode::Stretch, ScalingMode::Stretch);
    assert_eq!(drawn.get(TextureHandle(5)).unwrap().requested_id, 0);
    assert_eq!(drawn.get(TextureHandle(9)).unwrap().requested_id, 1);
    assert_eq!(drawn.get(TextureHandle(1)), None);
    assert_eq!(vertex_range(1), Some((6, 12)));
    assert_eq!(vertex_range(usize::MAX), None);
}

fn put(table: &mut Vec<u8>, at: usize, value: u32) {
    table[at..at + 4].copy_from_slice(&value.to_le_bytes());
}

#[test]
fn the_program_of_a_shader_is_found() {
    let mut table = vec![0u8; 3 * 0x90];
    put(&mut table, 0x4C, 2);
    put(&mut table, 0x90 + 8, 1);
    let second = 2 * 0x90;
    put(&mut table, second + 4, 0x1000);
    put(&mut table, second + 0x30, 0x10);
    put(&mut table, second + 0x34, 0x200);
    put(&mut table, second + 0x38, 0x80);
    assert_eq!(section_count(&table), Some(2));
    assert_eq!(table_size(2), Some(table.len()));
    assert_eq!(
        find_program(&table),
        Some(ShaderSection { control_offset: 0x1010, code_offset: 0x1200, code_size: 0x80 })
    );
    assert_eq!(find_program(&table[..0x100]), None);
    put(&mut table, second + 8, 1);
    assert_eq!(find_program(&table), None);
    put(&mut table, second + 8, 0);
    put(&mut table, second + 4, u32::MAX);
    assert_eq!(find_program(&table), None);
    assert_eq!(section_count(&table[..0x4F]), None);
    assert_eq!(StaticShaderData::SystemDebugDrawConstantPS.offset(), 0x47443a8);
}
