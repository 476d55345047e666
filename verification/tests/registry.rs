use raumen_text::display::Display;
use raumen_text::namemap::NameMap;
use raumen_text::text::guitext::{GuiText, TextError};
use raumen_text::text::metafile::MetaError;
use raumen_text::text::textmgr::TextMgr;
use raumen_text::text::{Colour, RFontEffect, RFontType, Vector2};
use raumen_text::texture::Texture;

const FONT: &str = "info face=\"Test\" size=59 bold=0 italic=0 charset=\"\" unicode=0 stretchH=100 smooth=1 aa=1 padding=8,8,8,8 spacing=0,0\n\
common lineHeight=84 base=54 scaleW=512 scaleH=512 pages=1 packed=0\n\
char id=32 x=0 y=0 width=0 height=0 xoffset=-5 yoffset=54 xadvance=31 page=0 chnl=0\n\
char id=65 x=10 y=10 width=20 height=20 xoffset=0 yoffset=0 xadvance=22 page=0 chnl=0\n\
char id=72 x=40 y=10 width=24 height=30 xoffset=1 yoffset=2 xadvance=26 page=0 chnl=0\n\
char id=105 x=70 y=10 width=8 height=28 xoffset=0 yoffset=4 xadvance=24 page=0 chnl=0\n";

fn registry() -> TextMgr {
    let mut mgr = TextMgr::new();
    assert_eq!(mgr.add_font("sans", FONT), Ok(()));
    assert_eq!(mgr.add_font("pirate", FONT), Ok(()));
    mgr
}

fn batch(mgr: &TextMgr, font: &str) -> Option<Vec<String>> {
    mgr.active_text.get(font).map(|b| (0..b.len()).map(|i| b.name_at(i).clone()).collect())
}

fn active_fonts(mgr: &TextMgr) -> Vec<String> {
    (0..mgr.active_text.len()).map(|i| mgr.active_text.name_at(i).clone()).collect()
}

#[test]
fn texture_starts_without_a_tint() {
    let t = Texture::new("sans", 7);
    assert_eq!(t.tex_name, "sans");
    assert_eq!(t.tex_id, 7);
    assert_eq!((t.tex_r, t.tex_g, t.tex_b), (0, 0, 0));
}

#[test]
fn display_takes_new_dimensions() {
    let mut d = Display::new();
    assert_eq!(d.dimensions(), (640, 480));
    d.update_size((1024, 768));
    assert_eq!(d, Display { w: 1024, h: 768 });
}

#[test]
fn name_map_keeps_names_apart() {
    let mut m: NameMap<u32> = NameMap::new();
    assert_eq!(m.len(), 0);
    assert_eq!(m.insert("a", 1), None);
    assert_eq!(m.insert("b", 2), None);
    assert_eq!(m.insert("a", 3), Some(1));
    assert_eq!(m.len(), 2);
    assert_eq!(m.get("a"), Some(&3));
    assert_eq!(m.get("b"), Some(&2));
    assert_eq!(m.get("c"), None);
    assert_eq!(m.find("b"), Some(1));
    assert!(m.contains_key("a"));
    assert!(!m.contains_key(""));
    assert_eq!(m.name_at(0), "a");
    assert_eq!(*m.value_at(1), 2);
    *m.value_mut(1) = 5;
    assert_eq!(m.get("b"), Some(&5));
    assert_eq!(m.remove("a"), Some(3));
    assert_eq!(m.remove("a"), None);
    assert_eq!(m.len(), 1);
    assert_eq!(m.name_at(0), "b");
}

#[test]
fn effect_starts_with_a_white_border() {
    let e = RFontEffect::new();
    assert_eq!(e.offset, Vector2 { x: 0, y: 0 });
    assert_eq!(e.colour, Colour { r: 0, g: 0, b: 0 });
    assert_eq!(e.colour_border, Colour { r: 1000, g: 1000, b: 1000 });
    assert_eq!((e.width, e.edge, e.width_border, e.edge_border), (500, 50, 400, 300));
    assert_eq!((e.timer_r, e.timer_g, e.timer_b), (0, 0, 0));
    assert_eq!((e.max_r, e.max_g, e.max_b), (7_000_000, 5_000_000, 3_000_000));
    assert_eq!(e.delta, 0);
}

#[test]
fn effect_timers_start_over_at_their_periods() {
    let mut e = RFontEffect::new();
    e.anim_timer(2_500_000);
    assert_eq!((e.timer_r, e.timer_g, e.timer_b), (2_500_000, 2_500_000, 2_500_000));
    assert_eq!(e.delta, 2_500_000);
    e.anim_timer(2_500_000);
    assert_eq!((e.timer_r, e.timer_g, e.timer_b), (5_000_000, 0, 2_000_000));
    e.anim_timer(u64::MAX);
    assert_eq!(e.timer_r, ((5_000_000u128 + u64::MAX as u128) % 7_000_000) as u64);
    assert_eq!(e.timer_g, (u64::MAX % 5_000_000) as u64);
    assert!(e.timer_b < 3_000_000);
    assert_eq!(e.colour_border, Colour { r: 1000, g: 1000, b: 1000 });
}

#[test]
fn font_is_named_after_its_atlas() {
    let f = RFontType::new(640, 480, "sans", FONT).ok().unwrap();
    assert_eq!(f.tex_atlas, "sans");
    assert_eq!(f.rtmc.metadata.display_width, 640);
    assert_eq!(RFontType::new(640, 480, "sans", "").err(), Some(MetaError::MissingInfo));
}

#[test]
fn label_starts_unloaded() {
    let t = GuiText::new("sans", "Title", "Hi", Vector2 { x: 0, y: 400 }, 1500, 300, true);
    assert_eq!((t.font.as_str(), t.label.as_str(), t.text.as_str()), ("sans", "Title", "Hi"));
    assert_eq!(t.position, Vector2 { x: 0, y: 400 });
    assert_eq!((t.font_size, t.line_max_size, t.is_centered), (1500, 300, true));
    assert_eq!((t.num_of_lines, t.text_mesh_vao, t.vertex_count, t.loaded), (0, 0, 0, false));
    assert_eq!(t.effect, RFontEffect::new());
}

#[test]
fn label_loads_once() {
    let mgr = registry();
    let mut t = GuiText::new("sans", "Title", "Hi A", Vector2 { x: 0, y: 0 }, 1000, 1000, false);
    let mesh = t.load(&mgr.fonts).ok().unwrap().unwrap();
    assert_eq!(mesh.vert_count, 18);
    assert_eq!((t.loaded, t.vertex_count, t.num_of_lines, t.text_mesh_vao), (true, 18, 1, 0));
    t.set_mesh_info(9, 18);
    assert_eq!((t.text_mesh_vao, t.vertex_count), (9, 18));
    assert!(t.load(&mgr.fonts).ok().unwrap().is_none());
    assert_eq!((t.loaded, t.text_mesh_vao), (true, 9));
    let vals = t.copy_vals();
    assert_eq!((vals.text.as_str(), vals.font_size, vals.line_max_size), ("Hi A", 1000, 1000));
    assert_eq!((vals.is_centered, vals.num_of_lines), (false, 1));
    t.set_colour(100, 200, 300);
    assert_eq!(t.effect.colour, Colour { r: 100, g: 200, b: 300 });
}

#[test]
fn label_with_an_unknown_font_is_refused() {
    let mgr = registry();
    let mut t = GuiText::new("serif", "Title", "Hi", Vector2 { x: 0, y: 0 }, 1000, 1000, false);
    assert_eq!(t.load(&mgr.fonts).err(), Some(TextError::UnknownFont));
    assert!(!t.loaded);
    assert_eq!(t.update_text(&mgr.fonts, "Ho").err(), Some(TextError::UnknownFont));
    assert_eq!(t.text, "Hi");
    assert_eq!(t.update_size(&mgr.fonts).err(), Some(TextError::UnknownFont));
}

#[test]
fn label_reloads_after_a_change() {
    let mgr = registry();
    let mut t = GuiText::new("sans", "Title", "Hi", Vector2 { x: 0, y: 0 }, 1000, 1000, false);
    t.load(&mgr.fonts).ok().unwrap();
    t.set_mesh_info(4, 12);
    let (release, mesh) = t.update_text(&mgr.fonts, "A A A A").ok().unwrap();
    assert_eq!(release, 4);
    assert_eq!(mesh.vert_count, 24);
    assert_eq!((t.text.as_str(), t.loaded, t.text_mesh_vao, t.vertex_count), ("A A A A", true, 0, 24));
    t.set_mesh_info(5, 24);
    let (release, mesh) = t.update_size(&mgr.fonts).ok().unwrap();
    assert_eq!((release, mesh.vert_count), (5, 24));
    assert_eq!((t.loaded, t.text_mesh_vao), (true, 0));
    let mut fresh = GuiText::new("sans", "Other", "A", Vector2 { x: 0, y: 0 }, 1000, 1000, false);
    let (release, mesh) = fresh.update_size(&mgr.fonts).ok().unwrap();
    assert_eq!((release, mesh.vert_count, fresh.loaded), (0, 6, true));
}

#[test]
fn registry_starts_empty() {
    let mgr = TextMgr::new();
    assert_eq!(mgr.display, Display { w: 640, h: 480 });
    assert_eq!((mgr.fonts.len(), mgr.texts.len(), mgr.active_text.len()), (0, 0, 0));
}

#[test]
fn font_is_built_for_the_display_of_the_registry() {
    let mgr = registry();
    let f = mgr.fonts.get("sans").unwrap();
    assert_eq!(f.tex_atlas, "sans");
    assert_eq!((f.rtmc.metadata.display_width, f.rtmc.metadata.display_height), (640, 480));
    assert_eq!(f.rtmc.metadata.horizontal_per_pixel_size.num, 3 * 480);
    assert_eq!(f.rtmc.metadata.horizontal_per_pixel_size.den, 100 * 68 * 640);
}

#[test]
fn refused_font_changes_nothing() {
    let mut mgr = registry();
    assert_eq!(mgr.add_font("serif", "info"), Err(MetaError::MissingInfo));
    assert_eq!(mgr.add_font("sans", "common x"), Err(MetaError::Malformed { line: 0 }));
    assert_eq!(mgr.fonts.len(), 2);
    assert!(mgr.fonts.get("serif").is_none());
}

#[test]
fn enabled_label_is_loaded_and_listed_under_its_font() {
    let mut mgr = registry();
    let job = mgr.new_text("Title", "Hi", "pirate", 4000, 0, 0, 1000, true, true).ok().unwrap();
    assert_eq!((job.label.as_str(), job.release), ("Title", 0));
    assert_eq!(job.mesh.unwrap().vert_count, 12);
    let t = mgr.texts.get("Title").unwrap();
    assert_eq!((t.loaded, t.vertex_count, t.num_of_lines), (true, 12, 1));
    assert_eq!(batch(&mgr, "pirate"), Some(vec!["Title".to_string()]));
    assert_eq!(batch(&mgr, "sans"), None);
    assert_eq!(active_fonts(&mgr), vec!["pirate".to_string()]);
}

#[test]
fn label_that_is_not_enabled_is_neither_loaded_nor_listed() {
    let mut mgr = registry();
    let job = mgr.new_text("FPS", "A", "sans", 1500, 0, 0, 300, false, false).ok().unwrap();
    assert!(job.mesh.is_none());
    assert_eq!(job.release, 0);
    assert!(!mgr.texts.get("FPS").unwrap().loaded);
    assert_eq!(mgr.active_text.len(), 0);
    let other = mgr.new_text("Odd", "A", "serif", 1500, 0, 0, 300, false, false).ok().unwrap();
    assert!(other.mesh.is_none());
    assert_eq!(mgr.texts.len(), 2);
}

#[test]
fn enabling_twice_lists_the_label_once() {
    let mut mgr = registry();
    mgr.new_text("FPS", "A", "sans", 1500, 0, 0, 300, false, false).ok().unwrap();
    let first = mgr.enable_label("FPS").ok().unwrap();
    assert_eq!(first.unwrap().vert_count, 6);
    let second = mgr.enable_label("FPS").ok().unwrap();
    assert!(second.is_none());
    assert_eq!(batch(&mgr, "sans"), Some(vec!["FPS".to_string()]));
    assert_eq!(active_fonts(&mgr), vec!["sans".to_string()]);
}

#[test]
fn enabling_a_label_of_an_unknown_font_is_refused() {
    let mut mgr = registry();
    mgr.new_text("Odd", "A", "serif", 1500, 0, 0, 300, false, false).ok().unwrap();
    assert_eq!(mgr.enable_label("Odd").err(), Some(TextError::UnknownFont));
    assert_eq!(mgr.active_text.len(), 0);
    assert!(!mgr.texts.get("Odd").unwrap().loaded);
    assert_eq!(
        mgr.new_text("Odder", "A", "serif", 1500, 0, 0, 300, false, true).err(),
        Some(TextError::UnknownFont)
    );
    assert!(mgr.texts.get("Odder").is_none());
    assert!(mgr.enable_label("Nobody").ok().unwrap().is_none());
    assert_eq!(mgr.texts.len(), 1);
}

#[test]
fn disabling_an_unknown_label_does_nothing() {
    let mut mgr = registry();
    mgr.new_text("FPS", "A", "sans", 1500, 0, 0, 300, false, true).ok().unwrap();
    mgr.disable_label("Nobody");
    assert_eq!(batch(&mgr, "sans"), Some(vec!["FPS".to_string()]));
    assert_eq!(mgr.texts.len(), 1);
    assert_eq!(mgr.fonts.len(), 2);
}

#[test]
fn font_is_listed_while_one_of_its_labels_is_enabled() {
    let mut mgr = registry();
    mgr.new_text("a", "A", "sans", 1000, 0, 0, 300, false, true).ok().unwrap();
    mgr.new_text("b", "A", "sans", 1000, 0, 0, 300, false, true).ok().unwrap();
    mgr.new_text("c", "A", "pirate", 1000, 0, 0, 300, false, true).ok().unwrap();
    assert_eq!(active_fonts(&mgr), vec!["sans".to_string(), "pirate".to_string()]);
    assert_eq!(batch(&mgr, "sans"), Some(vec!["a".to_string(), "b".to_string()]));
    mgr.disable_label("a");
    assert_eq!(batch(&mgr, "sans"), Some(vec!["b".to_string()]));
    mgr.disable_label("a");
    assert_eq!(batch(&mgr, "sans"), Some(vec!["b".to_string()]));
    mgr.disable_label("b");
    assert_eq!(batch(&mgr, "sans"), None);
    assert_eq!(active_fonts(&mgr), vec!["pirate".to_string()]);
    assert_eq!(mgr.fonts.len(), 2);
    mgr.disable_label("c");
    assert_eq!(mgr.active_text.len(), 0);
    assert!(mgr.enable_label("b").ok().unwrap().is_none());
    assert_eq!(active_fonts(&mgr), vec!["sans".to_string()]);
    assert!(mgr.texts.get("a").unwrap().loaded);
}

#[test]
fn replaced_label_is_no_longer_listed() {
    let mut mgr = registry();
    mgr.new_text("a", "A", "sans", 1000, 0, 0, 300, false, true).ok().unwrap();
    mgr.texts.value_mut(0).set_mesh_info(11, 6);
    let job = mgr.new_text("a", "Hi", "pirate", 1000, 1, 2, 300, false, false).ok().unwrap();
    assert_eq!(job.release, 11);
    assert!(job.mesh.is_none());
    assert_eq!(mgr.active_text.len(), 0);
    let t = mgr.texts.get("a").unwrap();
    assert_eq!((t.font.as_str(), t.text.as_str(), t.loaded, t.text_mesh_vao), ("pirate", "Hi", false, 0));
    assert_eq!(t.position, Vector2 { x: 1, y: 2 });
    let job = mgr.new_text("a", "Hi", "pirate", 1000, 1, 2, 300, false, true).ok().unwrap();
    assert_eq!(job.release, 0);
    assert_eq!(job.mesh.unwrap().vert_count, 12);
    assert_eq!(batch(&mgr, "pirate"), Some(vec!["a".to_string()]));
    assert_eq!(mgr.texts.len(), 1);
}

#[test]
fn new_text_of_a_label_builds_a_new_mesh() {
    let mut mgr = registry();
    mgr.new_text("a", "A", "sans", 1000, 0, 0, 300, false, true).ok().unwrap();
    mgr.texts.value_mut(0).set_mesh_info(3, 6);
    let (release, mesh) = mgr.update_text("a", "A A A").ok().unwrap().unwrap();
    assert_eq!((release, mesh.vert_count), (3, 18));
    let t = mgr.texts.get("a").unwrap();
    assert_eq!((t.text.as_str(), t.loaded, t.text_mesh_vao, t.vertex_count), ("A A A", true, 0, 18));
    assert_eq!(batch(&mgr, "sans"), Some(vec!["a".to_string()]));
    assert!(mgr.update_text("Nobody", "x").ok().unwrap().is_none());
    mgr.new_text("odd", "A", "serif", 1000, 0, 0, 300, false, false).ok().unwrap();
    assert_eq!(mgr.update_text("odd", "B").err(), Some(TextError::UnknownFont));
    assert_eq!(mgr.texts.get("odd").unwrap().text, "A");
}

#[test]
fn new_dimensions_reach_every_font_and_label() {
    let mut mgr = registry();
    mgr.new_text("a", "A A", "sans", 1000, 0, 0, 1000, false, true).ok().unwrap();
    mgr.new_text("b", "Hi", "pirate", 2000, 0, 0, 1000, true, false).ok().unwrap();
    mgr.texts.value_mut(0).set_mesh_info(21, 12);
    let before = mgr.enable_label("a").ok().unwrap();
    assert!(before.is_none());
    let jobs = mgr.update_size((1000, 500)).ok().unwrap();
    assert_eq!(mgr.display, Display { w: 1000, h: 500 });
    assert_eq!(jobs.len(), 2);
    assert_eq!((jobs[0].label.as_str(), jobs[0].release), ("a", 21));
    assert_eq!((jobs[1].label.as_str(), jobs[1].release), ("b", 0));
    let mesh_a = jobs[0].mesh.as_ref().unwrap();
    assert_eq!(mesh_a.vert_count, 12);
    assert_eq!(mesh_a.x_den, 100 * 68 * 1000 * 1000);
    let second_x = 2 * ((22 - 16) + (31 - 16)) * 3 * 500 * 1000 - mesh_a.x_den as i128;
    assert_eq!(mesh_a.verts[12], second_x);
    assert_eq!(mesh_a.verts[0], -(mesh_a.x_den as i128));
    assert_eq!(jobs[1].mesh.as_ref().unwrap().vert_count, 12);
    for name in ["sans", "pirate"] {
        let f = mgr.fonts.get(name).unwrap();
        assert_eq!((f.rtmc.metadata.display_width, f.rtmc.metadata.display_height), (1000, 500));
        assert_eq!(f.rtmc.metadata.vertical_per_pixel_size.den, 6800);
    }
    let a = mgr.texts.get("a").unwrap();
    assert_eq!((a.loaded, a.text_mesh_vao, a.vertex_count), (true, 0, 12));
    let b = mgr.texts.get("b").unwrap();
    assert_eq!((b.loaded, b.text_mesh_vao, b.vertex_count), (true, 0, 12));
    assert_eq!(batch(&mgr, "sans"), Some(vec!["a".to_string()]));
    assert_eq!(batch(&mgr, "pirate"), None);
}

#[test]
fn new_dimensions_twice_give_the_same_meshes() {
    let mut mgr = registry();
    mgr.new_text("a", "Hi A", "sans", 1000, 0, 0, 20, true, true).ok().unwrap();
    let once = mgr.update_size((800, 600)).ok().unwrap();
    let twice = mgr.update_size((800, 600)).ok().unwrap();
    assert_eq!(once[0].mesh.as_ref().unwrap().verts, twice[0].mesh.as_ref().unwrap().verts);
    assert_eq!(once[0].mesh.as_ref().unwrap().tex_coords, twice[0].mesh.as_ref().unwrap().tex_coords);
}

#[test]
fn refused_dimensions_change_nothing() {
    let mut mgr = registry();
    mgr.new_text("a", "A", "sans", 1000, 0, 0, 300, false, true).ok().unwrap();
    assert_eq!(mgr.update_size((0, 600)).err(), Some(TextError::EmptyDisplay));
    assert_eq!(mgr.update_size((800, 0)).err(), Some(TextError::EmptyDisplay));
    mgr.new_text("odd", "A", "serif", 1000, 0, 0, 300, false, false).ok().unwrap();
    assert_eq!(mgr.update_size((800, 600)).err(), Some(TextError::UnknownFont));
    assert_eq!(mgr.display, Display { w: 640, h: 480 });
    assert_eq!(mgr.fonts.get("sans").unwrap().rtmc.metadata.display_width, 640);
    assert!(!mgr.texts.get("odd").unwrap().loaded);
}

#[test]
fn text_that_is_too_long_is_refused() {
    let mut mgr = registry();
    let long = String::from_utf8(vec![b'A'; 715_827_882]).unwrap();
    assert_eq!(
        mgr.new_text("long", &long, "sans", 1000, 0, 0, 300, false, true).err(),
        Some(TextError::TextTooLong)
    );
    assert_eq!(mgr.texts.len(), 0);
    mgr.new_text("short", "A", "sans", 1000, 0, 0, 300, false, true).ok().unwrap();
    assert_eq!(mgr.update_text("short", &long).err(), Some(TextError::TextTooLong));
    assert_eq!(mgr.texts.get("short").unwrap().text, "A");
    let mut t = GuiText::new("sans", "t", &long[..715_827_881], Vector2 { x: 0, y: 0 }, 1000, 300, false);
    t.text.push('A');
    assert_eq!(t.load(&mgr.fonts).err(), Some(TextError::TextTooLong));
    assert!(!t.loaded);
}

#[test]
fn fonts_are_registered_one_after_the_other() {
    let mut mgr = TextMgr::new();
    let names = vec!["a".to_string(), "b".to_string(), "a".to_string()];
    let wide = FONT.replace("xadvance=22", "xadvance=30");
    let sources = vec![FONT.to_string(), FONT.to_string(), wide];
    assert_eq!(mgr.add_fonts(&names, &sources), Ok(()));
    assert_eq!(mgr.fonts.len(), 2);
    assert_eq!(mgr.fonts.get("a").unwrap().rtmc.metadata.get(65).unwrap().x_advance, 14 * 3 * 480);
    assert_eq!(mgr.fonts.get("b").unwrap().rtmc.metadata.get(65).unwrap().x_advance, 6 * 3 * 480);
    let more = vec!["c".to_string(), "d".to_string(), "e".to_string()];
    let bad = vec![FONT.to_string(), "char id=".to_string(), FONT.to_string()];
    assert_eq!(mgr.add_fonts(&more, &bad), Err((1, MetaError::Malformed { line: 0 })));
    assert!(mgr.fonts.get("c").is_some());
    assert!(mgr.fonts.get("d").is_none());
    assert!(mgr.fonts.get("e").is_none());
}

#[test]
fn mesh_handle_goes_to_its_label() {
    let mut mgr = registry();
    mgr.new_text("a", "A", "sans", 1000, 0, 0, 300, false, true).ok().unwrap();
    mgr.new_text("b", "AA", "sans", 1000, 0, 0, 300, false, true).ok().unwrap();
    mgr.set_mesh_info("b", 17);
    mgr.set_mesh_info("nobody", 18);
    let a = mgr.texts.get("a").unwrap();
    let b = mgr.texts.get("b").unwrap();
    assert_eq!((a.text_mesh_vao, a.vertex_count), (0, 6));
    assert_eq!((b.text_mesh_vao, b.vertex_count), (17, 12));
    assert_eq!(mgr.texts.len(), 2);
}
