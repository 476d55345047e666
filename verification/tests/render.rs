use raumen_text::namemap::NameMap;
use raumen_text::render::{font_batches, missing_atlases, DrawCall};
use raumen_text::text::textmgr::TextMgr;
use raumen_text::text::Vector2;
use raumen_text::texture::Texture;

const FONT: &str = "info face=\"Test\" size=59 bold=0 italic=0 charset=\"\" unicode=0 stretchH=100 smooth=1 aa=1 padding=8,8,8,8 spacing=0,0\n\
common lineHeight=84 base=54 scaleW=512 scaleH=512 pages=1 packed=0\n\
char id=65 x=10 y=10 width=20 height=20 xoffset=0 yoffset=0 xadvance=22 page=0 chnl=0\n";

fn scene() -> TextMgr {
    let mut mgr = TextMgr::new();
    mgr.add_font("sans", FONT).unwrap();
    mgr.add_font("pirate", FONT).unwrap();
    mgr.new_text("title", "A", "pirate", 4000, 0, 0, 1000, true, true).ok().unwrap();
    mgr.new_text("cpu", "AA", "sans", 2000, 0, 400, 1000, true, true).ok().unwrap();
    mgr.new_text("fps", "AAA", "sans", 1500, 10, 20, 300, false, true).ok().unwrap();
    mgr.new_text("hidden", "A", "sans", 1500, 0, 0, 300, false, false).ok().unwrap();
    for (i, vao) in [(0, 5), (1, 6), (2, 7)] {
        let count = mgr.texts.value_at(i).vertex_count;
        mgr.texts.value_mut(i).set_mesh_info(vao, count);
    }
    mgr
}

fn textures(names: &[(&str, u32)]) -> NameMap<Texture> {
    let mut map = NameMap::new();
    for (name, id) in names {
        map.insert(name, Texture::new(name, *id));
    }
    map
}

#[test]
fn enabled_labels_are_drawn_by_font() {
    let mut mgr = scene();
    let batches = font_batches(&mut mgr, &textures(&[("sans", 31), ("pirate", 32)]), 1_000_000);
    assert_eq!(batches.len(), 2);
    assert_eq!(batches[0].tex_id, 32);
    assert_eq!(batches[1].tex_id, 31);
    let title = mgr.texts.get("title").unwrap();
    assert_eq!(
        batches[0].calls,
        vec![DrawCall { vao: 5, vertex_count: 6, position: Vector2 { x: 0, y: 0 }, effect: title.effect }]
    );
    assert_eq!(batches[1].calls.len(), 2);
    assert_eq!((batches[1].calls[0].vao, batches[1].calls[0].vertex_count), (6, 12));
    assert_eq!((batches[1].calls[1].vao, batches[1].calls[1].vertex_count), (7, 18));
    assert_eq!(batches[1].calls[1].position, Vector2 { x: 10, y: 20 });
    assert_eq!(batches[1].calls[0].effect.timer_r, 1_000_000);
    assert_eq!(title.effect.timer_b, 1_000_000);
    assert_eq!(mgr.texts.get("hidden").unwrap().effect.timer_r, 0);
}

#[test]
fn timers_of_drawn_labels_advance_with_every_frame() {
    let mut mgr = scene();
    let all = textures(&[("sans", 31), ("pirate", 32)]);
    font_batches(&mut mgr, &all, 2_000_000);
    let batches = font_batches(&mut mgr, &all, 2_000_000);
    let e = batches[1].calls[0].effect;
    assert_eq!((e.timer_r, e.timer_g, e.timer_b, e.delta), (4_000_000, 4_000_000, 1_000_000, 2_000_000));
    assert_eq!(mgr.texts.get("cpu").unwrap().effect, e);
}

#[test]
fn font_without_a_loaded_atlas_is_passed_over() {
    let mut mgr = scene();
    let batches = font_batches(&mut mgr, &textures(&[("sans", 31)]), 500);
    assert_eq!(batches.len(), 1);
    assert_eq!(batches[0].tex_id, 31);
    assert_eq!(batches[0].calls.len(), 2);
    assert_eq!(mgr.texts.get("title").unwrap().effect.timer_r, 0);
    assert_eq!(mgr.texts.get("fps").unwrap().effect.timer_r, 500);
    let none = font_batches(&mut mgr, &textures(&[]), 500);
    assert_eq!(none.len(), 0);
    assert_eq!(mgr.texts.get("fps").unwrap().effect.timer_r, 500);
}

#[test]
fn disabled_labels_are_not_drawn() {
    let mut mgr = scene();
    mgr.disable_label("cpu");
    mgr.disable_label("title");
    let batches = font_batches(&mut mgr, &textures(&[("sans", 31), ("pirate", 32)]), 1);
    assert_eq!(batches.len(), 1);
    assert_eq!(batches[0].calls.len(), 1);
    assert_eq!(batches[0].calls[0].vao, 7);
    assert_eq!(mgr.texts.get("cpu").unwrap().effect.timer_r, 0);
}

#[test]
fn fonts_without_an_atlas_are_named() {
    let mut mgr = scene();
    assert_eq!(missing_atlases(&mgr, &textures(&[("sans", 31), ("pirate", 32)])), Vec::<String>::new());
    assert_eq!(missing_atlases(&mgr, &textures(&[("sans", 31)])), vec!["pirate".to_string()]);
    assert_eq!(missing_atlases(&mgr, &textures(&[])), vec!["pirate".to_string(), "sans".to_string()]);
    mgr.disable_label("title");
    assert_eq!(missing_atlases(&mgr, &textures(&[])), vec!["sans".to_string()]);
}
