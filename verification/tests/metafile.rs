use raumen_text::text::metafile::{
    get_char, get_char_count, get_common, get_info, get_page, read_records, MetaError, MetaFile, Ratio,
};
use raumen_text::text::RChar;

const SAMPLE: &str = "info face=\"Test\" size=59 bold=0 italic=0 charset=\"\" unicode=0 stretchH=100 smooth=1 aa=1 padding=8,8,8,8 spacing=0,0\n\
common lineHeight=84 base=54 scaleW=512 scaleH=512 pages=1 packed=0\n\
page id=0 file=\"Test.png\"\n\
chars count=3\n\
char id=32   x=0     y=0     width=0     height=0     xoffset=-5     yoffset=54    xadvance=31     page=0  chnl=0 \n\
char id=65 x=10 y=10 width=20 height=20 xoffset=0 yoffset=0 xadvance=22 page=0 chnl=0\n\
char id=72 x=40 y=10 width=24 height=30 xoffset=1 yoffset=2 xadvance=26 page=0 chnl=0\n";

#[test]
fn info_record_is_read() {
    let line = b"info face=\"Times New Roman\" size=59 bold=0 italic=0 charset=\"\" unicode=0 stretchH=100 smooth=1 aa=1 padding=8,8,8,8 spacing=0,0";
    let info = get_info(line).unwrap();
    assert_eq!(info.face, b"Times New Roman".to_vec());
    assert_eq!(info.size, 59);
    assert_eq!(info.bold, 0);
    assert_eq!(info.italic, 0);
    assert_eq!(info.charset, Vec::<u8>::new());
    assert_eq!(info.unicode, 0);
    assert_eq!(info.stretch_h, 100);
    assert_eq!(info.smooth, 1);
    assert_eq!(info.aa, 1);
    assert_eq!(info.padding, vec![8, 8, 8, 8]);
    assert_eq!(info.spacing, vec![0, 0]);
}

#[test]
fn info_record_keeps_the_order_of_its_paddings() {
    let line = b"info face=\"F\" size=1 bold=2 italic=3 charset=\"c\" unicode=4 stretchH=5 smooth=6 aa=7 padding=1,2,3,4 spacing=5,6";
    let info = get_info(line).unwrap();
    assert_eq!(info.padding, vec![1, 2, 3, 4]);
    assert_eq!(info.spacing, vec![5, 6]);
    assert_eq!(info.charset, b"c".to_vec());
    assert_eq!((info.size, info.bold, info.italic), (1, 2, 3));
    assert_eq!((info.unicode, info.stretch_h, info.smooth, info.aa), (4, 5, 6, 7));
}

#[test]
fn info_record_without_closing_quote_is_refused() {
    assert!(get_info(b"info face=\"Times size=59").is_none());
}

#[test]
fn common_record_is_read() {
    let common = get_common(b"common lineHeight=84 base=54 scaleW=512 scaleH=512 pages=1 packed=0").unwrap();
    assert_eq!(common.line_height, 84);
    assert_eq!(common.base, 54);
    assert_eq!(common.scale_w, 512);
    assert_eq!(common.scale_h, 512);
    assert_eq!(common.pages, 1);
    assert_eq!(common.packed, 0);
}

#[test]
fn common_record_with_a_missing_field_is_refused() {
    assert!(get_common(b"common lineHeight=84 base=54 scaleW=512 pages=1 packed=0").is_none());
}

#[test]
fn number_that_does_not_fit_is_refused() {
    assert!(get_common(b"common lineHeight=4294967296 base=54 scaleW=512 scaleH=512 pages=1 packed=0").is_none());
    let c = get_common(b"common lineHeight=4294967295 base=0054 scaleW=512 scaleH=512 pages=1 packed=0").unwrap();
    assert_eq!(c.line_height, 4294967295);
    assert_eq!(c.base, 54);
}

#[test]
fn page_record_is_read() {
    let page = get_page(b"page id=0 file=\"TimesNewRoman.png\"").unwrap();
    assert_eq!(page.id, 0);
    assert_eq!(page.file, b"TimesNewRoman.png".to_vec());
}

#[test]
fn char_count_is_read() {
    assert_eq!(get_char_count(b"chars count=95"), Some(95));
    assert_eq!(get_char_count(b"chars count="), None);
}

#[test]
fn char_record_is_read() {
    let line = b"char id=32   x=0     y=0     width=0     height=0     xoffset=-5     yoffset=54    xadvance=31     page=0  chnl=0 ";
    let c = get_char(line).unwrap();
    assert_eq!(c.id, 32);
    assert_eq!((c.x, c.y, c.width, c.height), (0, 0, 0, 0));
    assert_eq!((c.xoffset, c.yoffset), (-5, 54));
    assert_eq!(c.xadvance, 31);
    assert_eq!((c.page, c.chnl), (0, 0));
}

#[test]
fn char_record_needs_no_blank_at_its_end() {
    let c = get_char(b"char id=65 x=10 y=10 width=20 height=20 xoffset=0 yoffset=0 xadvance=22 page=0 chnl=0").unwrap();
    assert_eq!(c.id, 65);
    assert_eq!((c.x, c.y, c.width, c.height), (10, 10, 20, 20));
    assert_eq!(c.xadvance, 22);
}

#[test]
fn char_record_takes_tabs_and_signs() {
    let c = get_char(b"char\tid=7 \t x=1 y=2 width=3 height=4 xoffset=+6 yoffset=-2147483648 xadvance=2147483647 page=1 chnl=15").unwrap();
    assert_eq!(c.id, 7);
    assert_eq!(c.xoffset, 6);
    assert_eq!(c.yoffset, -2147483648);
    assert_eq!(c.xadvance, 2147483647);
    assert_eq!((c.page, c.chnl), (1, 15));
}

#[test]
fn char_record_with_a_bad_number_is_refused() {
    assert!(get_char(b"char id=65 x=-1 y=10 width=20 height=20 xoffset=0 yoffset=0 xadvance=22 page=0 chnl=0").is_none());
    assert!(get_char(b"char id=65 x=1 y=10 width=20 height=20 xoffset=0.5 yoffset=0 xadvance=22 page=0 chnl=0").is_none());
    assert!(get_char(b"char id=65 x=1 y=10 width=20 height=20 xoffset=2147483648 yoffset=0 xadvance=22 page=0 chnl=0").is_none());
    assert!(get_char(b"char id=65 x=1 y=10 width=2147483648 height=20 xoffset=0 yoffset=0 xadvance=22 page=0 chnl=0").is_none());
    assert!(get_char(b"char id=x x=1 y=10 width=20 height=20 xoffset=0 yoffset=0 xadvance=22 page=0 chnl=0").is_none());
}

#[test]
fn records_of_a_description_are_read_in_order() {
    let rec = read_records(SAMPLE.as_bytes()).ok().unwrap();
    assert_eq!(rec.info.unwrap().face, b"Test".to_vec());
    assert_eq!(rec.common.unwrap().line_height, 84);
    assert_eq!(rec.page.unwrap().file, b"Test.png".to_vec());
    assert_eq!(rec.count, 3);
    let ids: Vec<u32> = rec.chars.iter().map(|c| c.id).collect();
    assert_eq!(ids, vec![32, 65, 72]);
}

#[test]
fn other_lines_are_passed_over() {
    let text = "\nkernings count=0\nchar\nin\n\ninfo\ncommon lineHeight=10 base=1 scaleW=2 scaleH=3 pages=4 packed=5";
    let rec = read_records(text.as_bytes()).ok().unwrap();
    assert!(rec.info.is_none());
    assert_eq!(rec.common.unwrap().scale_h, 3);
    assert_eq!(rec.chars.len(), 0);
}

#[test]
fn first_malformed_line_is_reported() {
    let text = "common lineHeight=10 base=1 scaleW=2 scaleH=3 pages=4 packed=5\nchar id=1\nchars count=\n";
    assert_eq!(read_records(text.as_bytes()).err(), Some(1));
    assert_eq!(read_records(b"page id=0 file=\"a.png").err(), Some(0));
}

#[test]
fn later_record_replaces_earlier_one() {
    let text = "chars count=1\nchars count=2\npage id=1 file=\"a\"\npage id=2 file=\"b\"";
    let rec = read_records(text.as_bytes()).ok().unwrap();
    assert_eq!(rec.count, 2);
    assert_eq!(rec.page.unwrap().id, 2);
}

fn table(width: u32, height: u32) -> MetaFile {
    MetaFile::new(width, height, SAMPLE).ok().unwrap()
}

#[test]
fn pixel_sizes_follow_line_height_and_aspect_ratio() {
    let m = table(1333, 1000);
    assert_eq!(m.padding, vec![8, 8, 8, 8]);
    assert_eq!(m.padding_width, 16);
    assert_eq!(m.padding_height, 16);
    assert_eq!(m.image_width, 512);
    assert_eq!(m.vertical_per_pixel_size, Ratio { num: 3, den: 6800 });
    assert_eq!(m.horizontal_per_pixel_size, Ratio { num: 3000, den: 9_064_400 });
    let vertical = m.vertical_per_pixel_size.num as f32 / m.vertical_per_pixel_size.den as f32;
    assert_eq!(vertical, 0.03_f32 / 68.0_f32);
    let horizontal = m.horizontal_per_pixel_size.num as f64 / m.horizontal_per_pixel_size.den as f64;
    assert!((horizontal - 0.03 / 68.0 / 1.333).abs() < 1e-15);
}

#[test]
fn glyph_of_a_letter_is_derived_from_its_record() {
    let m = table(1333, 1000);
    let a = *m.get(65).unwrap();
    assert_eq!(
        a,
        RChar {
            id: 65,
            x_tex: 10,
            y_tex: 10,
            x_tex_max: 30,
            y_tex_max: 30,
            x_offset: 0,
            y_offset: 0,
            x_size: 60_000,
            y_size: 60,
            x_advance: 18_000,
        }
    );
    let size = a.x_size as f64 / m.horizontal_per_pixel_size.den as f64;
    assert!((size - 20.0 * (0.03 / 68.0 / 1.333)).abs() < 1e-15);
    let h = *m.get(72).unwrap();
    assert_eq!((h.x_tex, h.y_tex, h.x_tex_max, h.y_tex_max), (40, 10, 64, 40));
    assert_eq!((h.x_offset, h.y_offset), (3000, 6));
    assert_eq!((h.x_size, h.y_size), (72_000, 90));
    assert_eq!(h.x_advance, 30_000);
}

#[test]
fn padding_beyond_the_desired_one_is_taken_off() {
    let text = "info face=\"F\" size=1 bold=0 italic=0 charset=\"\" unicode=0 stretchH=100 smooth=1 aa=1 padding=10,12,14,16 spacing=0,0\n\
common lineHeight=124 base=54 scaleW=256 scaleH=512 pages=1 packed=0\n\
char id=66 x=100 y=200 width=50 height=60 xoffset=-3 yoffset=7 xadvance=40 page=0 chnl=0\n";
    let m = MetaFile::new(2, 1, text).ok().unwrap();
    assert_eq!(m.padding_width, 28);
    assert_eq!(m.padding_height, 24);
    assert_eq!(m.vertical_per_pixel_size, Ratio { num: 3, den: 10_000 });
    assert_eq!(m.horizontal_per_pixel_size, Ratio { num: 3, den: 20_000 });
    let b = *m.get(66).unwrap();
    assert_eq!((b.x_tex, b.y_tex), (104, 202));
    assert_eq!((b.x_tex_max, b.y_tex_max), (104 + 38, 202 + 52));
    assert_eq!((b.x_size, b.y_size), (38 * 3, 52 * 3));
    assert_eq!((b.x_offset, b.y_offset), ((-3 + 4) * 3, (7 + 2) * 3));
    assert_eq!(b.x_advance, (40 - 28) * 3);
    assert_eq!(m.space_width, 3 * 100 * 2);
}

#[test]
fn space_has_a_width_and_no_glyph() {
    let m = table(640, 480);
    assert!(m.get(32).is_none());
    assert_eq!(m.space_width, (31 - 16) * 3 * 480);
    assert!(m.space_width > 0);
    assert!(m.get(66).is_none());
}

#[test]
fn later_char_record_replaces_earlier_one() {
    let text = format!("{}char id=65 x=1 y=2 width=3 height=4 xoffset=0 yoffset=0 xadvance=50 page=0 chnl=0\nchar id=32 x=0 y=0 width=0 height=0 xoffset=0 yoffset=0 xadvance=20 page=0 chnl=0\n", SAMPLE);
    let m = MetaFile::new(100, 100, &text).ok().unwrap();
    assert_eq!(m.get(65).unwrap().x_advance, (50 - 16) * 300);
    assert_eq!(m.space_width, (20 - 16) * 300);
    assert!(m.get(32).is_none());
}

#[test]
fn update_size_changes_horizontal_measures_only() {
    let mut m = table(1333, 1000);
    let before = *m.get(72).unwrap();
    assert!(m.update_size(800, 600));
    let after = *m.get(72).unwrap();
    assert_eq!(m.vertical_per_pixel_size, Ratio { num: 3, den: 6800 });
    assert_eq!(m.horizontal_per_pixel_size, Ratio { num: 1800, den: 6800 * 800 });
    assert_eq!((after.y_size, after.y_offset), (before.y_size, before.y_offset));
    assert_eq!((after.x_size, after.x_offset, after.x_advance), (24 * 1800, 1800, 26 * 1800 - 16 * 1800));
    assert_eq!(m.space_width, 15 * 1800);
    assert_eq!((m.display_width, m.display_height), (800, 600));
}

#[test]
fn update_size_twice_gives_the_same_glyphs() {
    let mut m = table(1333, 1000);
    assert!(m.update_size(1024, 768));
    let once: Vec<Option<RChar>> = (0..128).map(|c| m.get(c).copied()).collect();
    let space = m.space_width;
    assert!(m.update_size(1024, 768));
    let twice: Vec<Option<RChar>> = (0..128).map(|c| m.get(c).copied()).collect();
    assert_eq!(once, twice);
    assert_eq!(space, m.space_width);
    let fresh = table(1024, 768);
    let built: Vec<Option<RChar>> = (0..128).map(|c| fresh.get(c).copied()).collect();
    assert_eq!(once, built);
}

#[test]
fn update_size_refuses_an_empty_display() {
    let mut m = table(1333, 1000);
    assert!(!m.update_size(0, 600));
    assert!(!m.update_size(800, 0));
    assert_eq!((m.display_width, m.display_height), (1333, 1000));
    assert_eq!(m.get(65).unwrap().x_size, 60_000);
}

#[test]
fn errors_of_a_description() {
    let info = "info face=\"F\" size=1 bold=0 italic=0 charset=\"\" unicode=0 stretchH=100 smooth=1 aa=1 padding=8,8,8,8 spacing=0,0\n";
    let common = "common lineHeight=84 base=54 scaleW=512 scaleH=512 pages=1 packed=0\n";
    assert_eq!(MetaFile::new(4, 3, common).err(), Some(MetaError::MissingInfo));
    assert_eq!(MetaFile::new(4, 3, info).err(), Some(MetaError::MissingCommon));
    assert_eq!(MetaFile::new(4, 3, "").err(), Some(MetaError::MissingInfo));
    let low = format!("{}common lineHeight=16 base=54 scaleW=512 scaleH=512 pages=1 packed=0\n", info);
    assert_eq!(MetaFile::new(4, 3, &low).err(), Some(MetaError::LineHeight));
    let flat = format!("{}common lineHeight=84 base=54 scaleW=0 scaleH=512 pages=1 packed=0\n", info);
    assert_eq!(MetaFile::new(4, 3, &flat).err(), Some(MetaError::AtlasWidth));
    let good = format!("{}{}", info, common);
    assert_eq!(MetaFile::new(0, 3, &good).err(), Some(MetaError::Display));
    assert_eq!(MetaFile::new(4, 0, &good).err(), Some(MetaError::Display));
    assert!(MetaFile::new(4, 3, &good).is_ok());
    let bad = format!("{}{}char id=1 x=2\n", info, common);
    assert_eq!(MetaFile::new(4, 3, &bad).err(), Some(MetaError::Malformed { line: 2 }));
}

#[test]
fn space_is_as_wide_as_a_line_is_high_where_the_font_has_none() {
    let text = "info face=\"F\" size=1 bold=0 italic=0 charset=\"\" unicode=0 stretchH=100 smooth=1 aa=1 padding=8,8,8,8 spacing=0,0\n\
common lineHeight=84 base=54 scaleW=512 scaleH=512 pages=1 packed=0\n";
    let mut m = MetaFile::new(640, 480, text).ok().unwrap();
    assert_eq!(m.space_width, 3 * 68 * 640);
    assert_eq!(m.horizontal_per_pixel_size.den, 100 * 68 * 640);
    assert!(m.update_size(1000, 500));
    assert_eq!(m.space_width, 3 * 68 * 1000);
}
