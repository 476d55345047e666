use raumen_text::text::rtmc::{GuiTextVals, RTextMeshCreator};
use raumen_text::text::{RChar, RLine, RTextMesh, RWord};

const FONT: &str = "info face=\"Test\" size=59 bold=0 italic=0 charset=\"\" unicode=0 stretchH=100 smooth=1 aa=1 padding=8,8,8,8 spacing=0,0\n\
common lineHeight=84 base=54 scaleW=512 scaleH=512 pages=1 packed=0\n\
page id=0 file=\"Test.png\"\n\
chars count=4\n\
char id=32 x=0 y=0 width=0 height=0 xoffset=-5 yoffset=54 xadvance=31 page=0 chnl=0\n\
char id=65 x=10 y=10 width=20 height=20 xoffset=0 yoffset=0 xadvance=22 page=0 chnl=0\n\
char id=72 x=40 y=10 width=24 height=30 xoffset=1 yoffset=2 xadvance=26 page=0 chnl=0\n\
char id=105 x=70 y=10 width=8 height=28 xoffset=0 yoffset=4 xadvance=24 page=0 chnl=0\n";

const H_DEN: i128 = 6_800_000;
const ONE_X: i128 = 6_800_000_000;
const ONE_Y: i128 = 6_800_000;
const A_WIDTH: i128 = 18_000_000;
const SPACE: i128 = 45_000_000;

fn creator() -> RTextMeshCreator {
    RTextMeshCreator::new(1000, 1000, FONT).ok().unwrap()
}

fn vals(text: &str, font_size: u16, line_max_size: u32, is_centered: bool) -> GuiTextVals {
    GuiTextVals { text: text.to_string(), font_size, line_max_size, is_centered, num_of_lines: 0 }
}

fn glyph(x_advance: i128) -> RChar {
    RChar {
        id: 1,
        x_tex: 0,
        y_tex: 0,
        x_tex_max: 0,
        y_tex_max: 0,
        x_offset: 0,
        y_offset: 0,
        x_size: 0,
        y_size: 0,
        x_advance,
    }
}

fn word(advances: &[i128], font_size: u16) -> RWord {
    let mut w = RWord::new(font_size);
    for a in advances {
        let g = glyph(*a);
        w.add_char(Some(&g));
    }
    w
}

fn ids(line: &RLine) -> Vec<Vec<u32>> {
    line.words.iter().map(|w| w.chars.iter().map(|c| c.id).collect()).collect()
}

fn quad(x: i128, y: i128, x_max: i128, y_max: i128) -> Vec<i128> {
    vec![x, y, x, y_max, x_max, y_max, x_max, y_max, x_max, y, x, y]
}

#[test]
fn glyph_keeps_its_measures() {
    let c = RChar::new(7, 10, 20, 30, 40, 1, 2, 3, 4, 5);
    assert_eq!(
        c,
        RChar {
            id: 7,
            x_tex: 10,
            y_tex: 20,
            x_tex_max: 40,
            y_tex_max: 60,
            x_offset: 1,
            y_offset: 2,
            x_size: 3,
            y_size: 4,
            x_advance: 5,
        }
    );
}

#[test]
fn word_adds_up_advances_at_its_font_size() {
    let mut w = RWord::new(1500);
    assert_eq!((w.font_size, w.chars.len(), w.width), (1500, 0, 0));
    let a = glyph(10);
    let b = glyph(-4);
    w.add_char(Some(&a));
    assert_eq!(w.width, 15_000);
    w.add_char(None);
    assert_eq!((w.chars.len(), w.width), (1, 15_000));
    w.add_char(Some(&b));
    assert_eq!((w.chars.len(), w.width), (2, 9_000));
    assert_eq!(w.chars[1], b);
}

#[test]
fn line_takes_a_word_that_fits_exactly() {
    let mut line = RLine::new(3, 10, 100);
    assert_eq!((line.space_size, line.max_length, line.line_length), (30, 100, 0));
    let mut first = Some(word(&[4], 10));
    assert!(line.try_add_word(&mut first).is_none());
    assert!(first.is_none());
    assert_eq!((line.words.len(), line.line_length), (1, 40));
    let mut second = Some(word(&[3], 10));
    assert!(line.try_add_word(&mut second).is_none());
    assert_eq!((line.words.len(), line.line_length), (2, 100));
}

#[test]
fn line_hands_back_a_word_that_does_not_fit() {
    let mut line = RLine::new(3, 10, 99);
    let mut first = Some(word(&[4], 10));
    assert!(line.try_add_word(&mut first).is_none());
    let mut second = Some(word(&[3], 10));
    let back = line.try_add_word(&mut second).unwrap();
    assert!(second.is_none());
    assert_eq!((back.chars.len(), back.width), (1, 30));
    assert_eq!((line.words.len(), line.line_length), (1, 40));
    line.add_word(back);
    assert_eq!((line.words.len(), line.line_length), (2, 100));
}

#[test]
fn first_word_of_a_line_takes_no_space() {
    let mut line = RLine::new(50, 1, 10);
    let mut w = Some(word(&[10], 1));
    assert!(line.try_add_word(&mut w).is_none());
    assert_eq!(line.line_length, 10);
    let mut v = Some(word(&[11], 1));
    let mut fresh = RLine::new(50, 1, 10);
    assert!(fresh.try_add_word(&mut v).is_some());
    assert_eq!((fresh.words.len(), fresh.line_length), (0, 0));
}

#[test]
fn empty_text_makes_one_empty_line() {
    let c = creator();
    let lines = c.create_structure(&vals("", 1000, 1000, false));
    assert_eq!(lines.len(), 1);
    assert_eq!(lines[0].words.len(), 1);
    assert_eq!(lines[0].words[0].chars.len(), 0);
    assert_eq!(lines[0].line_length, 0);
    let mut v = vals("", 1000, 1000, true);
    let mesh = c.create_text_mesh(&mut v);
    assert_eq!(v.num_of_lines, 1);
    assert_eq!((mesh.verts.len(), mesh.tex_coords.len(), mesh.vert_count), (0, 0, 0));
}

#[test]
fn two_letters_make_one_line_of_one_word() {
    let c = creator();
    let lines = c.create_structure(&vals("Hi", 1000, 10_000, false));
    assert_eq!(lines.len(), 1);
    assert_eq!(ids(&lines[0]), vec![vec![72, 105]]);
    assert_eq!(lines[0].line_length, 54_000_000);
    assert_eq!(lines[0].max_length, 10_000 * H_DEN);
    assert_eq!(lines[0].space_size, SPACE);
    let mut v = vals("Hi", 1000, 10_000, false);
    let mesh = c.create_text_mesh(&mut v);
    assert_eq!(v.num_of_lines, 1);
    assert_eq!(mesh.verts.len(), 24);
    assert_eq!(mesh.tex_coords.len(), 24);
    assert_eq!(mesh.vert_count, 12);
}

#[test]
fn mesh_of_two_letters_holds_their_quads_in_reading_order() {
    let c = creator();
    let mut v = vals("Hi", 1000, 10_000, false);
    let mesh: RTextMesh = c.create_text_mesh(&mut v);
    assert_eq!((mesh.x_den as i128, mesh.y_den as i128, mesh.tex_den), (ONE_X, ONE_Y, 512));
    let h_x = 2 * 3000 * 1000 - ONE_X;
    let h_y = ONE_Y - 2 * 6 * 1000;
    let i_x = 2 * 30_000 * 1000 - ONE_X;
    let i_y = ONE_Y - 2 * 12 * 1000;
    let mut expected = quad(h_x, h_y, h_x + 2 * 72_000 * 1000, h_y - 2 * 90 * 1000);
    expected.extend(quad(i_x, i_y, i_x + 2 * 24_000 * 1000, i_y - 2 * 84 * 1000));
    assert_eq!(mesh.verts, expected);
    let mut tex = quad(40, 10, 64, 40);
    tex.extend(quad(70, 10, 78, 38));
    assert_eq!(mesh.tex_coords, tex);
    let left = mesh.verts[0] as f64 / mesh.x_den as f64;
    assert!((left - (2.0 * (1.0 * 0.03 / 68.0) - 1.0)).abs() < 1e-12);
    let top = mesh.verts[1] as f64 / mesh.y_den as f64;
    assert!((top - (1.0 - 2.0 * (2.0 * 0.03 / 68.0))).abs() < 1e-12);
}

#[test]
fn words_wrap_when_the_line_is_full() {
    let c = creator();
    let lines = c.create_structure(&vals("A A A", 1000, 12, false));
    assert_eq!(lines.len(), 2);
    assert_eq!(ids(&lines[0]), vec![vec![65], vec![65]]);
    assert_eq!(ids(&lines[1]), vec![vec![65]]);
    assert_eq!(lines[0].line_length, 2 * A_WIDTH + SPACE);
    assert_eq!(lines[1].line_length, A_WIDTH);
    for line in &lines {
        let sum: i128 = line.words.iter().map(|w| w.width).sum();
        assert!(sum + (line.words.len() as i128 - 1) * line.space_size <= line.max_length);
    }
    let wide = c.create_structure(&vals("A A A", 1000, 22, false));
    assert_eq!(wide.len(), 1);
    assert_eq!(wide[0].line_length, 3 * A_WIDTH + 2 * SPACE);
}

#[test]
fn word_longer_than_a_line_stands_alone() {
    let c = creator();
    let lines = c.create_structure(&vals("AAAA A", 1000, 3, false));
    assert_eq!(lines.len(), 3);
    assert_eq!(lines[0].words.len(), 0);
    assert_eq!(ids(&lines[1]), vec![vec![65, 65, 65, 65]]);
    assert_eq!(lines[1].line_length, 4 * A_WIDTH);
    assert!(lines[1].line_length > lines[1].max_length);
    assert_eq!(ids(&lines[2]), vec![vec![65]]);
}

#[test]
fn characters_without_a_glyph_are_passed_over() {
    let c = creator();
    let lines = c.create_structure(&vals("AzA\nH", 1000, 1000, false));
    assert_eq!(lines.len(), 1);
    assert_eq!(ids(&lines[0]), vec![vec![65, 65, 72]]);
}

#[test]
fn runs_of_spaces_make_empty_words() {
    let c = creator();
    let lines = c.create_structure(&vals(" A  A ", 1000, 1000, false));
    assert_eq!(lines.len(), 1);
    assert_eq!(ids(&lines[0]), vec![vec![], vec![65], vec![], vec![65], vec![]]);
    assert_eq!(lines[0].line_length, 2 * A_WIDTH + 4 * SPACE);
}

#[test]
fn font_size_scales_every_width() {
    let c = creator();
    let lines = c.create_structure(&vals("A A", 2500, 1000, false));
    assert_eq!(lines[0].space_size, SPACE / 1000 * 2500);
    assert_eq!(lines[0].line_length, (2 * 18_000 + 45_000) * 2500);
    assert_eq!(lines[0].words[0].font_size, 2500);
}

#[test]
fn lines_of_a_mesh_step_down_and_words_step_right() {
    let c = creator();
    let mut v = vals("A A A", 1000, 12, false);
    let mesh = c.create_text_mesh(&mut v);
    assert_eq!(v.num_of_lines, 2);
    assert_eq!(mesh.vert_count, 18);
    let step = 2 * 3 * 68 * 1000;
    let third = quad(-ONE_X, ONE_Y - step, -ONE_X + 120_000_000, ONE_Y - step - 120_000);
    let second_x = 2 * (A_WIDTH + SPACE) - ONE_X;
    let second = quad(second_x, ONE_Y, second_x + 120_000_000, ONE_Y - 120_000);
    let first = quad(-ONE_X, ONE_Y, -ONE_X + 120_000_000, ONE_Y - 120_000);
    let mut expected = first;
    expected.extend(second);
    expected.extend(third);
    assert_eq!(mesh.verts, expected);
}

#[test]
fn centred_lines_start_half_of_what_they_leave_free() {
    let c = creator();
    let mut v = vals("A A A", 1000, 12, true);
    let mesh = c.create_text_mesh(&mut v);
    let max = 12 * H_DEN;
    let start_first = max - (2 * A_WIDTH + SPACE);
    let start_second = max - A_WIDTH;
    assert_eq!(mesh.verts[0], start_first - ONE_X);
    assert_eq!(mesh.verts[12], start_first + 2 * (A_WIDTH + SPACE) - ONE_X);
    assert_eq!(mesh.verts[24], start_second - ONE_X);
    let x = mesh.verts[24] as f64 / mesh.x_den as f64;
    let free = 0.012 - 6.0 * (0.03 / 68.0);
    assert!((x - (2.0 * (free / 2.0) - 1.0)).abs() < 1e-12);
}

#[test]
fn same_input_gives_the_same_buffers() {
    let a = creator();
    let b = creator();
    let mut va = vals("Hi A AAAA i", 1300, 20, true);
    let mut vb = vals("Hi A AAAA i", 1300, 20, true);
    let ma = a.create_text_mesh(&mut va);
    let mb = b.create_text_mesh(&mut vb);
    assert_eq!(ma.verts, mb.verts);
    assert_eq!(ma.tex_coords, mb.tex_coords);
    assert_eq!(ma.vert_count, mb.vert_count);
    assert_eq!(va.num_of_lines, vb.num_of_lines);
    let again = a.create_text_mesh(&mut va);
    assert_eq!(ma.verts, again.verts);
}

#[test]
fn mesh_creator_follows_the_display() {
    let mut c = creator();
    assert_eq!(c.line_ht, 3 * 68);
    assert_eq!(c.space_ascii, 32);
    assert!(c.update_size(500, 1000));
    let lines = c.create_structure(&vals("A", 1000, 1000, false));
    assert_eq!(lines[0].line_length, 18_000_000);
    assert_eq!(lines[0].max_length, 1000 * 3_400_000);
    assert!(!c.update_size(0, 0));
    assert_eq!(c.metadata.display_width, 500);
}

#[test]
fn mesh_counts_its_vertices() {
    let mesh = RTextMesh::new(vec![1, 2, 3, 4, 5, 6], vec![7, 8, 9, 10, 11, 12], 10, 20, 30);
    assert_eq!(mesh.vert_count, 3);
    assert_eq!(mesh.verts, vec![1, 2, 3, 4, 5, 6]);
    assert_eq!(mesh.tex_coords, vec![7, 8, 9, 10, 11, 12]);
    assert_eq!((mesh.x_den, mesh.y_den, mesh.tex_den), (10, 20, 30));
}

#[test]
fn no_line_with_more_than_one_word_is_too_long() {
    let c = creator();
    let texts = ["", " ", "A", "Hi A Hi", "AAAA AAAA AAAA", "A  A   A", "i i i i i i i i i i", "HHHHHHHH A i HHHH"];
    for text in texts {
        for width in [0u32, 1, 3, 7, 12, 20, 50, 1000] {
            for size in [0u16, 500, 1000, 3000] {
                let lines = c.create_structure(&vals(text, size, width, false));
                assert!(lines.len() >= 1);
                for line in &lines {
                    let sum: i128 = line.words.iter().map(|w| w.width).sum();
                    let n = line.words.len() as i128;
                    if n == 0 {
                        assert_eq!(line.line_length, 0);
                        continue;
                    }
                    assert_eq!(line.line_length, sum + (n - 1) * line.space_size);
                    assert_eq!(line.max_length, width as i128 * H_DEN);
                    let alone = n == 1 && line.words[0].width > line.max_length;
                    if !alone {
                        assert!(line.line_length <= line.max_length);
                    }
                }
                let glyphs: usize = lines.iter().map(|l| l.words.iter().map(|w| w.chars.len()).sum::<usize>()).sum();
                let expected = text.bytes().filter(|b| [65u8, 72, 105].contains(b)).count();
                assert_eq!(glyphs, expected);
            }
        }
    }
}

#[test]
fn quads_stand_in_the_order_of_the_text() {
    let c = creator();
    let text = "Hi A  iH AAAA i";
    let mut v = vals(text, 1200, 15, true);
    let mesh = c.create_text_mesh(&mut v);
    let glyphs: Vec<RChar> = text.bytes().filter_map(|b| c.metadata.get(b as u32).copied()).collect();
    assert_eq!(mesh.tex_coords.len(), 12 * glyphs.len());
    assert_eq!(mesh.verts.len(), 12 * glyphs.len());
    for (j, g) in glyphs.iter().enumerate() {
        assert_eq!(mesh.tex_coords[12 * j..12 * j + 12], quad(g.x_tex, g.y_tex, g.x_tex_max, g.y_tex_max)[..]);
        let block = &mesh.verts[12 * j..12 * j + 12];
        assert_eq!(block[4] - block[0], 2 * g.x_size * 1200);
        assert_eq!(block[1] - block[3], 2 * g.y_size * 1200);
    }
}
