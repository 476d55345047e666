//! Text labels: font metrics, line layout and quad meshes.
//!
//! All measures are exact integers. A horizontal measure is a numerator over
//! the horizontal denominator of the font it comes from, a vertical measure a
//! numerator over the vertical denominator, so that numerator divided by
//! denominator is the measure as a fraction of the display's width or
//! height. Font sizes and line widths are given in thousandths. Nothing is
//! rounded: what leaves the library, a mesh or a pixel size, carries its
//! denominators, and whoever needs fractions divides.

pub mod scan;
pub mod guitext;
pub mod textmgr;
pub mod metafile;
pub mod rtmc;

use vstd::prelude::*;
use vstd::string::StringSliceAdditionalSpecFns;
use crate::text::metafile::{MetaError, MetaFile};
use crate::text::rtmc::{GuiTextVals, RTextMeshCreator};

verus! {

/// The character code of the space, which separates words.
pub const SPACE_ASCII: u32 = 32;

/// The height of a line of text at font size one is
/// `LINE_HEIGHT_NUM / LINE_HEIGHT_DEN` of the display's height.
pub const LINE_HEIGHT_NUM: u32 = 3;

/// The denominator of the height of a line of text at font size one.
pub const LINE_HEIGHT_DEN: u32 = 100;

/// Font sizes and line widths are counted in units of `1 / SIZE_UNIT`.
pub const SIZE_UNIT: u32 = 1000;

/// No measure of a glyph exceeds this in magnitude.
pub const GLYPH_LIMIT: i128 = 0x10_0000_0000_0000_0000;

/// No measure of a glyph at a font size exceeds this in magnitude.
pub const MEASURE_LIMIT: i128 = 0x10_0000_0000_0000_0000_0000;

/// The largest number of glyphs and words that a line, or a whole layout, can
/// hold: with six vertices to a glyph, as many as a 32-bit vertex count
/// allows.
pub const MAX_WEIGHT: usize = 715_827_882;

/// The largest magnitude of a line's permitted length.
pub const LENGTH_LIMIT: i128 = 0x4_0000_0000_0000_0000_0000_0000_0000;

/// One glyph: its code, its rectangle in the atlas, and how it is placed and
/// advanced on the display.
///
/// The atlas rectangle is in pixels, corrected for padding; a pixel count
/// over the atlas' width is a texture coordinate. Horizontal offset, size
/// and advance are numerators over the font's horizontal denominator,
/// vertical offset and size over its vertical denominator.
#[derive(Clone, Copy, Debug, PartialEq, Eq, Structural)]
pub struct RChar {
    pub id: u32,
    pub x_tex: i128,
    pub y_tex: i128,
    pub x_tex_max: i128,
    pub y_tex_max: i128,
    pub x_offset: i128,
    pub y_offset: i128,
    pub x_size: i128,
    pub y_size: i128,
    pub x_advance: i128,
}

/// `v` lies within `limit` of zero.
pub open spec fn within(v: int, limit: int) -> bool {
    -limit <= v <= limit
}

impl RChar {
    /// Every measure of the glyph lies within `GLYPH_LIMIT` of zero.
    pub open spec fn bounded(self) -> bool {
        &&& within(self.x_tex as int, GLYPH_LIMIT as int)
        &&& within(self.y_tex as int, GLYPH_LIMIT as int)
        &&& within(self.x_tex_max as int, GLYPH_LIMIT as int)
        &&& within(self.y_tex_max as int, GLYPH_LIMIT as int)
        &&& within(self.x_offset as int, GLYPH_LIMIT as int)
        &&& within(self.y_offset as int, GLYPH_LIMIT as int)
        &&& within(self.x_size as int, GLYPH_LIMIT as int)
        &&& within(self.y_size as int, GLYPH_LIMIT as int)
        &&& within(self.x_advance as int, GLYPH_LIMIT as int)
    }

    /// A glyph from the corner and the extent of its atlas rectangle and its
    /// measures on the display.
    pub fn new(
        id: u32,
        x_tex: i128,
        y_tex: i128,
        x_tex_size: i128,
        y_tex_size: i128,
        x_offset: i128,
        y_offset: i128,
        x_size: i128,
        y_size: i128,
        x_advance: i128,
    ) -> (c: Self)
        requires
            i128::MIN <= x_tex + x_tex_size <= i128::MAX,
            i128::MIN <= y_tex + y_tex_size <= i128::MAX,
        ensures
            c == (RChar {
                id,
                x_tex,
                y_tex,
                x_tex_max: (x_tex_size + x_tex) as i128,
                y_tex_max: (y_tex_size + y_tex) as i128,
                x_offset,
                y_offset,
                x_size,
                y_size,
                x_advance,
            }),
    {
        RChar {
            id: id,
            x_tex: x_tex,
            y_tex: y_tex,
            x_tex_max: x_tex_size + x_tex,
            y_tex_max: y_tex_size + y_tex,
            x_offset: x_offset,
            y_offset: y_offset,
            x_size: x_size,
            y_size: y_size,
            x_advance: x_advance,
        }
    }
}

/// The sum of the advances of a run of glyphs.
pub open spec fn advance_sum(chars: Seq<RChar>) -> int
    decreases chars.len(),
{
    if chars.len() == 0 {
        0
    } else {
        advance_sum(chars.drop_last()) + chars.last().x_advance
    }
}

/// What a word holds: its glyphs in order and the font size it is set in.
pub struct WordModel {
    pub font_size: u16,
    pub chars: Seq<RChar>,
}

impl WordModel {
    /// The word's width: the advances of its glyphs at its font size.
    pub open spec fn width(self) -> int {
        advance_sum(self.chars) * self.font_size
    }

    /// What the word counts towards `MAX_WEIGHT`: its glyphs and itself.
    pub open spec fn weight(self) -> nat {
        self.chars.len() + 1
    }

    /// Every glyph of the word is bounded.
    pub open spec fn bounded(self) -> bool {
        forall|i: int| 0 <= i < self.chars.len() ==> (#[trigger] self.chars[i]).bounded()
    }

    /// The word with one more glyph at its end.
    pub open spec fn with_char(self, c: RChar) -> WordModel {
        WordModel { font_size: self.font_size, chars: self.chars.push(c) }
    }
}

/// The width of a bounded word is bounded by its number of glyphs.
pub proof fn lemma_word_width_bound(w: WordModel)
    requires
        w.bounded(),
    ensures
        within(w.width(), w.chars.len() * MEASURE_LIMIT),
    decreases w.chars.len(),
{
    let fs = w.font_size as int;
    if w.chars.len() == 0 {
        assert(advance_sum(w.chars) == 0);
    } else {
        let head = WordModel { font_size: w.font_size, chars: w.chars.drop_last() };
        assert forall|i: int| 0 <= i < head.chars.len() implies (#[trigger] head.chars[i]).bounded() by {
            assert(head.chars[i] == w.chars[i]);
        }
        lemma_word_width_bound(head);
        let a = w.chars.last().x_advance as int;
        assert(w.chars.last().bounded());
        let s = advance_sum(head.chars);
        assert(advance_sum(w.chars) == s + a);
        assert((s + a) * fs == s * fs + a * fs) by (nonlinear_arith);
        assert(within(a * fs, MEASURE_LIMIT as int)) by (nonlinear_arith)
            requires
                within(a, GLYPH_LIMIT as int),
                0 <= fs <= 0xffff,
        ;
        assert(w.chars.len() * MEASURE_LIMIT == head.chars.len() * MEASURE_LIMIT + MEASURE_LIMIT)
            by (nonlinear_arith)
            requires
                w.chars.len() == head.chars.len() + 1,
        ;
    }
}

/// A word: glyphs in order, with their total width at the word's font size.
pub struct RWord {
    pub font_size: u16,
    pub chars: Vec<RChar>,
    pub width: i128,
}

impl View for RWord {
    type V = WordModel;

    open spec fn view(&self) -> WordModel {
        WordModel { font_size: self.font_size, chars: self.chars@ }
    }
}

impl RWord {
    /// The glyphs are bounded, not too many, and `width` is their width.
    pub open spec fn wf(&self) -> bool {
        &&& self@.bounded()
        &&& self@.weight() <= MAX_WEIGHT
        &&& self.width == self@.width()
    }

    /// An empty word set in the font size `size`.
    pub fn new(size: u16) -> (w: Self)
        ensures
            w.wf(),
            w@ == (WordModel { font_size: size, chars: Seq::empty() }),
            w.width == 0,
    {
        let w = Self { font_size: size, chars: Vec::new(), width: 0 };
        assert(advance_sum(w.chars@) == 0);
        w
    }

    /// Appends a glyph to the word and adds its advance to the width. Without
    /// a glyph the word stays as it is.
    pub fn add_char(&mut self, char: Option<&RChar>)
        requires
            old(self).wf(),
            char matches Some(c) ==> c.bounded() && old(self)@.weight() < MAX_WEIGHT,
        ensures
            final(self).wf(),
            final(self)@ == match char {
                Some(c) => old(self)@.with_char(*c),
                None => old(self)@,
            },
    {
        if char.is_some() {
            let char = char.unwrap();
            let fs: i128 = self.font_size as i128;
            proof {
                lemma_word_width_bound(self@);
                lemma_word_width_bound(self@.with_char(*char));
                let s = advance_sum(self.chars@);
                let a = char.x_advance as int;
                assert(self@.with_char(*char).chars.drop_last() =~= self.chars@);
                assert((s + a) * fs == s * fs + a * fs) by (nonlinear_arith);
                assert(within(a * fs, MEASURE_LIMIT as int)) by (nonlinear_arith)
                    requires
                        within(a, GLYPH_LIMIT as int),
                        0 <= fs <= 0xffff,
                ;
                assert(self.chars@.len() * MEASURE_LIMIT <= MAX_WEIGHT * MEASURE_LIMIT)
                    by (nonlinear_arith)
                    requires
                        self.chars@.len() <= MAX_WEIGHT,
                ;
            }
            self.width += char.x_advance * fs;
            self.chars.push(*char);
        }
    }
}

/// The length of a run of words that are joined by spaces of width `space`.
pub open spec fn words_length(words: Seq<WordModel>, space: int) -> int
    decreases words.len(),
{
    if words.len() == 0 {
        0
    } else if words.len() == 1 {
        words[0].width()
    } else {
        words_length(words.drop_last(), space) + space + words.last().width()
    }
}

/// The sum of the widths of a run of words.
pub open spec fn width_sum(words: Seq<WordModel>) -> int
    decreases words.len(),
{
    if words.len() == 0 {
        0
    } else {
        width_sum(words.drop_last()) + words.last().width()
    }
}

/// The length of a run of words is the sum of their widths and one space
/// less than there are words.
pub proof fn lemma_length_is_sum(words: Seq<WordModel>, space: int)
    requires
        words.len() >= 1,
    ensures
        words_length(words, space) == width_sum(words) + (words.len() - 1) * space,
    decreases words.len(),
{
    if words.len() == 1 {
        assert(width_sum(words.drop_last()) == 0);
        assert(words.last() == words[0]);
    } else {
        lemma_length_is_sum(words.drop_last(), space);
        assert((words.len() - 1) * space == (words.len() - 2) * space + space) by (nonlinear_arith);
    }
}

/// What a run of words counts towards `MAX_WEIGHT`.
pub open spec fn words_weight(words: Seq<WordModel>) -> nat
    decreases words.len(),
{
    if words.len() == 0 {
        0
    } else {
        words_weight(words.drop_last()) + words.last().weight()
    }
}

/// What a line holds: its words in order, the length it may have and the
/// width of the space between two words.
pub struct LineModel {
    pub words: Seq<WordModel>,
    pub max_length: int,
    pub space_size: int,
}

impl LineModel {
    /// The line's length: the widths of its words and the spaces between
    /// them.
    pub open spec fn length(self) -> int {
        words_length(self.words, self.space_size)
    }

    /// What the line counts towards `MAX_WEIGHT`.
    pub open spec fn weight(self) -> nat {
        words_weight(self.words)
    }

    /// The line is no longer than it may be.
    pub open spec fn fits(self) -> bool {
        self.length() <= self.max_length
    }

    /// What the line grows by when `w` joins it: the word's width, and a
    /// space unless the word is the line's first.
    pub open spec fn growth(self, w: WordModel) -> int {
        if self.words.len() > 0 {
            w.width() + self.space_size
        } else {
            w.width()
        }
    }

    /// The word `w` can join the line without making it too long. A line
    /// that becomes exactly as long as it may be is accepted.
    pub open spec fn accepts(self, w: WordModel) -> bool {
        self.length() + self.growth(w) <= self.max_length
    }

    /// The line with `w` as its last word.
    pub open spec fn with_word(self, w: WordModel) -> LineModel {
        LineModel { words: self.words.push(w), max_length: self.max_length, space_size: self.space_size }
    }

    /// The line without its words.
    pub open spec fn cleared(self) -> LineModel {
        LineModel { words: Seq::empty(), max_length: self.max_length, space_size: self.space_size }
    }

    /// The glyphs of every word are bounded, and so is the space.
    pub open spec fn bounded(self) -> bool {
        &&& forall|i: int| 0 <= i < self.words.len() ==> (#[trigger] self.words[i]).bounded()
        &&& within(self.space_size, MEASURE_LIMIT as int)
    }
}

/// A word makes a line longer by what `growth` says.
pub proof fn lemma_length_with_word(line: LineModel, w: WordModel)
    ensures
        line.with_word(w).length() == line.length() + line.growth(w),
        line.with_word(w).weight() == line.weight() + w.weight(),
{
    let grown = line.with_word(w);
    assert(grown.words.drop_last() =~= line.words);
    assert(grown.words.last() == w);
    if line.words.len() == 0 {
        assert(grown.words[0] == w);
    }
}

/// The length of a bounded line is bounded by its weight.
pub proof fn lemma_line_length_bound(line: LineModel)
    requires
        line.bounded(),
    ensures
        within(line.length(), line.weight() * MEASURE_LIMIT),
    decreases line.words.len(),
{
    if line.words.len() == 0 {
    } else {
        let head = LineModel {
            words: line.words.drop_last(),
            max_length: line.max_length,
            space_size: line.space_size,
        };
        let w = line.words.last();
        assert forall|i: int| 0 <= i < head.words.len() implies (#[trigger] head.words[i]).bounded() by {
            assert(head.words[i] == line.words[i]);
        }
        lemma_line_length_bound(head);
        assert(w.bounded());
        lemma_word_width_bound(w);
        assert(head.with_word(w).words =~= line.words);
        lemma_length_with_word(head, w);
        assert(line.weight() * MEASURE_LIMIT == head.weight() * MEASURE_LIMIT + w.chars.len()
            * MEASURE_LIMIT + MEASURE_LIMIT) by (nonlinear_arith)
            requires
                line.weight() == head.weight() + w.chars.len() + 1,
        ;
        assert(0 <= head.weight() * MEASURE_LIMIT) by (nonlinear_arith);
    }
}

/// A line: words in order, with their total length, the length the line may
/// have and the width of a space.
pub struct RLine {
    pub words: Vec<RWord>,
    pub line_length: i128,
    pub max_length: i128,
    pub space_size: i128,
}

impl View for RLine {
    type V = LineModel;

    open spec fn view(&self) -> LineModel {
        LineModel {
            words: self.words@.map_values(|w: RWord| w@),
            max_length: self.max_length as int,
            space_size: self.space_size as int,
        }
    }
}

impl RLine {
    /// The words are well formed and not too heavy together, `line_length`
    /// is the line's length, and the space and the permitted length are
    /// within their limits.
    pub open spec fn wf(&self) -> bool {
        &&& forall|i: int| 0 <= i < self.words.len() ==> (#[trigger] self.words[i]).wf()
        &&& self.line_length == self@.length()
        &&& self@.weight() <= MAX_WEIGHT
        &&& within(self.space_size as int, MEASURE_LIMIT as int)
        &&& within(self.max_length as int, LENGTH_LIMIT as int)
    }

    /// A well formed line has a bounded model and a bounded length.
    pub proof fn lemma_wf_bounds(&self)
        requires
            self.wf(),
        ensures
            self@.bounded(),
            within(self.line_length as int, MAX_WEIGHT * MEASURE_LIMIT),
    {
        assert forall|i: int| 0 <= i < self@.words.len() implies (#[trigger] self@.words[i]).bounded() by {
            assert(self.words[i].wf());
        }
        lemma_line_length_bound(self@);
        assert(self@.weight() * MEASURE_LIMIT <= MAX_WEIGHT * MEASURE_LIMIT) by (nonlinear_arith)
            requires
                self@.weight() <= MAX_WEIGHT,
        ;
    }

    /// An empty line for words set in `font_size`, with spaces of
    /// `space_width` at font size one.
    pub fn new(space_width: i128, font_size: u16, max_length: i128) -> (line: Self)
        requires
            within(space_width as int, GLYPH_LIMIT as int),
            within(max_length as int, LENGTH_LIMIT as int),
        ensures
            line.wf(),
            line@ == (LineModel {
                words: Seq::empty(),
                max_length: max_length as int,
                space_size: space_width * font_size,
            }),
    {
        let fs: i128 = font_size as i128;
        assert(within(space_width * fs, MEASURE_LIMIT as int)) by (nonlinear_arith)
            requires
                within(space_width as int, GLYPH_LIMIT as int),
                0 <= fs <= 0xffff,
        ;
        let line = Self {
            words: Vec::new(),
            line_length: 0,
            max_length: max_length,
            space_size: space_width * fs,
        };
        assert(line@.words =~= Seq::empty());
        line
    }

    /// Puts `word` at the end of the line, whether the line then fits or
    /// not.
    pub fn add_word(&mut self, word: RWord)
        requires
            old(self).wf(),
            word.wf(),
            old(self)@.weight() + word@.weight() <= MAX_WEIGHT,
        ensures
            final(self).wf(),
            final(self)@ == old(self)@.with_word(word@),
    {
        proof {
            self.lemma_wf_bounds();
            lemma_word_width_bound(word@);
            lemma_length_with_word(self@, word@);
            assert(word@.chars.len() * MEASURE_LIMIT <= MAX_WEIGHT * MEASURE_LIMIT) by (nonlinear_arith)
                requires
                    word@.chars.len() <= MAX_WEIGHT,
            ;
        }
        let mut plus_length: i128 = word.width;
        if self.words.len() > 0 {
            plus_length += self.space_size;
        }
        let ghost before = self.words@;
        self.line_length += plus_length;
        self.words.push(word);
        proof {
            assert(self@.words =~= old(self)@.with_word(word@).words);
            assert forall|i: int| 0 <= i < self.words.len() implies (#[trigger] self.words[i]).wf() by {
                if i < before.len() {
                    assert(self.words[i] == before[i]);
                }
            }
        }
    }

    /// Takes the word out of `word` and puts it at the end of the line if
    /// the line accepts it. Otherwise the line stays as it is and the word
    /// comes back.
    pub fn try_add_word(&mut self, word: &mut Option<RWord>) -> (rest: Option<RWord>)
        requires
            old(self).wf(),
            *old(word) is Some,
            old(word)->0.wf(),
            old(self)@.weight() + old(word)->0@.weight() <= MAX_WEIGHT,
        ensures
            final(self).wf(),
            *final(word) is None,
            old(self)@.accepts(old(word)->0@) ==> rest is None && final(self)@ == old(self)@.with_word(
                old(word)->0@,
            ),
            !old(self)@.accepts(old(word)->0@) ==> rest == *old(word) && *final(self) == *old(self),
    {
        let word = word.take().unwrap();
        proof {
            self.lemma_wf_bounds();
            lemma_word_width_bound(word@);
            assert(word@.chars.len() * MEASURE_LIMIT <= MAX_WEIGHT * MEASURE_LIMIT) by (nonlinear_arith)
                requires
                    word@.chars.len() <= MAX_WEIGHT,
            ;
        }
        let mut plus_length: i128 = word.width;
        if self.words.len() > 0 {
            plus_length += self.space_size;
        }
        if self.line_length + plus_length <= self.max_length {
            self.add_word(word);
            None
        } else {
            Some(word)
        }
    }
}

/// A mesh of quads, two triangles to a glyph.
///
/// `verts` holds two coordinates to a vertex, in clip space: a horizontal
/// coordinate is a numerator over `x_den`, from minus one at the left edge
/// of the display to one at the right; a vertical one is a numerator over
/// `y_den`, from minus one at the bottom to one at the top. `tex_coords`
/// holds two atlas coordinates to a vertex, numerators over `tex_den`.
pub struct RTextMesh {
    pub verts: Vec<i128>,
    pub tex_coords: Vec<i128>,
    pub vert_count: u32,
    pub x_den: u128,
    pub y_den: u128,
    pub tex_den: u32,
}

impl RTextMesh {
    /// A mesh from its two buffers and their denominators. The number of
    /// vertices is half the number of coordinates.
    pub fn new(verts: Vec<i128>, tex_coords: Vec<i128>, x_den: u128, y_den: u128, tex_den: u32) -> (mesh: Self)
        requires
            verts.len() / 2 <= u32::MAX,
        ensures
            mesh.verts == verts,
            mesh.tex_coords == tex_coords,
            mesh.vert_count == verts.len() / 2,
            mesh.x_den == x_den,
            mesh.y_den == y_den,
            mesh.tex_den == tex_den,
    {
        let count = verts.len() / 2;
        Self { verts: verts, tex_coords: tex_coords, vert_count: count as u32, x_den, y_den, tex_den }
    }
}

/// A font: the name of its atlas and what builds the meshes of its labels.
pub struct RFontType {
    pub tex_atlas: String,
    pub rtmc: RTextMeshCreator,
}

impl RFontType {
    /// The font's mesh creator is well formed.
    pub open spec fn wf(&self) -> bool {
        self.rtmc.wf()
    }

    /// The font `font` as `source` describes it, on a display of the given
    /// dimensions.
    pub fn new(display_width: u32, display_height: u32, font: &str, source: &str) -> (r: Result<
        Self,
        MetaError,
    >)
        ensures
            match r {
                Ok(f) => {
                    &&& f.wf()
                    &&& f.tex_atlas@ == font@
                    &&& MetaFile::new_ok(display_width, display_height, source.spec_bytes(), f.rtmc.metadata)
                },
                Err(e) => MetaFile::new_err(display_width, display_height, source.spec_bytes(), e),
            },
    {
        match RTextMeshCreator::new(display_width, display_height, source) {
            Ok(rtmc) => Ok(Self { tex_atlas: font.to_owned(), rtmc }),
            Err(e) => Err(e),
        }
    }

    /// Lays a text out in this font and builds its mesh.
    pub fn load_text(&self, text: &mut GuiTextVals) -> (mesh: RTextMesh)
        requires
            self.wf(),
            rtmc::codes_of(old(text).text@).len() < MAX_WEIGHT,
        ensures
            final(text)@ == old(text)@,
            final(text).num_of_lines == self.rtmc.lines_of(old(text)@).len(),
            self.rtmc.is_mesh_of(old(text)@, mesh),
    {
        self.rtmc.create_text_mesh(text)
    }

    /// Adapts the font to a display of other dimensions.
    pub fn update_size(&mut self, display_width: u32, display_height: u32) -> (ok: bool)
        requires
            old(self).wf(),
        ensures
            ok == (display_width > 0 && display_height > 0),
            ok ==> final(self).wf() && final(self).rtmc.metadata@ == old(self).rtmc.metadata@.resized(
                display_width,
                display_height,
            ) && final(self).rtmc.metadata.records() == old(self).rtmc.metadata.records()
                && final(self).tex_atlas == old(self).tex_atlas,
            !ok ==> *final(self) == *old(self),
    {
        self.rtmc.update_size(display_width, display_height)
    }
}

/// A point or an offset on the display, in thousandths of the display's
/// width and height.
#[derive(Clone, Copy, Debug, PartialEq, Eq, Structural)]
pub struct Vector2 {
    pub x: i32,
    pub y: i32,
}

/// A colour, each channel in thousandths.
#[derive(Clone, Copy, Debug, PartialEq, Eq, Structural)]
pub struct Colour {
    pub r: u16,
    pub g: u16,
    pub b: u16,
}

/// How the glyphs of a label are drawn from the distance field: fill and
/// border colour, the width and the edge of the fill and of the border, in
/// thousandths, and three timers, in microseconds, that drive the border
/// colour.
#[derive(Clone, Copy, Debug, PartialEq, Eq, Structural)]
pub struct RFontEffect {
    pub offset: Vector2,
    pub colour: Colour,
    pub colour_border: Colour,
    pub width: u16,
    pub edge: u16,
    pub width_border: u16,
    pub edge_border: u16,
    pub delta: u64,
    pub timer_r: u64,
    pub timer_g: u64,
    pub timer_b: u64,
    pub max_r: u64,
    pub max_g: u64,
    pub max_b: u64,
}

impl RFontEffect {
    /// Every timer has a period, and has not run past it.
    pub open spec fn wf(&self) -> bool {
        &&& self.timer_r < self.max_r
        &&& self.timer_g < self.max_g
        &&& self.timer_b < self.max_b
    }

    /// The effect that a label starts with: black glyphs with a white
    /// border, and timers at zero with periods of seven, five and three
    /// seconds.
    pub open spec fn initial() -> RFontEffect {
        RFontEffect {
            offset: Vector2 { x: 0, y: 0 },
            colour: Colour { r: 0, g: 0, b: 0 },
            colour_border: Colour { r: 1000, g: 1000, b: 1000 },
            width: 500,
            edge: 50,
            width_border: 400,
            edge_border: 300,
            delta: 0,
            timer_r: 0,
            timer_g: 0,
            timer_b: 0,
            max_r: 7_000_000,
            max_g: 5_000_000,
            max_b: 3_000_000,
        }
    }

    /// The effect after `delta` more microseconds: every timer has
    /// advanced by `delta`, and started over whenever it reached its
    /// period.
    pub open spec fn animated(self, delta: u64) -> RFontEffect {
        RFontEffect {
            delta,
            timer_r: ((self.timer_r + delta) % (self.max_r as int)) as u64,
            timer_g: ((self.timer_g + delta) % (self.max_g as int)) as u64,
            timer_b: ((self.timer_b + delta) % (self.max_b as int)) as u64,
            ..self
        }
    }

    /// The effect that a label starts with.
    pub fn new() -> (e: Self)
        ensures
            e.wf(),
            e == Self::initial(),
    {
        Self {
            offset: Vector2 { x: 0, y: 0 },
            colour: Colour { r: 0, g: 0, b: 0 },
            colour_border: Colour { r: 1000, g: 1000, b: 1000 },
            width: 500,
            edge: 50,
            width_border: 400,
            edge_border: 300,
            delta: 0,
            timer_r: 0,
            timer_g: 0,
            timer_b: 0,
            max_r: 7_000_000,
            max_g: 5_000_000,
            max_b: 3_000_000,
        }
    }

    /// Advances the three timers by `delta` microseconds. A timer that
    /// reaches its period starts over.
    pub fn anim_timer(&mut self, delta: u64)
        requires
            old(self).wf(),
        ensures
            final(self).wf(),
            *final(self) == old(self).animated(delta),
    {
        self.delta = delta;
        self.timer_r = ((self.timer_r as u128 + delta as u128) % (self.max_r as u128)) as u64;
        self.timer_g = ((self.timer_g as u128 + delta as u128) % (self.max_g as u128)) as u64;
        self.timer_b = ((self.timer_b as u128 + delta as u128) % (self.max_b as u128)) as u64;
    }
}

} // verus!
