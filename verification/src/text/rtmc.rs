//! From a text to lines of words, and from lines to a mesh of quads.

use vstd::prelude::*;
use vstd::string::StringSliceAdditionalSpecFns;
use vstd::utf8::encode_utf8;
use crate::text::metafile::{MetaError, MetaFile};
use crate::text::scan::{lemma_split_nonempty, lemma_split_step, split};
use crate::text::{
    advance_sum, lemma_length_is_sum, lemma_length_with_word, lemma_word_width_bound, width_sum,
    within, words_weight, LineModel, RChar, RLine, RTextMesh, RWord, WordModel, GLYPH_LIMIT, LENGTH_LIMIT,
    MAX_WEIGHT, MEASURE_LIMIT, SIZE_UNIT, SPACE_ASCII,
};

verus! {

/// What of a label the layout reads, and the number of lines it reports.
pub struct GuiTextVals {
    pub text: String,
    pub font_size: u16,
    pub line_max_size: u32,
    pub is_centered: bool,
    pub num_of_lines: u32,
}

/// What determines the lines and the mesh of a label: the text, the font
/// size and the width of a line, both in thousandths, and whether lines are
/// centred.
pub struct TextModel {
    pub text: Seq<char>,
    pub font_size: u16,
    pub line_max_size: u32,
    pub is_centered: bool,
}

impl View for GuiTextVals {
    type V = TextModel;

    open spec fn view(&self) -> TextModel {
        TextModel {
            text: self.text@,
            font_size: self.font_size,
            line_max_size: self.line_max_size,
            is_centered: self.is_centered,
        }
    }
}

/// The character codes of a text: its bytes.
pub open spec fn codes_of(text: Seq<char>) -> Seq<u8> {
    encode_utf8(text)
}

/// The glyphs of a run of character codes. A code without a glyph is
/// passed over.
pub open spec fn glyphs_of(codes: Seq<u8>, table: Map<u32, RChar>) -> Seq<RChar>
    decreases codes.len(),
{
    if codes.len() == 0 {
        Seq::empty()
    } else if table.contains_key(codes.last() as u32) {
        glyphs_of(codes.drop_last(), table).push(table[codes.last() as u32])
    } else {
        glyphs_of(codes.drop_last(), table)
    }
}

/// The word that a run of character codes makes.
pub open spec fn word_of(codes: Seq<u8>, table: Map<u32, RChar>, font_size: u16) -> WordModel {
    WordModel { font_size, chars: glyphs_of(codes, table) }
}

/// Lines in the making: those that are finished, and the one that words
/// still go to.
pub struct WrapState {
    pub done: Seq<LineModel>,
    pub current: LineModel,
}

/// Places a word. It goes to the current line if that accepts it. Otherwise
/// the current line is finished and the word starts a new one, whether it
/// fits there or not.
pub open spec fn place_word(st: WrapState, w: WordModel) -> WrapState {
    if st.current.accepts(w) {
        WrapState { done: st.done, current: st.current.with_word(w) }
    } else {
        WrapState { done: st.done.push(st.current), current: st.current.cleared().with_word(w) }
    }
}

/// The lines after the first `n` of the `words` were placed, one after the
/// other, starting from the empty line `empty`.
pub open spec fn wrap_upto(
    words: Seq<Seq<u8>>,
    n: int,
    table: Map<u32, RChar>,
    font_size: u16,
    empty: LineModel,
) -> WrapState
    decreases n,
{
    if n <= 0 {
        WrapState { done: Seq::empty(), current: empty }
    } else {
        place_word(wrap_upto(words, n - 1, table, font_size, empty), word_of(words[n - 1], table, font_size))
    }
}

/// The lines of a text: the text is cut into words at its spaces, each word
/// becomes its glyphs, and the words are placed in order. The line that is
/// current at the end is the last line.
pub open spec fn layout(
    codes: Seq<u8>,
    table: Map<u32, RChar>,
    font_size: u16,
    space_size: int,
    max_length: int,
) -> Seq<LineModel> {
    let words = split(codes, SPACE_ASCII as u8);
    let empty = LineModel { words: Seq::empty(), max_length, space_size };
    let st = wrap_upto(words, words.len() as int, table, font_size, empty);
    st.done.push(st.current)
}

/// Placing words depends only on the words that are placed.
pub proof fn lemma_wrap_agrees(
    a: Seq<Seq<u8>>,
    b: Seq<Seq<u8>>,
    n: int,
    table: Map<u32, RChar>,
    font_size: u16,
    empty: LineModel,
)
    requires
        n <= a.len(),
        n <= b.len(),
        forall|j: int| 0 <= j < n ==> a[j] == b[j],
    ensures
        wrap_upto(a, n, table, font_size, empty) == wrap_upto(b, n, table, font_size, empty),
    decreases n,
{
    if n > 0 {
        lemma_wrap_agrees(a, b, n - 1, table, font_size, empty);
    }
}

/// The line holds what greedy placing can leave on a line: with two words
/// or more it fits, and with one word it fits unless that word alone is
/// longer than a line may be.
pub open spec fn placed_greedily(line: LineModel) -> bool {
    &&& line.words.len() >= 2 ==> line.fits()
    &&& line.words.len() == 1 ==> line.fits() || line.words[0].width() > line.max_length
}

/// Every finished line and the current line were placed greedily, and all
/// of them may be as long, and have as wide a space, as the empty line that
/// placing started from.
pub open spec fn wrap_inv(st: WrapState, empty: LineModel) -> bool {
    &&& placed_greedily(st.current)
    &&& st.current.cleared() == empty
    &&& forall|i: int|
        0 <= i < st.done.len() ==> placed_greedily(#[trigger] st.done[i]) && st.done[i].cleared() == empty
}

/// Placing words keeps every line placed greedily.
pub proof fn lemma_wrap_inv(
    words: Seq<Seq<u8>>,
    n: int,
    table: Map<u32, RChar>,
    font_size: u16,
    empty: LineModel,
)
    requires
        empty.words.len() == 0,
        n <= words.len(),
    ensures
        wrap_inv(wrap_upto(words, n, table, font_size, empty), empty),
    decreases n,
{
    if n > 0 {
        lemma_wrap_inv(words, n - 1, table, font_size, empty);
        let st = wrap_upto(words, n - 1, table, font_size, empty);
        let w = word_of(words[n - 1], table, font_size);
        let after = place_word(st, w);
        if st.current.accepts(w) {
            lemma_length_with_word(st.current, w);
            assert(after.current.cleared() == empty);
        } else {
            lemma_length_with_word(st.current.cleared(), w);
            assert(after.current.words[0] == w);
            assert(after.current.cleared() == empty);
            assert forall|i: int| 0 <= i < after.done.len() implies placed_greedily(#[trigger] after.done[i])
                && after.done[i].cleared() == empty by {
                if i < st.done.len() {
                    assert(after.done[i] == st.done[i]);
                }
            }
        }
    } else {
        assert(empty.cleared().words =~= empty.words);
    }
}

/// No line of a layout is longer than it may be, except a line that holds
/// a single word which alone is longer than that: of every other line that
/// holds a word, the widths of the words and the spaces between them add
/// up to no more than the permitted length. Every line may be as long as
/// the layout was asked for.
pub proof fn lemma_layout_lines_fit(
    codes: Seq<u8>,
    table: Map<u32, RChar>,
    font_size: u16,
    space_size: int,
    max_length: int,
)
    ensures
        forall|i: int|
            #![trigger layout(codes, table, font_size, space_size, max_length)[i]]
            0 <= i < layout(codes, table, font_size, space_size, max_length).len() ==> {
                let line = layout(codes, table, font_size, space_size, max_length)[i];
                &&& line.max_length == max_length
                &&& line.space_size == space_size
                &&& line.words.len() >= 1 && !(line.words.len() == 1 && line.words[0].width() > max_length)
                    ==> width_sum(line.words) + (line.words.len() - 1) * space_size <= max_length
            },
{
    let words = split(codes, SPACE_ASCII as u8);
    let empty = LineModel { words: Seq::empty(), max_length, space_size };
    lemma_wrap_inv(words, words.len() as int, table, font_size, empty);
    let lines = layout(codes, table, font_size, space_size, max_length);
    assert forall|i: int| 0 <= i < lines.len() implies {
        let line = #[trigger] lines[i];
        &&& line.max_length == max_length
        &&& line.space_size == space_size
        &&& line.words.len() >= 1 && !(line.words.len() == 1 && line.words[0].width() > max_length)
            ==> width_sum(line.words) + (line.words.len() - 1) * space_size <= max_length
    } by {
        let line = lines[i];
        assert(placed_greedily(line) && line.cleared() == empty);
        if line.words.len() >= 1 {
            lemma_length_is_sum(line.words, space_size);
        }
    }
}

/// The layout of the empty text, where a line may not be shorter than
/// nothing, is exactly one line, and that line holds one word without a
/// glyph and has no length.
pub proof fn lemma_layout_of_nothing(table: Map<u32, RChar>, font_size: u16, space_size: int, max_length: int)
    requires
        max_length >= 0,
    ensures
        layout(Seq::empty(), table, font_size, space_size, max_length) == seq![
            LineModel {
                words: seq![WordModel { font_size, chars: Seq::empty() }],
                max_length,
                space_size,
            },
        ],
        layout(Seq::empty(), table, font_size, space_size, max_length)[0].length() == 0,
{
    let words = split(Seq::<u8>::empty(), SPACE_ASCII as u8);
    let empty = LineModel { words: Seq::empty(), max_length, space_size };
    let w = word_of(Seq::<u8>::empty(), table, font_size);
    assert(words =~= seq![Seq::<u8>::empty()]);
    assert(wrap_upto(words, 0, table, font_size, empty) == (WrapState { done: Seq::empty(), current: empty }));
    assert(wrap_upto(words, 1, table, font_size, empty) == place_word(
        wrap_upto(words, 0, table, font_size, empty),
        w,
    ));
    assert(advance_sum(w.chars) == 0);
    assert(w.width() == 0) by (nonlinear_arith)
        requires
            w.width() == advance_sum(w.chars) * font_size,
            advance_sum(w.chars) == 0,
    ;
    assert(empty.accepts(w));
    lemma_length_with_word(empty, w);
    let line = empty.with_word(w);
    assert(line.words =~= seq![w]);
    assert(layout(Seq::empty(), table, font_size, space_size, max_length) =~= seq![line]);
}

/// The character codes of a text without the spaces.
pub open spec fn without_spaces(codes: Seq<u8>) -> Seq<u8>
    decreases codes.len(),
{
    if codes.len() == 0 {
        Seq::empty()
    } else if codes.last() == SPACE_ASCII as u8 {
        without_spaces(codes.drop_last())
    } else {
        without_spaces(codes.drop_last()).push(codes.last())
    }
}

/// The glyphs of the first `n` of the `words`, one word after the other.
pub open spec fn words_glyphs(words: Seq<Seq<u8>>, n: int, table: Map<u32, RChar>) -> Seq<RChar>
    decreases n,
{
    if n <= 0 {
        Seq::empty()
    } else {
        words_glyphs(words, n - 1, table) + glyphs_of(words[n - 1], table)
    }
}

/// The glyphs of a line, one word after the other.
pub open spec fn line_glyphs(words: Seq<WordModel>) -> Seq<RChar>
    decreases words.len(),
{
    if words.len() == 0 {
        Seq::empty()
    } else {
        line_glyphs(words.drop_last()) + words.last().chars
    }
}

/// The glyphs of a run of lines, one line after the other.
pub open spec fn lines_glyphs(lines: Seq<LineModel>) -> Seq<RChar>
    decreases lines.len(),
{
    if lines.len() == 0 {
        Seq::empty()
    } else {
        lines_glyphs(lines.drop_last()) + line_glyphs(lines.last().words)
    }
}

/// The glyphs of a run of codes and of one more code.
pub proof fn lemma_glyphs_of_push(codes: Seq<u8>, c: u8, table: Map<u32, RChar>)
    ensures
        glyphs_of(codes.push(c), table) == if table.contains_key(c as u32) {
            glyphs_of(codes, table).push(table[c as u32])
        } else {
            glyphs_of(codes, table)
        },
{
    assert(codes.push(c).drop_last() =~= codes);
}

/// The glyphs of the words of a text are the glyphs of the text without
/// its spaces.
pub proof fn lemma_words_keep_glyphs(codes: Seq<u8>, table: Map<u32, RChar>)
    ensures
        words_glyphs(
            split(codes, SPACE_ASCII as u8),
            split(codes, SPACE_ASCII as u8).len() as int,
            table,
        ) == glyphs_of(without_spaces(codes), table),
    decreases codes.len(),
{
    let sep = SPACE_ASCII as u8;
    let words = split(codes, sep);
    lemma_split_nonempty(codes, sep);
    if codes.len() == 0 {
        assert(words_glyphs(words, 0, table) =~= Seq::<RChar>::empty());
        assert(words_glyphs(words, 1, table) =~= glyphs_of(words[0], table));
    } else {
        let head = codes.drop_last();
        let before = split(head, sep);
        lemma_split_nonempty(head, sep);
        lemma_words_keep_glyphs(head, table);
        let n = before.len() as int;
        if codes.last() == sep {
            lemma_words_glyphs_agree(words, before, n, table);
            assert(glyphs_of(words[n], table) =~= Seq::<RChar>::empty());
            assert(words_glyphs(words, n + 1, table) =~= words_glyphs(before, n, table));
        } else {
            lemma_words_glyphs_agree(words, before, n - 1, table);
            lemma_glyphs_of_push(before.last(), codes.last(), table);
            lemma_glyphs_of_push(without_spaces(head), codes.last(), table);
            assert(words[n - 1] == before.last().push(codes.last()));
            assert(words_glyphs(words, n, table) =~= glyphs_of(without_spaces(codes), table));
        }
    }
}

/// The glyphs of words depend only on the words.
pub proof fn lemma_words_glyphs_agree(a: Seq<Seq<u8>>, b: Seq<Seq<u8>>, n: int, table: Map<u32, RChar>)
    requires
        n <= a.len(),
        n <= b.len(),
        forall|j: int| 0 <= j < n ==> a[j] == b[j],
    ensures
        words_glyphs(a, n, table) == words_glyphs(b, n, table),
    decreases n,
{
    if n > 0 {
        lemma_words_glyphs_agree(a, b, n - 1, table);
    }
}

/// A word at the end of a line adds its glyphs to the glyphs of the line.
pub proof fn lemma_line_glyphs_with_word(line: LineModel, w: WordModel)
    ensures
        line_glyphs(line.with_word(w).words) == line_glyphs(line.words) + w.chars,
{
    assert(line.with_word(w).words.drop_last() =~= line.words);
}

/// Placing words keeps their glyphs: the finished lines and the current
/// line hold the glyphs of the words that were placed, in their order.
pub proof fn lemma_wrap_keeps_glyphs(
    words: Seq<Seq<u8>>,
    n: int,
    table: Map<u32, RChar>,
    font_size: u16,
    empty: LineModel,
)
    requires
        empty.words.len() == 0,
        n <= words.len(),
    ensures
        lines_glyphs(wrap_upto(words, n, table, font_size, empty).done) + line_glyphs(
            wrap_upto(words, n, table, font_size, empty).current.words,
        ) == words_glyphs(words, n, table),
    decreases n,
{
    if n > 0 {
        lemma_wrap_keeps_glyphs(words, n - 1, table, font_size, empty);
        let st = wrap_upto(words, n - 1, table, font_size, empty);
        let w = word_of(words[n - 1], table, font_size);
        let after = place_word(st, w);
        if st.current.accepts(w) {
            lemma_line_glyphs_with_word(st.current, w);
            assert(lines_glyphs(after.done) + line_glyphs(after.current.words) =~= words_glyphs(
                words,
                n,
                table,
            ));
        } else {
            lemma_line_glyphs_with_word(st.current.cleared(), w);
            assert(after.done.drop_last() =~= st.done);
            assert(line_glyphs(st.current.cleared().words) =~= Seq::<RChar>::empty());
            assert(lines_glyphs(after.done) + line_glyphs(after.current.words) =~= words_glyphs(
                words,
                n,
                table,
            ));
        }
    } else {
        assert(lines_glyphs(Seq::<LineModel>::empty()) + line_glyphs(empty.words) =~= Seq::<RChar>::empty());
    }
}

/// A layout holds every glyph of its text once and in the order of the
/// text: the glyphs of its lines, one line after the other, are the glyphs
/// of the text without its spaces.
pub proof fn lemma_layout_keeps_glyphs(
    codes: Seq<u8>,
    table: Map<u32, RChar>,
    font_size: u16,
    space_size: int,
    max_length: int,
)
    ensures
        lines_glyphs(layout(codes, table, font_size, space_size, max_length)) == glyphs_of(
            without_spaces(codes),
            table,
        ),
{
    let words = split(codes, SPACE_ASCII as u8);
    let empty = LineModel { words: Seq::empty(), max_length, space_size };
    lemma_wrap_keeps_glyphs(words, words.len() as int, table, font_size, empty);
    lemma_words_keep_glyphs(codes, table);
    let st = wrap_upto(words, words.len() as int, table, font_size, empty);
    assert(st.done.push(st.current).drop_last() =~= st.done);
}

/// What a run of lines counts towards `MAX_WEIGHT`.
pub open spec fn lines_weight(lines: Seq<LineModel>) -> nat
    decreases lines.len(),
{
    if lines.len() == 0 {
        0
    } else {
        lines_weight(lines.drop_last()) + lines.last().weight()
    }
}

/// The line is as a layout for lines of the length `max_length`, with spaces
/// of the width `space_size`, leaves it: its length is the widths of its
/// words and the spaces between them, nothing for a line without words, and
/// unless it holds a single word that alone is longer than a line may be,
/// it is no longer than that.
pub open spec fn fits_request(line: RLine, max_length: int, space_size: int) -> bool {
    &&& line.max_length == max_length
    &&& line.space_size == space_size
    &&& line.words.len() == 0 ==> line.line_length == 0
    &&& line.words.len() >= 1 ==> line.line_length == width_sum(line@.words) + (line.words.len() - 1)
        * space_size
    &&& line.words.len() >= 1 && !(line.words.len() == 1 && line.words[0].width > max_length)
        ==> line.line_length <= max_length
}

/// The lines of a run of lines, as mathematical values.
pub open spec fn lines_model(lines: Seq<RLine>) -> Seq<LineModel> {
    lines.map_values(|l: RLine| l@)
}

/// No cursor position exceeds this in magnitude.
pub const CURSOR_LIMIT: i128 = 0x20_0000_0000_0000_0000_0000_0000_0000;

/// A glyph and where the cursor stood when the glyph was set. Both
/// coordinates of the cursor are doubled: a line that is centred starts half
/// of what it leaves free to the right of the left edge.
pub struct Placed {
    pub glyph: RChar,
    pub x2: int,
    pub y2: int,
}

/// The glyphs of a word, set one after the other from the cursor
/// `(x2, y2)`: each glyph moves the cursor to the right by its advance.
pub open spec fn word_placed(chars: Seq<RChar>, font_size: int, x2: int, y2: int) -> Seq<Placed>
    decreases chars.len(),
{
    if chars.len() == 0 {
        Seq::empty()
    } else {
        word_placed(chars.drop_last(), font_size, x2, y2).push(
            Placed { glyph: chars.last(), x2: x2 + 2 * (advance_sum(chars.drop_last()) * font_size), y2 },
        )
    }
}

/// How far a run of words moves the doubled cursor: each word by its
/// glyphs' advances and by the space behind it.
pub open spec fn line_advance(words: Seq<WordModel>, font_size: int, space2: int) -> int
    decreases words.len(),
{
    if words.len() == 0 {
        0
    } else {
        line_advance(words.drop_last(), font_size, space2) + 2 * (advance_sum(words.last().chars) * font_size)
            + space2
    }
}

/// The glyphs of the words of a line, set one word after the other from the
/// cursor `(x2, y2)`.
pub open spec fn line_placed(words: Seq<WordModel>, font_size: int, space2: int, x2: int, y2: int) -> Seq<
    Placed,
>
    decreases words.len(),
{
    if words.len() == 0 {
        Seq::empty()
    } else {
        line_placed(words.drop_last(), font_size, space2, x2, y2) + word_placed(
            words.last().chars,
            font_size,
            x2 + line_advance(words.drop_last(), font_size, space2),
            y2,
        )
    }
}

/// Where the doubled cursor starts on a line: at the left edge, or, where
/// lines are centred, so far to the right that the line leaves as much free
/// on its left as on its right.
pub open spec fn line_start(line: LineModel, centered: bool) -> int {
    if centered {
        line.max_length - line.length()
    } else {
        0
    }
}

/// The glyphs of a run of lines, each line set `step2` below the one
/// before, in doubled measure.
pub open spec fn lines_placed(
    lines: Seq<LineModel>,
    font_size: int,
    space2: int,
    centered: bool,
    step2: int,
) -> Seq<Placed>
    decreases lines.len(),
{
    if lines.len() == 0 {
        Seq::empty()
    } else {
        lines_placed(lines.drop_last(), font_size, space2, centered, step2) + line_placed(
            lines.last().words,
            font_size,
            space2,
            line_start(lines.last(), centered),
            (lines.len() - 1) * step2,
        )
    }
}

/// The six vertices of a glyph's quad, two coordinates each: top left,
/// bottom left, bottom right, bottom right, top right, top left.
pub open spec fn quad(x: int, y: int, x_max: int, y_max: int) -> Seq<int> {
    seq![x, y, x, y_max, x_max, y_max, x_max, y_max, x_max, y, x, y]
}

/// The quad of a placed glyph in clip space. With the display's width as
/// `one_x` and its height as `one_y`, a point `(x, y)` measured from the top
/// left corner lies at `(2x - one_x, one_y - 2y)`.
pub open spec fn quad_verts(p: Placed, font_size: int, one_x: int, one_y: int) -> Seq<int> {
    let x = p.x2 + 2 * (p.glyph.x_offset * font_size) - one_x;
    let y = one_y - (p.y2 + 2 * (p.glyph.y_offset * font_size));
    let x_max = x + 2 * (p.glyph.x_size * font_size);
    let y_max = y - 2 * (p.glyph.y_size * font_size);
    quad(x, y, x_max, y_max)
}

/// The atlas coordinates of a glyph's quad.
pub open spec fn quad_tex(g: RChar) -> Seq<int> {
    quad(g.x_tex as int, g.y_tex as int, g.x_tex_max as int, g.y_tex_max as int)
}

/// The vertex buffer of a run of placed glyphs: the quads of the glyphs in
/// the order in which the glyphs were set.
pub open spec fn mesh_verts(placed: Seq<Placed>, font_size: int, one_x: int, one_y: int) -> Seq<int>
    decreases placed.len(),
{
    if placed.len() == 0 {
        Seq::empty()
    } else {
        mesh_verts(placed.drop_last(), font_size, one_x, one_y) + quad_verts(
            placed.last(),
            font_size,
            one_x,
            one_y,
        )
    }
}

/// The atlas coordinate buffer of a run of placed glyphs, in the order of
/// the vertex buffer.
pub open spec fn mesh_tex(placed: Seq<Placed>) -> Seq<int>
    decreases placed.len(),
{
    if placed.len() == 0 {
        Seq::empty()
    } else {
        mesh_tex(placed.drop_last()) + quad_tex(placed.last().glyph)
    }
}

/// The numbers of a buffer.
pub open spec fn ints(s: Seq<i128>) -> Seq<int> {
    s.map_values(|v: i128| v as int)
}

/// The buffer of two runs of glyphs is the buffer of the first and then the
/// buffer of the second.
pub proof fn lemma_mesh_concat(a: Seq<Placed>, b: Seq<Placed>, font_size: int, one_x: int, one_y: int)
    ensures
        mesh_verts(a + b, font_size, one_x, one_y) == mesh_verts(a, font_size, one_x, one_y) + mesh_verts(
            b,
            font_size,
            one_x,
            one_y,
        ),
        mesh_tex(a + b) == mesh_tex(a) + mesh_tex(b),
    decreases b.len(),
{
    if b.len() == 0 {
        assert(a + b =~= a);
        assert(mesh_verts(a, font_size, one_x, one_y) + mesh_verts(b, font_size, one_x, one_y) =~= mesh_verts(
            a,
            font_size,
            one_x,
            one_y,
        ));
        assert(mesh_tex(a) + mesh_tex(b) =~= mesh_tex(a));
    } else {
        lemma_mesh_concat(a, b.drop_last(), font_size, one_x, one_y);
        assert((a + b).drop_last() =~= a + b.drop_last());
        assert((a + b).last() == b.last());
        assert(mesh_verts(a + b, font_size, one_x, one_y) =~= mesh_verts(a, font_size, one_x, one_y)
            + mesh_verts(b, font_size, one_x, one_y));
        assert(mesh_tex(a + b) =~= mesh_tex(a) + mesh_tex(b));
    }
}

/// The quad of the glyph with the index `j` stands at the place `j` of
/// either buffer: its twelve numbers are those from `12 * j` on.
pub proof fn lemma_mesh_block(placed: Seq<Placed>, j: int, font_size: int, one_x: int, one_y: int)
    requires
        0 <= j < placed.len(),
    ensures
        mesh_verts(placed, font_size, one_x, one_y).len() == 12 * placed.len(),
        mesh_tex(placed).len() == 12 * placed.len(),
        mesh_verts(placed, font_size, one_x, one_y).subrange(12 * j, 12 * j + 12) == quad_verts(
            placed[j],
            font_size,
            one_x,
            one_y,
        ),
        mesh_tex(placed).subrange(12 * j, 12 * j + 12) == quad_tex(placed[j].glyph),
    decreases placed.len(),
{
    let head = placed.drop_last();
    lemma_mesh_len(placed, font_size, one_x, one_y);
    lemma_mesh_len(head, font_size, one_x, one_y);
    let verts = mesh_verts(placed, font_size, one_x, one_y);
    let tex = mesh_tex(placed);
    if j == placed.len() - 1 {
        assert(verts.subrange(12 * j, 12 * j + 12) =~= quad_verts(placed[j], font_size, one_x, one_y));
        assert(tex.subrange(12 * j, 12 * j + 12) =~= quad_tex(placed[j].glyph));
    } else {
        lemma_mesh_block(head, j, font_size, one_x, one_y);
        assert(head[j] == placed[j]);
        assert(verts.subrange(12 * j, 12 * j + 12) =~= mesh_verts(head, font_size, one_x, one_y).subrange(
            12 * j,
            12 * j + 12,
        ));
        assert(tex.subrange(12 * j, 12 * j + 12) =~= mesh_tex(head).subrange(12 * j, 12 * j + 12));
    }
}

/// There are twelve coordinates to a glyph in either buffer.
pub proof fn lemma_mesh_len(placed: Seq<Placed>, font_size: int, one_x: int, one_y: int)
    ensures
        mesh_verts(placed, font_size, one_x, one_y).len() == 12 * placed.len(),
        mesh_tex(placed).len() == 12 * placed.len(),
    decreases placed.len(),
{
    if placed.len() > 0 {
        lemma_mesh_len(placed.drop_last(), font_size, one_x, one_y);
    }
}

/// A word places as many glyphs as it has.
pub proof fn lemma_word_placed_len(chars: Seq<RChar>, font_size: int, x2: int, y2: int)
    ensures
        word_placed(chars, font_size, x2, y2).len() == chars.len(),
    decreases chars.len(),
{
    if chars.len() > 0 {
        lemma_word_placed_len(chars.drop_last(), font_size, x2, y2);
    }
}

/// A line places no more glyphs than it weighs.
pub proof fn lemma_line_placed_len(words: Seq<WordModel>, font_size: int, space2: int, x2: int, y2: int)
    ensures
        line_placed(words, font_size, space2, x2, y2).len() + words.len() == words_weight(words),
    decreases words.len(),
{
    if words.len() > 0 {
        lemma_line_placed_len(words.drop_last(), font_size, space2, x2, y2);
        lemma_word_placed_len(
            words.last().chars,
            font_size,
            x2 + line_advance(words.drop_last(), font_size, space2),
            y2,
        );
    }
}

/// A run of lines places no more glyphs than it weighs.
pub proof fn lemma_lines_placed_len(
    lines: Seq<LineModel>,
    font_size: int,
    space2: int,
    centered: bool,
    step2: int,
)
    ensures
        lines_placed(lines, font_size, space2, centered, step2).len() <= lines_weight(lines),
    decreases lines.len(),
{
    if lines.len() > 0 {
        lemma_lines_placed_len(lines.drop_last(), font_size, space2, centered, step2);
        lemma_line_placed_len(
            lines.last().words,
            font_size,
            space2,
            line_start(lines.last(), centered),
            (lines.len() - 1) * step2,
        );
    }
}

/// The glyphs of a run of placed glyphs.
pub open spec fn placed_glyphs(placed: Seq<Placed>) -> Seq<RChar> {
    placed.map_values(|p: Placed| p.glyph)
}

/// A word places its glyphs in their order.
pub proof fn lemma_word_placed_glyphs(chars: Seq<RChar>, font_size: int, x2: int, y2: int)
    ensures
        placed_glyphs(word_placed(chars, font_size, x2, y2)) == chars,
    decreases chars.len(),
{
    if chars.len() > 0 {
        lemma_word_placed_glyphs(chars.drop_last(), font_size, x2, y2);
        assert(chars.drop_last().push(chars.last()) =~= chars);
    }
    assert(placed_glyphs(word_placed(chars, font_size, x2, y2)) =~= chars);
}

/// A line places the glyphs of its words in their order.
pub proof fn lemma_line_placed_glyphs(words: Seq<WordModel>, font_size: int, space2: int, x2: int, y2: int)
    ensures
        placed_glyphs(line_placed(words, font_size, space2, x2, y2)) == line_glyphs(words),
    decreases words.len(),
{
    if words.len() > 0 {
        lemma_line_placed_glyphs(words.drop_last(), font_size, space2, x2, y2);
        lemma_word_placed_glyphs(
            words.last().chars,
            font_size,
            x2 + line_advance(words.drop_last(), font_size, space2),
            y2,
        );
    }
    assert(placed_glyphs(line_placed(words, font_size, space2, x2, y2)) =~= line_glyphs(words));
}

/// A run of lines places the glyphs of its lines in their order.
pub proof fn lemma_lines_placed_glyphs(
    lines: Seq<LineModel>,
    font_size: int,
    space2: int,
    centered: bool,
    step2: int,
)
    ensures
        placed_glyphs(lines_placed(lines, font_size, space2, centered, step2)) == lines_glyphs(lines),
    decreases lines.len(),
{
    if lines.len() > 0 {
        lemma_lines_placed_glyphs(lines.drop_last(), font_size, space2, centered, step2);
        lemma_line_placed_glyphs(
            lines.last().words,
            font_size,
            space2,
            line_start(lines.last(), centered),
            (lines.len() - 1) * step2,
        );
    }
    assert(placed_glyphs(lines_placed(lines, font_size, space2, centered, step2)) =~= lines_glyphs(lines));
}

/// The advances of bounded glyphs at a font size are bounded by their
/// number.
pub proof fn lemma_advance_bound(chars: Seq<RChar>, font_size: u16)
    requires
        forall|i: int| 0 <= i < chars.len() ==> (#[trigger] chars[i]).bounded(),
    ensures
        within(advance_sum(chars) * font_size, chars.len() * MEASURE_LIMIT),
{
    lemma_word_width_bound(WordModel { font_size, chars });
}

/// How far bounded words move the cursor is bounded by their weight.
pub proof fn lemma_line_advance_bound(words: Seq<WordModel>, font_size: u16, space2: int)
    requires
        forall|i: int| 0 <= i < words.len() ==> (#[trigger] words[i]).bounded(),
        within(space2, 2 * MEASURE_LIMIT),
    ensures
        within(line_advance(words, font_size as int, space2), 2 * (words_weight(words) * MEASURE_LIMIT)),
    decreases words.len(),
{
    if words.len() > 0 {
        let head = words.drop_last();
        assert forall|i: int| 0 <= i < head.len() implies (#[trigger] head[i]).bounded() by {
            assert(head[i] == words[i]);
        }
        lemma_line_advance_bound(head, font_size, space2);
        assert(words.last().bounded());
        lemma_advance_bound(words.last().chars, font_size);
        assert(words_weight(words) * MEASURE_LIMIT == words_weight(head) * MEASURE_LIMIT
            + words.last().chars.len() * MEASURE_LIMIT + MEASURE_LIMIT) by (nonlinear_arith)
            requires
                words_weight(words) == words_weight(head) + words.last().chars.len() + 1,
        ;
    }
}

/// A prefix of a run of words weighs no more than the run.
pub proof fn lemma_weight_prefix(words: Seq<WordModel>, k: int)
    requires
        0 <= k <= words.len(),
    ensures
        words_weight(words.take(k)) <= words_weight(words),
    decreases words.len() - k,
{
    if k < words.len() {
        lemma_weight_prefix(words, k + 1);
        assert(words.take(k + 1).drop_last() =~= words.take(k));
    } else {
        assert(words.take(k) =~= words);
    }
}

/// Puts the six vertices of a quad at the end of a buffer.
fn push_verts(verts: &mut Vec<i128>, x: i128, y: i128, x_max: i128, y_max: i128)
    ensures
        ints(final(verts)@) == ints(old(verts)@) + quad(x as int, y as int, x_max as int, y_max as int),
{
    verts.push(x);
    verts.push(y);
    verts.push(x);
    verts.push(y_max);
    verts.push(x_max);
    verts.push(y_max);
    verts.push(x_max);
    verts.push(y_max);
    verts.push(x_max);
    verts.push(y);
    verts.push(x);
    verts.push(y);
    assert(ints(verts@) =~= ints(old(verts)@) + quad(x as int, y as int, x_max as int, y_max as int));
}

/// Puts the six atlas coordinates of a quad at the end of a buffer.
fn push_tex_coords(tex_coords: &mut Vec<i128>, x: i128, y: i128, x_max: i128, y_max: i128)
    ensures
        ints(final(tex_coords)@) == ints(old(tex_coords)@) + quad(
            x as int,
            y as int,
            x_max as int,
            y_max as int,
        ),
{
    tex_coords.push(x);
    tex_coords.push(y);
    tex_coords.push(x);
    tex_coords.push(y_max);
    tex_coords.push(x_max);
    tex_coords.push(y_max);
    tex_coords.push(x_max);
    tex_coords.push(y_max);
    tex_coords.push(x_max);
    tex_coords.push(y);
    tex_coords.push(x);
    tex_coords.push(y);
    assert(ints(tex_coords@) =~= ints(old(tex_coords)@) + quad(
        x as int,
        y as int,
        x_max as int,
        y_max as int,
    ));
}

/// Puts the quad of a glyph that is set at the doubled cursor
/// `(x_curser, y_curser)` at the end of the vertex buffer.
fn add_verts_for_char(
    verts: &mut Vec<i128>,
    x_curser: i128,
    y_curser: i128,
    rchar: &RChar,
    font_size: u16,
    one_x: i128,
    one_y: i128,
)
    requires
        rchar.bounded(),
        within(x_curser as int, CURSOR_LIMIT as int),
        within(y_curser as int, CURSOR_LIMIT as int),
        within(one_x as int, MEASURE_LIMIT as int),
        within(one_y as int, MEASURE_LIMIT as int),
    ensures
        ints(final(verts)@) == ints(old(verts)@) + quad_verts(
            Placed { glyph: *rchar, x2: x_curser as int, y2: y_curser as int },
            font_size as int,
            one_x as int,
            one_y as int,
        ),
{
    let fs: i128 = font_size as i128;
    assert forall|m: int| within(m, GLYPH_LIMIT as int) implies within(#[trigger] (m * fs), MEASURE_LIMIT as int) by {
        assert(within(m * fs, MEASURE_LIMIT as int)) by (nonlinear_arith)
            requires
                within(m, GLYPH_LIMIT as int),
                0 <= fs <= 0xffff,
        ;
    }
    assert(within(rchar.x_offset * fs, MEASURE_LIMIT as int));
    assert(within(rchar.y_offset * fs, MEASURE_LIMIT as int));
    assert(within(rchar.x_size * fs, MEASURE_LIMIT as int));
    assert(within(rchar.y_size * fs, MEASURE_LIMIT as int));
    let x_proper: i128 = x_curser + 2 * (rchar.x_offset * fs) - one_x;
    let y_proper: i128 = one_y - (y_curser + 2 * (rchar.y_offset * fs));
    let x_proper_max: i128 = x_proper + 2 * (rchar.x_size * fs);
    let y_proper_max: i128 = y_proper - 2 * (rchar.y_size * fs);
    push_verts(verts, x_proper, y_proper, x_proper_max, y_proper_max);
}

/// Puts the quads of a word, set from the doubled cursor
/// `(x_cursor, y_cursor)`, at the end of both buffers, and gives the cursor's
/// horizontal position behind the word.
fn add_verts_for_word(
    verts: &mut Vec<i128>,
    t_coords: &mut Vec<i128>,
    x_cursor: i128,
    y_cursor: i128,
    word: &RWord,
    font_size: u16,
    one_x: i128,
    one_y: i128,
) -> (end: i128)
    requires
        word@.bounded(),
        word@.weight() <= MAX_WEIGHT,
        within(x_cursor as int, 4 * LENGTH_LIMIT),
        within(y_cursor as int, CURSOR_LIMIT as int),
        within(one_x as int, MEASURE_LIMIT as int),
        within(one_y as int, MEASURE_LIMIT as int),
    ensures
        end == x_cursor + 2 * (advance_sum(word.chars@) * font_size),
        ints(final(verts)@) == ints(old(verts)@) + mesh_verts(
            word_placed(word.chars@, font_size as int, x_cursor as int, y_cursor as int),
            font_size as int,
            one_x as int,
            one_y as int,
        ),
        ints(final(t_coords)@) == ints(old(t_coords)@) + mesh_tex(
            word_placed(word.chars@, font_size as int, x_cursor as int, y_cursor as int),
        ),
{
    let fs: i128 = font_size as i128;
    let mut x: i128 = x_cursor;
    let mut i: usize = 0;
    proof {
        assert(word.chars@.take(0) =~= Seq::<RChar>::empty());
        assert(ints(verts@) + Seq::<int>::empty() =~= ints(verts@));
        assert(ints(t_coords@) + Seq::<int>::empty() =~= ints(t_coords@));
    }
    while i < word.chars.len()
        invariant
            i <= word.chars.len(),
            fs == font_size,
            word@.bounded(),
            word@.weight() <= MAX_WEIGHT,
            within(x_cursor as int, 4 * LENGTH_LIMIT),
            within(y_cursor as int, CURSOR_LIMIT as int),
            within(one_x as int, MEASURE_LIMIT as int),
            within(one_y as int, MEASURE_LIMIT as int),
            x == x_cursor + 2 * (advance_sum(word.chars@.take(i as int)) * font_size),
            ints(verts@) == ints(old(verts)@) + mesh_verts(
                word_placed(word.chars@.take(i as int), font_size as int, x_cursor as int, y_cursor as int),
                font_size as int,
                one_x as int,
                one_y as int,
            ),
            ints(t_coords@) == ints(old(t_coords)@) + mesh_tex(
                word_placed(word.chars@.take(i as int), font_size as int, x_cursor as int, y_cursor as int),
            ),
        decreases word.chars.len() - i,
    {
        let letter = &word.chars[i];
        let ghost head = word.chars@.take(i as int);
        let ghost next = word.chars@.take(i + 1);
        proof {
            assert(next.drop_last() =~= head);
            assert(next.last() == *letter);
            assert(letter.bounded());
            assert forall|k: int| 0 <= k < head.len() implies (#[trigger] head[k]).bounded() by {
                assert(head[k] == word.chars@[k]);
            }
            assert forall|k: int| 0 <= k < next.len() implies (#[trigger] next[k]).bounded() by {
                assert(next[k] == word.chars@[k]);
            }
            lemma_advance_bound(head, font_size);
            lemma_advance_bound(next, font_size);
            assert(head.len() * MEASURE_LIMIT <= MAX_WEIGHT * MEASURE_LIMIT) by (nonlinear_arith)
                requires
                    head.len() <= MAX_WEIGHT,
            ;
            assert(next.len() * MEASURE_LIMIT <= MAX_WEIGHT * MEASURE_LIMIT) by (nonlinear_arith)
                requires
                    next.len() <= MAX_WEIGHT,
            ;
            let a = letter.x_advance as int;
            let s = advance_sum(head);
            assert((s + a) * fs == s * fs + a * fs) by (nonlinear_arith);
            assert(within(a * fs, MEASURE_LIMIT as int)) by (nonlinear_arith)
                requires
                    within(a, GLYPH_LIMIT as int),
                    0 <= fs <= 0xffff,
            ;
        }
        let ghost before_verts = ints(verts@);
        let ghost before_tex = ints(t_coords@);
        add_verts_for_char(verts, x, y_cursor, letter, font_size, one_x, one_y);
        push_tex_coords(t_coords, letter.x_tex, letter.y_tex, letter.x_tex_max, letter.y_tex_max);
        proof {
            let placed_head = word_placed(head, font_size as int, x_cursor as int, y_cursor as int);
            let placed_next = word_placed(next, font_size as int, x_cursor as int, y_cursor as int);
            let p = Placed { glyph: *letter, x2: x as int, y2: y_cursor as int };
            assert(placed_next == placed_head.push(p));
            assert(placed_next.drop_last() =~= placed_head);
            assert(placed_next.last() == p);
            assert(ints(verts@) =~= ints(old(verts)@) + mesh_verts(
                placed_next,
                font_size as int,
                one_x as int,
                one_y as int,
            ));
            assert(ints(t_coords@) =~= ints(old(t_coords)@) + mesh_tex(placed_next));
        }
        x += 2 * (letter.x_advance * fs);
        i += 1;
    }
    proof {
        assert(word.chars@.take(word.chars.len() as int) =~= word.chars@);
    }
    x
}

/// Puts the quads of a line, set from the line's start at the doubled
/// height `y_cursor`, at the end of both buffers.
fn add_verts_for_line(
    verts: &mut Vec<i128>,
    t_coords: &mut Vec<i128>,
    line: &RLine,
    centered: bool,
    y_cursor: i128,
    space2: i128,
    font_size: u16,
    one_x: i128,
    one_y: i128,
)
    requires
        line.wf(),
        within(space2 as int, 2 * MEASURE_LIMIT),
        within(y_cursor as int, CURSOR_LIMIT as int),
        within(one_x as int, MEASURE_LIMIT as int),
        within(one_y as int, MEASURE_LIMIT as int),
    ensures
        ints(final(verts)@) == ints(old(verts)@) + mesh_verts(
            line_placed(
                line@.words,
                font_size as int,
                space2 as int,
                line_start(line@, centered),
                y_cursor as int,
            ),
            font_size as int,
            one_x as int,
            one_y as int,
        ),
        ints(final(t_coords)@) == ints(old(t_coords)@) + mesh_tex(
            line_placed(
                line@.words,
                font_size as int,
                space2 as int,
                line_start(line@, centered),
                y_cursor as int,
            ),
        ),
{
    proof {
        line.lemma_wf_bounds();
    }
    let start: i128 = if centered {
        line.max_length - line.line_length
    } else {
        0
    };
    let mut x: i128 = start;
    let mut i: usize = 0;
    proof {
        assert(line@.words.take(0) =~= Seq::<WordModel>::empty());
        assert(ints(verts@) + Seq::<int>::empty() =~= ints(verts@));
        assert(ints(t_coords@) + Seq::<int>::empty() =~= ints(t_coords@));
    }
    while i < line.words.len()
        invariant
            i <= line.words.len(),
            line.wf(),
            line@.bounded(),
            start == line_start(line@, centered),
            within(start as int, 2 * LENGTH_LIMIT),
            within(space2 as int, 2 * MEASURE_LIMIT),
            within(y_cursor as int, CURSOR_LIMIT as int),
            within(one_x as int, MEASURE_LIMIT as int),
            within(one_y as int, MEASURE_LIMIT as int),
            x == start + line_advance(line@.words.take(i as int), font_size as int, space2 as int),
            ints(verts@) == ints(old(verts)@) + mesh_verts(
                line_placed(
                    line@.words.take(i as int),
                    font_size as int,
                    space2 as int,
                    start as int,
                    y_cursor as int,
                ),
                font_size as int,
                one_x as int,
                one_y as int,
            ),
            ints(t_coords@) == ints(old(t_coords)@) + mesh_tex(
                line_placed(
                    line@.words.take(i as int),
                    font_size as int,
                    space2 as int,
                    start as int,
                    y_cursor as int,
                ),
            ),
        decreases line.words.len() - i,
    {
        let word = &line.words[i];
        let ghost head = line@.words.take(i as int);
        let ghost next = line@.words.take(i + 1);
        proof {
            assert(next.drop_last() =~= head);
            assert(next.last() == word@);
            assert(word.wf());
            assert forall|k: int| 0 <= k < head.len() implies (#[trigger] head[k]).bounded() by {
                assert(head[k] == line@.words[k]);
            }
            assert forall|k: int| 0 <= k < next.len() implies (#[trigger] next[k]).bounded() by {
                assert(next[k] == line@.words[k]);
            }
            lemma_line_advance_bound(head, font_size, space2 as int);
            lemma_line_advance_bound(next, font_size, space2 as int);
            lemma_weight_prefix(line@.words, i as int);
            lemma_weight_prefix(line@.words, i + 1);
            assert(words_weight(head) * MEASURE_LIMIT <= MAX_WEIGHT * MEASURE_LIMIT) by (nonlinear_arith)
                requires
                    words_weight(head) <= MAX_WEIGHT,
            ;
            assert(words_weight(next) * MEASURE_LIMIT <= MAX_WEIGHT * MEASURE_LIMIT) by (nonlinear_arith)
                requires
                    words_weight(next) <= MAX_WEIGHT,
            ;
        }
        let ghost before_verts = ints(verts@);
        let ghost before_tex = ints(t_coords@);
        let end = add_verts_for_word(verts, t_coords, x, y_cursor, word, font_size, one_x, one_y);
        proof {
            let fs = font_size as int;
            let placed_head = line_placed(head, fs, space2 as int, start as int, y_cursor as int);
            let placed_word = word_placed(word.chars@, fs, x as int, y_cursor as int);
            let placed_next = line_placed(next, fs, space2 as int, start as int, y_cursor as int);
            assert(placed_next == placed_head + placed_word);
            lemma_mesh_concat(placed_head, placed_word, fs, one_x as int, one_y as int);
            assert(ints(verts@) =~= ints(old(verts)@) + mesh_verts(placed_next, fs, one_x as int, one_y as int));
            assert(ints(t_coords@) =~= ints(old(t_coords)@) + mesh_tex(placed_next));
        }
        x = end + space2;
        i += 1;
    }
    proof {
        assert(line@.words.take(line.words.len() as int) =~= line@.words);
    }
}

/// Builds lines and meshes for the labels of one font.
pub struct RTextMeshCreator {
    pub line_ht: i128,
    pub space_ascii: u32,
    pub metadata: MetaFile,
}

impl RTextMeshCreator {
    /// The table is well formed, and the line height and the code of the
    /// space are what they have to be.
    pub open spec fn wf(&self) -> bool {
        &&& self.metadata.wf()
        &&& self.line_ht == self.metadata@.line_ht()
        &&& self.space_ascii == SPACE_ASCII
    }

    /// The permitted length of a line, as a numerator over the font's
    /// horizontal denominator times `SIZE_UNIT`, for a width given in units of
    /// `1 / SIZE_UNIT` of the display's width.
    pub open spec fn max_length(&self, line_max_size: u32) -> int {
        line_max_size * self.metadata@.horizontal_den()
    }

    /// The lines that the text of `text` makes in this font.
    pub open spec fn lines_of(&self, text: TextModel) -> Seq<LineModel> {
        layout(
            codes_of(text.text),
            self.metadata.metadata@,
            text.font_size,
            self.metadata.space_width * text.font_size,
            self.max_length(text.line_max_size),
        )
    }

    /// The width of the display in the units of the horizontal coordinates
    /// of a mesh.
    pub open spec fn one_x(&self) -> int {
        self.metadata@.horizontal_den() * SIZE_UNIT
    }

    /// The height of the display in the units of the vertical coordinates
    /// of a mesh.
    pub open spec fn one_y(&self) -> int {
        self.metadata@.vertical_den() * SIZE_UNIT
    }

    /// The glyphs of the text of `text` in this font, each with the cursor
    /// position at which it is set: a line starts at the left edge, or
    /// centred, one line height below the line before, and a space follows
    /// every word.
    pub open spec fn placed_of(&self, text: TextModel) -> Seq<Placed> {
        lines_placed(
            self.lines_of(text),
            text.font_size as int,
            2 * (self.metadata.space_width * text.font_size),
            text.is_centered,
            2 * (self.line_ht * text.font_size),
        )
    }

    /// `mesh` is the mesh of the text of `text` in this font: its buffers
    /// hold the quads of the placed glyphs, its vertex count is six to a
    /// glyph, and its denominators are the font's.
    pub open spec fn is_mesh_of(&self, text: TextModel, mesh: RTextMesh) -> bool {
        &&& ints(mesh.verts@) == mesh_verts(
            self.placed_of(text),
            text.font_size as int,
            self.one_x(),
            self.one_y(),
        )
        &&& ints(mesh.tex_coords@) == mesh_tex(self.placed_of(text))
        &&& mesh.vert_count == 6 * self.placed_of(text).len()
        &&& mesh.x_den == self.one_x()
        &&& mesh.y_den == self.one_y()
        &&& mesh.tex_den == self.metadata.image_width
    }

    /// No line of a text, however long the text, is longer than it may be,
    /// except a line that holds a single word which alone is longer than
    /// that: of every other line that holds a word, the widths of the words
    /// and the spaces between them add up to no more than the length that
    /// was asked for.
    pub proof fn lemma_lines_fit(&self, text: TextModel)
        ensures
            forall|i: int|
                #![trigger self.lines_of(text)[i]]
                0 <= i < self.lines_of(text).len() ==> {
                    let line = self.lines_of(text)[i];
                    &&& line.max_length == self.max_length(text.line_max_size)
                    &&& line.space_size == self.metadata.space_width * text.font_size
                    &&& line.words.len() >= 1 && !(line.words.len() == 1 && line.words[0].width()
                        > line.max_length) ==> width_sum(line.words) + (line.words.len() - 1) * line.space_size
                        <= line.max_length
                },
    {
        lemma_layout_lines_fit(
            codes_of(text.text),
            self.metadata.metadata@,
            text.font_size,
            self.metadata.space_width * text.font_size,
            self.max_length(text.line_max_size),
        );
    }

    /// The empty text makes exactly one line in any font, and that line
    /// holds one word without a glyph and has no length.
    pub proof fn lemma_empty_text_makes_one_line(&self, text: TextModel)
        requires
            self.wf(),
            text.text.len() == 0,
        ensures
            self.lines_of(text) == seq![
                LineModel {
                    words: seq![WordModel { font_size: text.font_size, chars: Seq::empty() }],
                    max_length: self.max_length(text.line_max_size),
                    space_size: self.metadata.space_width * text.font_size,
                },
            ],
            self.lines_of(text)[0].length() == 0,
    {
        let hd = self.metadata@.horizontal_den();
        let lh = self.metadata@.line_height_pixels();
        assert(0 <= text.line_max_size * hd) by (nonlinear_arith)
            requires
                0 <= text.line_max_size,
                hd == 100 * lh * self.metadata.display_width,
                0 < lh,
                0 < self.metadata.display_width,
        ;
        assert(codes_of(text.text) =~= Seq::<u8>::empty());
        lemma_layout_of_nothing(
            self.metadata.metadata@,
            text.font_size,
            self.metadata.space_width * text.font_size,
            self.max_length(text.line_max_size),
        );
    }

    /// The mesh of a text holds a quad for every glyph of the text, in the
    /// order of the text: the glyphs that are placed are the glyphs of the
    /// text without its spaces, so that a mesh has twelve coordinates in
    /// either buffer, and six vertices, for each of them.
    pub proof fn lemma_mesh_holds_text(&self, text: TextModel, mesh: RTextMesh)
        requires
            self.is_mesh_of(text, mesh),
        ensures
            placed_glyphs(self.placed_of(text)) == glyphs_of(
                without_spaces(codes_of(text.text)),
                self.metadata.metadata@,
            ),
            mesh.verts@.len() == 12 * glyphs_of(without_spaces(codes_of(text.text)), self.metadata.metadata@).len(),
            mesh.tex_coords@.len() == mesh.verts@.len(),
            mesh.vert_count == 6 * glyphs_of(without_spaces(codes_of(text.text)), self.metadata.metadata@).len(),
    {
        let placed = self.placed_of(text);
        lemma_lines_placed_glyphs(
            self.lines_of(text),
            text.font_size as int,
            2 * (self.metadata.space_width * text.font_size),
            text.is_centered,
            2 * (self.line_ht * text.font_size),
        );
        lemma_layout_keeps_glyphs(
            codes_of(text.text),
            self.metadata.metadata@,
            text.font_size,
            self.metadata.space_width * text.font_size,
            self.max_length(text.line_max_size),
        );
        lemma_mesh_len(placed, text.font_size as int, self.one_x(), self.one_y());
        assert(placed_glyphs(placed).len() == placed.len());
        assert(ints(mesh.verts@).len() == mesh.verts@.len());
        assert(ints(mesh.tex_coords@).len() == mesh.tex_coords@.len());
    }

    /// The buffers of a mesh are in the order of the text: the quad of the
    /// glyph with the index `j` among the glyphs of the text stands at the
    /// place `j` of either buffer.
    pub proof fn lemma_mesh_in_reading_order(&self, text: TextModel, mesh: RTextMesh, j: int)
        requires
            self.is_mesh_of(text, mesh),
            0 <= j < glyphs_of(without_spaces(codes_of(text.text)), self.metadata.metadata@).len(),
        ensures
            j < self.placed_of(text).len(),
            self.placed_of(text)[j].glyph == glyphs_of(
                without_spaces(codes_of(text.text)),
                self.metadata.metadata@,
            )[j],
            ints(mesh.verts@).subrange(12 * j, 12 * j + 12) == quad_verts(
                self.placed_of(text)[j],
                text.font_size as int,
                self.one_x(),
                self.one_y(),
            ),
            ints(mesh.tex_coords@).subrange(12 * j, 12 * j + 12) == quad_tex(
                glyphs_of(without_spaces(codes_of(text.text)), self.metadata.metadata@)[j],
            ),
    {
        let placed = self.placed_of(text);
        self.lemma_mesh_holds_text(text, mesh);
        assert(placed_glyphs(placed).len() == placed.len());
        assert(placed_glyphs(placed)[j] == placed[j].glyph);
        lemma_mesh_block(placed, j, text.font_size as int, self.one_x(), self.one_y());
    }

    /// A mesh creator for the font that `source` describes, on a display of
    /// the given dimensions.
    pub fn new(display_width: u32, display_height: u32, source: &str) -> (r: Result<Self, MetaError>)
        ensures
            match r {
                Ok(c) => {
                    &&& c.wf()
                    &&& MetaFile::new_ok(display_width, display_height, source.spec_bytes(), c.metadata)
                },
                Err(e) => MetaFile::new_err(display_width, display_height, source.spec_bytes(), e),
            },
    {
        match MetaFile::new(display_width, display_height, source) {
            Ok(metadata) => {
                let lh: i128 = metadata.common.unwrap().line_height as i128 - metadata.padding_height as i128;
                Ok(Self { line_ht: 3 * lh, space_ascii: SPACE_ASCII, metadata })
            },
            Err(e) => Err(e),
        }
    }

    /// Adapts the font's table to a display of other dimensions.
    pub fn update_size(&mut self, display_width: u32, display_height: u32) -> (ok: bool)
        requires
            old(self).wf(),
        ensures
            ok == (display_width > 0 && display_height > 0),
            ok ==> final(self).wf() && final(self).metadata@ == old(self).metadata@.resized(
                display_width,
                display_height,
            ) && final(self).metadata.records() == old(self).metadata.records(),
            !ok ==> *final(self) == *old(self),
    {
        self.metadata.update_size(display_width, display_height)
    }

    /// Cuts the text into words at its spaces and places the words on lines.
    pub fn create_structure(&self, text: &GuiTextVals) -> (lines: Vec<RLine>)
        requires
            self.wf(),
            codes_of(text.text@).len() < MAX_WEIGHT,
        ensures
            lines_model(lines@) == self.lines_of(text@),
            forall|i: int| 0 <= i < lines.len() ==> (#[trigger] lines[i]).wf(),
            1 <= lines.len() <= codes_of(text.text@).len() + 2,
            lines_weight(lines_model(lines@)) <= codes_of(text.text@).len() + 1,
            forall|i: int|
                0 <= i < lines.len() ==> fits_request(
                    #[trigger] lines[i],
                    self.max_length(text.line_max_size),
                    self.metadata.space_width * text.font_size,
                ),
    {
        let chars = text.text.as_str().as_bytes();
        let ghost codes = chars@;
        let ghost table = self.metadata.metadata@;
        let font_size = text.font_size;
        proof {
            self.metadata.lemma_wf_bounds();
        }
        let ghost hd = self.metadata@.horizontal_den();
        let ghost lh = self.metadata@.line_height_pixels();
        assert(0 <= text.line_max_size * hd <= 0xffff_ffff * (100 * 0xffff_ffff * 0xffff_ffff)) by (nonlinear_arith)
            requires
                0 <= text.line_max_size <= 0xffff_ffff,
                hd == 100 * lh * self.metadata.display_width,
                0 < lh <= 0xffff_ffff,
                0 < self.metadata.display_width <= 0xffff_ffff,
        ;
        let max_length: i128 = (text.line_max_size as u128 * self.metadata.horizontal_per_pixel_size.den) as i128;
        let mut lines: Vec<RLine> = Vec::new();
        let mut current_line = RLine::new(self.metadata.space_width, font_size, max_length);
        let ghost empty = current_line@;
        let mut current_word = Some(RWord::new(font_size));
        let mut i: usize = 0;
        proof {
            assert(codes.take(0) =~= Seq::<u8>::empty());
            assert(lines_model(lines@) =~= Seq::<LineModel>::empty());
            lemma_split_nonempty(codes.take(0), SPACE_ASCII as u8);
            assert(current_word->0@.chars =~= glyphs_of(Seq::<u8>::empty(), table));
        }
        while i < chars.len()
            invariant
                i <= chars.len(),
                chars@ == codes,
                codes.len() < MAX_WEIGHT,
                self.wf(),
                table == self.metadata.metadata@,
                forall|code: u32| #[trigger] table.contains_key(code) ==> table[code].bounded(),
                font_size == text.font_size,
                within(self.metadata.space_width as int, GLYPH_LIMIT as int),
                within(max_length as int, LENGTH_LIMIT as int),
                empty == (LineModel {
                    words: Seq::empty(),
                    max_length: max_length as int,
                    space_size: self.metadata.space_width * font_size,
                }),
                current_line.wf(),
                current_word is Some,
                current_word->0.wf(),
                current_word->0@ == word_of(split(codes.take(i as int), SPACE_ASCII as u8).last(), table, font_size),
                forall|k: int| 0 <= k < lines.len() ==> (#[trigger] lines[k]).wf(),
                lines.len() <= i,
                lines_weight(lines_model(lines@)) + current_line@.weight() + current_word->0@.chars.len() <= i,
                split(codes.take(i as int), SPACE_ASCII as u8).len() >= 1,
                current_line@.cleared() == empty,
                wrap_upto(
                    split(codes.take(i as int), SPACE_ASCII as u8),
                    split(codes.take(i as int), SPACE_ASCII as u8).len() - 1,
                    table,
                    font_size,
                    empty,
                ) == (WrapState { done: lines_model(lines@), current: current_line@ }),
            decreases chars.len() - i,
        {
            let ghost before = split(codes.take(i as int), SPACE_ASCII as u8);
            let ghost after = split(codes.take(i + 1), SPACE_ASCII as u8);
            proof {
                lemma_split_step(codes, i as int, SPACE_ASCII as u8);
            }
            let ascii = chars[i] as u32;
            if ascii == self.space_ascii {
                proof {
                    lemma_wrap_agrees(after, before, before.len() - 1, table, font_size, empty);
                    assert(after[before.len() - 1] == before.last());
                }
                let ghost word = current_word->0@;
                let ghost old_line = current_line@;
                let ghost old_lines = lines@;
                current_word = current_line.try_add_word(&mut current_word);
                if current_word.is_some() {
                    lines.push(current_line);
                    current_line = RLine::new(self.metadata.space_width, font_size, max_length);
                    current_line.add_word(current_word.unwrap());
                    proof {
                        assert(lines_model(lines@) =~= lines_model(old_lines).push(old_line));
                        assert(lines_model(lines@).drop_last() =~= lines_model(old_lines));
                        assert(current_line@.words =~= old_line.cleared().with_word(word).words);
                        lemma_length_with_word(empty, word);
                        assert forall|k: int| 0 <= k < lines.len() implies (#[trigger] lines[k]).wf() by {
                            if k < old_lines.len() {
                                assert(lines[k] == old_lines[k]);
                            }
                        }
                    }
                } else {
                    proof {
                        lemma_length_with_word(old_line, word);
                    }
                }
                current_word = Some(RWord::new(font_size));
                proof {
                    assert(after.last() =~= Seq::<u8>::empty());
                    assert(current_word->0@.chars =~= glyphs_of(after.last(), table));
                    assert(wrap_upto(after, after.len() - 1, table, font_size, empty) == place_word(
                        wrap_upto(after, before.len() - 1, table, font_size, empty),
                        word,
                    ));
                }
            } else {
                let character = self.metadata.get(ascii);
                proof {
                    lemma_wrap_agrees(after, before, before.len() - 1, table, font_size, empty);
                    assert(after.last() == before.last().push(codes[i as int]));
                    assert(after.last().drop_last() =~= before.last());
                }
                if current_word.is_some() {
                    let mut cw = current_word.take().unwrap();
                    cw.add_char(character);
                    current_word = Some(cw);
                }
            }
            i += 1;
        }
        proof {
            assert(codes.take(codes.len() as int) =~= codes);
        }
        let ghost words = split(codes, SPACE_ASCII as u8);
        let ghost word = current_word->0@;
        let ghost old_line = current_line@;
        let ghost old_lines = lines@;
        current_word = current_line.try_add_word(&mut current_word);
        if current_word.is_some() {
            lines.push(current_line);
            current_line = RLine::new(self.metadata.space_width, font_size, max_length);
            current_line.add_word(current_word.unwrap());
            proof {
                assert(lines_model(lines@) =~= lines_model(old_lines).push(old_line));
                assert(lines_model(lines@).drop_last() =~= lines_model(old_lines));
                assert(current_line@.words =~= old_line.cleared().with_word(word).words);
                lemma_length_with_word(empty, word);
            }
        } else {
            proof {
                lemma_length_with_word(old_line, word);
            }
        }
        proof {
            lemma_split_nonempty(codes, SPACE_ASCII as u8);
            assert(wrap_upto(words, words.len() as int, table, font_size, empty) == place_word(
                wrap_upto(words, words.len() - 1, table, font_size, empty),
                word,
            ));
        }
        let ghost done = lines@;
        let ghost last = current_line@;
        assert(lines_weight(lines_model(done)) + last.weight() <= codes.len() + 1);
        lines.push(current_line);
        proof {
            assert(lines_model(lines@) =~= lines_model(done).push(last));
            assert(lines_model(lines@).drop_last() =~= lines_model(done));
            assert(lines_model(lines@).last() == last);
            assert forall|k: int| 0 <= k < lines.len() implies (#[trigger] lines[k]).wf() by {
                if k < old_lines.len() {
                    assert(lines[k] == old_lines[k]);
                }
            }
            let space_size = self.metadata.space_width * font_size;
            lemma_layout_lines_fit(codes, table, font_size, space_size, max_length as int);
            assert forall|k: int| 0 <= k < lines.len() implies fits_request(
                #[trigger] lines[k],
                max_length as int,
                space_size,
            ) by {
                let line = lines[k];
                assert(line@ == self.lines_of(text@)[k]);
                assert(line.wf());
                if line.words.len() >= 1 {
                    lemma_length_is_sum(line@.words, space_size);
                    assert(line.words[0].wf());
                    assert(line@.words[0] == line.words[0]@);
                }
            }
        }
        lines
    }

    /// Lays the text out and builds its mesh: two buffers with the quads of
    /// the glyphs, and the number of lines in `text`.
    pub fn create_text_mesh(&self, text: &mut GuiTextVals) -> (mesh: RTextMesh)
        requires
            self.wf(),
            codes_of(old(text).text@).len() < MAX_WEIGHT,
        ensures
            final(text)@ == old(text)@,
            final(text).num_of_lines == self.lines_of(old(text)@).len(),
            self.is_mesh_of(old(text)@, mesh),
    {
        let lines: Vec<RLine> = self.create_structure(text);
        text.num_of_lines = lines.len() as u32;
        let font_size = text.font_size;
        let centered = text.is_centered;
        let fs: i128 = font_size as i128;
        let ghost lm = lines_model(lines@);
        let ghost lh = self.metadata@.line_height_pixels();
        let ghost dw = self.metadata.display_width as int;
        proof {
            self.metadata.lemma_wf_bounds();
            assert(0 <= 100 * lh * dw * 1000 <= 100 * 0xffff_ffff * 0xffff_ffff * 1000) by (nonlinear_arith)
                requires
                    0 < lh <= 0xffff_ffff,
                    0 < dw <= 0xffff_ffff,
            ;
            assert(within(self.metadata.space_width * fs, MEASURE_LIMIT as int)) by (nonlinear_arith)
                requires
                    within(self.metadata.space_width as int, GLYPH_LIMIT as int),
                    0 <= fs <= 0xffff,
            ;
            assert(0 <= self.line_ht * fs <= 3 * 0xffff_ffff * 0xffff) by (nonlinear_arith)
                requires
                    0 <= self.line_ht <= 3 * 0xffff_ffff,
                    0 <= fs <= 0xffff,
            ;
        }
        let one_x: i128 = (self.metadata.horizontal_per_pixel_size.den * SIZE_UNIT as u128) as i128;
        let one_y: i128 = (self.metadata.vertical_per_pixel_size.den * SIZE_UNIT as u128) as i128;
        let space2: i128 = 2 * (self.metadata.space_width * fs);
        let step2: i128 = 2 * (self.line_ht * fs);
        let mut y_cursor: i128 = 0;
        let mut verts: Vec<i128> = Vec::new();
        let mut t_coords: Vec<i128> = Vec::new();
        let mut i: usize = 0;
        proof {
            assert(lm.take(0) =~= Seq::<LineModel>::empty());
            assert(ints(verts@) =~= Seq::<int>::empty());
            assert(ints(t_coords@) =~= Seq::<int>::empty());
        }
        while i < lines.len()
            invariant
                i <= lines.len(),
                lines.len() <= MAX_WEIGHT + 2,
                lm == lines_model(lines@),
                forall|k: int| 0 <= k < lines.len() ==> (#[trigger] lines[k]).wf(),
                within(space2 as int, 2 * MEASURE_LIMIT),
                0 <= step2 <= 1_688_824_090_066_950,
                within(one_x as int, MEASURE_LIMIT as int),
                within(one_y as int, MEASURE_LIMIT as int),
                y_cursor == i * step2,
                ints(verts@) == mesh_verts(
                    lines_placed(lm.take(i as int), font_size as int, space2 as int, centered, step2 as int),
                    font_size as int,
                    one_x as int,
                    one_y as int,
                ),
                ints(t_coords@) == mesh_tex(
                    lines_placed(lm.take(i as int), font_size as int, space2 as int, centered, step2 as int),
                ),
            decreases lines.len() - i,
        {
            let line = &lines[i];
            let ghost head = lm.take(i as int);
            let ghost next = lm.take(i + 1);
            proof {
                assert(next.drop_last() =~= head);
                assert(next.last() == line@);
                assert(0 <= i * step2 <= 715_827_884 * 1_688_824_090_066_950) by (nonlinear_arith)
                    requires
                        0 <= i <= 715_827_884,
                        0 <= step2 <= 1_688_824_090_066_950,
                ;
                assert((i + 1) * step2 == i * step2 + step2) by (nonlinear_arith);
            }
            add_verts_for_line(
                &mut verts,
                &mut t_coords,
                line,
                centered,
                y_cursor,
                space2,
                font_size,
                one_x,
                one_y,
            );
            proof {
                let f = font_size as int;
                let placed_head = lines_placed(head, f, space2 as int, centered, step2 as int);
                let placed_line = line_placed(
                    line@.words,
                    f,
                    space2 as int,
                    line_start(line@, centered),
                    y_cursor as int,
                );
                let placed_next = lines_placed(next, f, space2 as int, centered, step2 as int);
                assert(placed_next == placed_head + placed_line);
                lemma_mesh_concat(placed_head, placed_line, f, one_x as int, one_y as int);
                assert(ints(verts@) =~= mesh_verts(placed_next, f, one_x as int, one_y as int));
                assert(ints(t_coords@) =~= mesh_tex(placed_next));
            }
            y_cursor += step2;
            i += 1;
        }
        proof {
            assert(lm.take(lines.len() as int) =~= lm);
            let placed = self.placed_of(old(text)@);
            lemma_mesh_len(placed, font_size as int, one_x as int, one_y as int);
            lemma_lines_placed_len(lm, font_size as int, space2 as int, centered, step2 as int);
            assert(ints(verts@).len() == verts@.len());
        }
        RTextMesh::new(verts, t_coords, one_x as u128, one_y as u128, self.metadata.image_width)
    }
}

/// Equal numbers make equal buffers.
pub proof fn lemma_ints_injective(a: Seq<i128>, b: Seq<i128>)
    requires
        ints(a) == ints(b),
    ensures
        a == b,
{
    assert(a.len() == ints(a).len());
    assert(b.len() == ints(b).len());
    assert forall|i: int| 0 <= i < a.len() implies a[i] == b[i] by {
        assert(ints(a)[i] == a[i] as int);
        assert(ints(b)[i] == b[i] as int);
    }
    assert(a =~= b);
}

/// The lines and the buffers of a text, however long the text, are
/// determined by the text, its font size, the width of its lines, whether it
/// is centred, and the glyphs and measures of the font: two fonts that agree
/// in these give the same lines, the same placed glyphs and the same numbers
/// in both buffers.
pub proof fn lemma_mesh_model_determined(a: RTextMeshCreator, b: RTextMeshCreator, text: TextModel)
    requires
        a.metadata.metadata@ == b.metadata.metadata@,
        a.metadata.space_width == b.metadata.space_width,
        a.metadata@.horizontal_den() == b.metadata@.horizontal_den(),
        a.metadata@.vertical_den() == b.metadata@.vertical_den(),
        a.line_ht == b.line_ht,
    ensures
        a.lines_of(text) == b.lines_of(text),
        a.placed_of(text) == b.placed_of(text),
        mesh_verts(a.placed_of(text), text.font_size as int, a.one_x(), a.one_y()) == mesh_verts(
            b.placed_of(text),
            text.font_size as int,
            b.one_x(),
            b.one_y(),
        ),
        mesh_tex(a.placed_of(text)) == mesh_tex(b.placed_of(text)),
{
}

/// The mesh is determined by the text, its font size, the width of its
/// lines, whether it is centred, and the font's table: two meshes of texts
/// that agree in these, in fonts that agree in their glyphs and measures,
/// hold the same buffers, number for number. This holds of texts of any
/// length.
pub proof fn lemma_mesh_determined(
    a: RTextMeshCreator,
    b: RTextMeshCreator,
    text_a: TextModel,
    text_b: TextModel,
    mesh_a: RTextMesh,
    mesh_b: RTextMesh,
)
    requires
        a.is_mesh_of(text_a, mesh_a),
        b.is_mesh_of(text_b, mesh_b),
        text_a == text_b,
        a.metadata.metadata@ == b.metadata.metadata@,
        a.metadata.space_width == b.metadata.space_width,
        a.metadata.image_width == b.metadata.image_width,
        a.metadata@.horizontal_den() == b.metadata@.horizontal_den(),
        a.metadata@.vertical_den() == b.metadata@.vertical_den(),
        a.line_ht == b.line_ht,
    ensures
        mesh_a.verts@ == mesh_b.verts@,
        mesh_a.tex_coords@ == mesh_b.tex_coords@,
        mesh_a.vert_count == mesh_b.vert_count,
        mesh_a.x_den == mesh_b.x_den,
        mesh_a.y_den == mesh_b.y_den,
        mesh_a.tex_den == mesh_b.tex_den,
{
    assert(a.lines_of(text_a) == b.lines_of(text_b));
    assert(a.placed_of(text_a) == b.placed_of(text_b));
    lemma_ints_injective(mesh_a.verts@, mesh_b.verts@);
    lemma_ints_injective(mesh_a.tex_coords@, mesh_b.tex_coords@);
}

} // verus!
