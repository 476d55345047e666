//! The font metrics table: the records of a font description, and the glyph
//! metrics derived from them for a given display.

use std::collections::HashMap;
use vstd::prelude::*;
use vstd::slice::slice_subrange;
use vstd::string::StringSliceAdditionalSpecFns;
use crate::text::scan::{lemma_split_step, split};
use crate::text::{
    within, RChar, GLYPH_LIMIT, LINE_HEIGHT_DEN, LINE_HEIGHT_NUM, SPACE_ASCII,
};
use crate::text::scan::{
    blanks, end_of, number, quoted, signed, spec_field, spec_item, spec_signed_field, spec_tag,
    spec_text_field, tag, value_of,
};

verus! {

/// The largest value of a field that is read as an unsigned number.
pub const FIELD_MAX: u64 = 0xffff_ffff;

/// The largest value of a field that is read as a pixel count or a pixel
/// offset.
pub const PIXEL_MAX: u64 = 0x7fff_ffff;

/// The `info` record: the face and how it was rendered into the atlas.
pub struct InfoVars {
    pub face: Vec<u8>,
    pub size: u32,
    pub bold: u32,
    pub italic: u32,
    pub charset: Vec<u8>,
    pub unicode: u32,
    pub stretch_h: u32,
    pub smooth: u32,
    pub aa: u32,
    pub padding: Vec<u32>,
    pub spacing: Vec<u32>,
}

/// What an `info` record holds, as mathematical values.
pub struct InfoModel {
    pub face: Seq<u8>,
    pub size: u32,
    pub bold: u32,
    pub italic: u32,
    pub charset: Seq<u8>,
    pub unicode: u32,
    pub stretch_h: u32,
    pub smooth: u32,
    pub aa: u32,
    pub padding: Seq<u32>,
    pub spacing: Seq<u32>,
}

impl View for InfoVars {
    type V = InfoModel;

    open spec fn view(&self) -> InfoModel {
        InfoModel {
            face: self.face@,
            size: self.size,
            bold: self.bold,
            italic: self.italic,
            charset: self.charset@,
            unicode: self.unicode,
            stretch_h: self.stretch_h,
            smooth: self.smooth,
            aa: self.aa,
            padding: self.padding@,
            spacing: self.spacing@,
        }
    }
}

/// The `common` record: line height and atlas dimensions, in pixels.
#[derive(Clone, Copy)]
pub struct CommonVars {
    pub line_height: u32,
    pub base: u32,
    pub scale_w: u32,
    pub scale_h: u32,
    pub pages: u32,
    pub packed: u32,
}

/// The `page` record: which image holds the atlas.
pub struct PageVars {
    pub id: u32,
    pub file: Vec<u8>,
}

/// What a `page` record holds, as mathematical values.
pub struct PageModel {
    pub id: u32,
    pub file: Seq<u8>,
}

impl View for PageVars {
    type V = PageModel;

    open spec fn view(&self) -> PageModel {
        PageModel { id: self.id, file: self.file@ }
    }
}

/// A `char` record: where a glyph lies in the atlas and how it is placed,
/// in whole pixels. The two offsets may be negative.
#[derive(Clone, Copy)]
pub struct CharVars {
    pub id: u32,
    pub x: i32,
    pub y: i32,
    pub width: i32,
    pub height: i32,
    pub xoffset: i32,
    pub yoffset: i32,
    pub xadvance: i32,
    pub page: u32,
    pub chnl: u32,
}

/// The `info` record that a line holds, if it is one.
#[verifier::opaque]
pub open spec fn spec_info(s: Seq<u8>) -> Option<InfoModel> {
    let start = spec_tag(s, Some(0), "info".spec_bytes());
    let face = spec_text_field(s, start, "face=\"".spec_bytes());
    let size = spec_field(s, end_of(face), "size=".spec_bytes(), FIELD_MAX as int);
    let bold = spec_field(s, end_of(size), "bold=".spec_bytes(), FIELD_MAX as int);
    let italic = spec_field(s, end_of(bold), "italic=".spec_bytes(), FIELD_MAX as int);
    let charset = spec_text_field(s, end_of(italic), "charset=\"".spec_bytes());
    let unicode = spec_field(s, end_of(charset), "unicode=".spec_bytes(), FIELD_MAX as int);
    let stretch_h = spec_field(s, end_of(unicode), "stretchH=".spec_bytes(), FIELD_MAX as int);
    let smooth = spec_field(s, end_of(stretch_h), "smooth=".spec_bytes(), FIELD_MAX as int);
    let aa = spec_field(s, end_of(smooth), "aa=".spec_bytes(), FIELD_MAX as int);
    let pad_top = spec_field(s, end_of(aa), "padding=".spec_bytes(), FIELD_MAX as int);
    let pad_left = spec_item(s, end_of(pad_top), 0x2c, FIELD_MAX as int);
    let pad_bottom = spec_item(s, end_of(pad_left), 0x2c, FIELD_MAX as int);
    let pad_right = spec_item(s, end_of(pad_bottom), 0x2c, FIELD_MAX as int);
    let space_x = spec_field(s, end_of(pad_right), "spacing=".spec_bytes(), FIELD_MAX as int);
    let space_y = spec_item(s, end_of(space_x), 0x2c, FIELD_MAX as int);
    if space_y is Some {
        Some(
            InfoModel {
                face: value_of(face),
                size: value_of(size) as u32,
                bold: value_of(bold) as u32,
                italic: value_of(italic) as u32,
                charset: value_of(charset),
                unicode: value_of(unicode) as u32,
                stretch_h: value_of(stretch_h) as u32,
                smooth: value_of(smooth) as u32,
                aa: value_of(aa) as u32,
                padding: seq![
                    value_of(pad_top) as u32,
                    value_of(pad_left) as u32,
                    value_of(pad_bottom) as u32,
                    value_of(pad_right) as u32,
                ],
                spacing: seq![value_of(space_x) as u32, value_of(space_y) as u32],
            },
        )
    } else {
        None
    }
}

/// The `common` record that a line holds, if it is one.
#[verifier::opaque]
pub open spec fn spec_common(s: Seq<u8>) -> Option<CommonVars> {
    let start = spec_tag(s, Some(0), "common".spec_bytes());
    let line_height = spec_field(s, start, "lineHeight=".spec_bytes(), FIELD_MAX as int);
    let base = spec_field(s, end_of(line_height), "base=".spec_bytes(), FIELD_MAX as int);
    let scale_w = spec_field(s, end_of(base), "scaleW=".spec_bytes(), FIELD_MAX as int);
    let scale_h = spec_field(s, end_of(scale_w), "scaleH=".spec_bytes(), FIELD_MAX as int);
    let pages = spec_field(s, end_of(scale_h), "pages=".spec_bytes(), FIELD_MAX as int);
    let packed = spec_field(s, end_of(pages), "packed=".spec_bytes(), FIELD_MAX as int);
    if packed is Some {
        Some(
            CommonVars {
                line_height: value_of(line_height) as u32,
                base: value_of(base) as u32,
                scale_w: value_of(scale_w) as u32,
                scale_h: value_of(scale_h) as u32,
                pages: value_of(pages) as u32,
                packed: value_of(packed) as u32,
            },
        )
    } else {
        None
    }
}

/// The `page` record that a line holds, if it is one.
#[verifier::opaque]
pub open spec fn spec_page(s: Seq<u8>) -> Option<PageModel> {
    let start = spec_tag(s, Some(0), "page".spec_bytes());
    let id = spec_field(s, start, "id=".spec_bytes(), FIELD_MAX as int);
    let file = spec_text_field(s, end_of(id), "file=\"".spec_bytes());
    if file is Some {
        Some(PageModel { id: value_of(id) as u32, file: value_of(file) })
    } else {
        None
    }
}

/// The glyph count that a `chars` line announces, if it is one.
#[verifier::opaque]
pub open spec fn spec_char_count(s: Seq<u8>) -> Option<u32> {
    let start = spec_tag(s, Some(0), "chars".spec_bytes());
    let count = spec_field(s, start, "count=".spec_bytes(), FIELD_MAX as int);
    if count is Some {
        Some(value_of(count) as u32)
    } else {
        None
    }
}

/// The `char` record that a line holds, if it is one. Position, size and
/// advance are runs of digits; `xoffset` and `yoffset` are runs of digits
/// behind an optional sign, whole pixel counts like the others. A point or
/// an exponent behind the digits is not part of the number, so that a
/// record with such an offset is none.
#[verifier::opaque]
pub open spec fn spec_char(s: Seq<u8>) -> Option<CharVars> {
    let start = spec_tag(s, Some(0), "char".spec_bytes());
    let id = spec_field(s, start, "id=".spec_bytes(), FIELD_MAX as int);
    let x = spec_field(s, end_of(id), "x=".spec_bytes(), PIXEL_MAX as int);
    let y = spec_field(s, end_of(x), "y=".spec_bytes(), PIXEL_MAX as int);
    let width = spec_field(s, end_of(y), "width=".spec_bytes(), PIXEL_MAX as int);
    let height = spec_field(s, end_of(width), "height=".spec_bytes(), PIXEL_MAX as int);
    let xoffset = spec_signed_field(s, end_of(height), "xoffset=".spec_bytes(), PIXEL_MAX as int);
    let yoffset = spec_signed_field(s, end_of(xoffset), "yoffset=".spec_bytes(), PIXEL_MAX as int);
    let xadvance = spec_field(s, end_of(yoffset), "xadvance=".spec_bytes(), PIXEL_MAX as int);
    let page = spec_field(s, end_of(xadvance), "page=".spec_bytes(), FIELD_MAX as int);
    let chnl = spec_field(s, end_of(page), "chnl=".spec_bytes(), FIELD_MAX as int);
    if chnl is Some {
        Some(
            CharVars {
                id: value_of(id) as u32,
                x: value_of(x) as i32,
                y: value_of(y) as i32,
                width: value_of(width) as i32,
                height: value_of(height) as i32,
                xoffset: value_of(xoffset) as i32,
                yoffset: value_of(yoffset) as i32,
                xadvance: value_of(xadvance) as i32,
                page: value_of(page) as u32,
                chnl: value_of(chnl) as u32,
            },
        )
    } else {
        None
    }
}

/// Reads blanks, the key and an unsigned number of at most `max`.
fn field(s: &[u8], pos: usize, key: &[u8], max: u64) -> (r: Option<(u32, usize)>)
    requires
        max <= FIELD_MAX,
    ensures
        match r {
            Some((v, e)) => spec_field(s@, Some(pos as int), key@, max as int) == Some((v as int, e as int)),
            None => spec_field(s@, Some(pos as int), key@, max as int) is None,
        },
{
    let after_blanks = blanks(s, pos)?;
    let after_key = tag(s, after_blanks, key)?;
    let (value, end) = number(s, after_key, max)?;
    Some((value as u32, end))
}

/// Reads blanks, the key and a signed pixel count.
fn signed_field(s: &[u8], pos: usize, key: &[u8]) -> (r: Option<(i32, usize)>)
    ensures
        match r {
            Some((v, e)) => spec_signed_field(s@, Some(pos as int), key@, PIXEL_MAX as int) == Some(
                (v as int, e as int),
            ),
            None => spec_signed_field(s@, Some(pos as int), key@, PIXEL_MAX as int) is None,
        },
{
    let after_blanks = blanks(s, pos)?;
    let after_key = tag(s, after_blanks, key)?;
    let (value, end) = signed(s, after_key, PIXEL_MAX)?;
    Some((value as i32, end))
}

/// Reads blanks, the key with its opening quote and the text up to the
/// closing quote.
fn text_field(s: &[u8], pos: usize, key: &[u8]) -> (r: Option<(Vec<u8>, usize)>)
    ensures
        match r {
            Some((v, e)) => spec_text_field(s@, Some(pos as int), key@) == Some((v@, e as int)),
            None => spec_text_field(s@, Some(pos as int), key@) is None,
        },
{
    let after_blanks = blanks(s, pos)?;
    let after_key = tag(s, after_blanks, key)?;
    quoted(s, after_key)
}

/// Reads a comma and an unsigned number.
fn item(s: &[u8], pos: usize) -> (r: Option<(u32, usize)>)
    ensures
        match r {
            Some((v, e)) => spec_item(s@, Some(pos as int), 0x2c, FIELD_MAX as int) == Some((v as int, e as int)),
            None => spec_item(s@, Some(pos as int), 0x2c, FIELD_MAX as int) is None,
        },
{
    if pos < s.len() && s[pos] == 0x2c {
        assert(s@.subrange(pos as int, pos + 1) =~= seq![0x2cu8]);
        let (value, end) = number(s, pos + 1, FIELD_MAX)?;
        Some((value as u32, end))
    } else {
        assert(pos < s.len() ==> s@.subrange(pos as int, pos + 1)[0] == s@[pos as int]);
        None
    }
}

/// Reads an `info` record from a line.
pub fn get_info(line: &[u8]) -> (r: Option<InfoVars>)
    ensures
        match r {
            Some(info) => spec_info(line@) == Some(info@),
            None => spec_info(line@) is None,
        },
{
    reveal(spec_info);
    let start = tag(line, 0, "info".as_bytes())?;
    let (face, p) = text_field(line, start, "face=\"".as_bytes())?;
    let (size, p) = field(line, p, "size=".as_bytes(), FIELD_MAX)?;
    let (bold, p) = field(line, p, "bold=".as_bytes(), FIELD_MAX)?;
    let (italic, p) = field(line, p, "italic=".as_bytes(), FIELD_MAX)?;
    let (charset, p) = text_field(line, p, "charset=\"".as_bytes())?;
    let (unicode, p) = field(line, p, "unicode=".as_bytes(), FIELD_MAX)?;
    let (stretch_h, p) = field(line, p, "stretchH=".as_bytes(), FIELD_MAX)?;
    let (smooth, p) = field(line, p, "smooth=".as_bytes(), FIELD_MAX)?;
    let (aa, p) = field(line, p, "aa=".as_bytes(), FIELD_MAX)?;
    let (pad_top, p) = field(line, p, "padding=".as_bytes(), FIELD_MAX)?;
    let (pad_left, p) = item(line, p)?;
    let (pad_bottom, p) = item(line, p)?;
    let (pad_right, p) = item(line, p)?;
    let (space_x, p) = field(line, p, "spacing=".as_bytes(), FIELD_MAX)?;
    let (space_y, _) = item(line, p)?;
    let mut padding: Vec<u32> = Vec::new();
    padding.push(pad_top);
    padding.push(pad_left);
    padding.push(pad_bottom);
    padding.push(pad_right);
    let mut spacing: Vec<u32> = Vec::new();
    spacing.push(space_x);
    spacing.push(space_y);
    let info = InfoVars {
        face,
        size,
        bold,
        italic,
        charset,
        unicode,
        stretch_h,
        smooth,
        aa,
        padding,
        spacing,
    };
    proof {
        let m = spec_info(line@);
        assert(m is Some);
        assert(info@.padding =~= m->0.padding);
        assert(info@.spacing =~= m->0.spacing);
    }
    Some(info)
}

/// Reads a `common` record from a line.
pub fn get_common(line: &[u8]) -> (r: Option<CommonVars>)
    ensures
        r == spec_common(line@),
{
    reveal(spec_common);
    let start = tag(line, 0, "common".as_bytes())?;
    let (line_height, p) = field(line, start, "lineHeight=".as_bytes(), FIELD_MAX)?;
    let (base, p) = field(line, p, "base=".as_bytes(), FIELD_MAX)?;
    let (scale_w, p) = field(line, p, "scaleW=".as_bytes(), FIELD_MAX)?;
    let (scale_h, p) = field(line, p, "scaleH=".as_bytes(), FIELD_MAX)?;
    let (pages, p) = field(line, p, "pages=".as_bytes(), FIELD_MAX)?;
    let (packed, _) = field(line, p, "packed=".as_bytes(), FIELD_MAX)?;
    Some(CommonVars { line_height, base, scale_w, scale_h, pages, packed })
}

/// Reads a `page` record from a line.
pub fn get_page(line: &[u8]) -> (r: Option<PageVars>)
    ensures
        match r {
            Some(page) => spec_page(line@) == Some(page@),
            None => spec_page(line@) is None,
        },
{
    reveal(spec_page);
    let start = tag(line, 0, "page".as_bytes())?;
    let (id, p) = field(line, start, "id=".as_bytes(), FIELD_MAX)?;
    let (file, _) = text_field(line, p, "file=\"".as_bytes())?;
    Some(PageVars { id, file })
}

/// Reads the glyph count from a `chars` line.
pub fn get_char_count(line: &[u8]) -> (r: Option<u32>)
    ensures
        r == spec_char_count(line@),
{
    reveal(spec_char_count);
    let start = tag(line, 0, "chars".as_bytes())?;
    let (count, _) = field(line, start, "count=".as_bytes(), FIELD_MAX)?;
    Some(count)
}

/// Reads a `char` record from a line.
pub fn get_char(line: &[u8]) -> (r: Option<CharVars>)
    ensures
        r == spec_char(line@),
{
    reveal(spec_char);
    let start = tag(line, 0, "char".as_bytes())?;
    let (id, p) = field(line, start, "id=".as_bytes(), FIELD_MAX)?;
    let (x, p) = field(line, p, "x=".as_bytes(), PIXEL_MAX)?;
    let (y, p) = field(line, p, "y=".as_bytes(), PIXEL_MAX)?;
    let (width, p) = field(line, p, "width=".as_bytes(), PIXEL_MAX)?;
    let (height, p) = field(line, p, "height=".as_bytes(), PIXEL_MAX)?;
    let (xoffset, p) = signed_field(line, p, "xoffset=".as_bytes())?;
    let (yoffset, p) = signed_field(line, p, "yoffset=".as_bytes())?;
    let (xadvance, p) = field(line, p, "xadvance=".as_bytes(), PIXEL_MAX)?;
    let (page, p) = field(line, p, "page=".as_bytes(), FIELD_MAX)?;
    let (chnl, _) = field(line, p, "chnl=".as_bytes(), FIELD_MAX)?;
    Some(
        CharVars {
            id,
            x: x as i32,
            y: y as i32,
            width: width as i32,
            height: height as i32,
            xoffset,
            yoffset,
            xadvance: xadvance as i32,
            page,
            chnl,
        },
    )
}

/// Why a font description was not accepted.
#[derive(Clone, Copy, Debug, PartialEq, Eq, Structural)]
pub enum MetaError {
    /// The line with this index, counted from zero, begins like a record
    /// but does not follow the record's grammar. Every number of a record
    /// is a whole number; a `char` record whose offset has a fraction or an
    /// exponent is malformed.
    Malformed { line: usize },
    /// There is no `info` record.
    MissingInfo,
    /// There is no `common` record.
    MissingCommon,
    /// The line height is not greater than the vertical padding.
    LineHeight,
    /// The atlas has no width.
    AtlasWidth,
    /// The display has no width or no height.
    Display,
}

/// The records of a font description, as mathematical values: the last
/// `info`, `common` and `page` record and the last announced glyph count,
/// and every `char` record in order.
pub struct FontRecords {
    pub info: Option<InfoModel>,
    pub common: Option<CommonVars>,
    pub page: Option<PageModel>,
    pub count: u32,
    pub chars: Seq<CharVars>,
}

/// The line begins with `prefix`.
pub open spec fn starts_with(line: Seq<u8>, prefix: Seq<u8>) -> bool {
    spec_tag(line, Some(0), prefix) is Some
}

/// The line is no record, or a record that follows its grammar.
pub open spec fn line_ok(line: Seq<u8>) -> bool {
    if starts_with(line, "info ".spec_bytes()) {
        spec_info(line) is Some
    } else if starts_with(line, "common ".spec_bytes()) {
        spec_common(line) is Some
    } else if starts_with(line, "page ".spec_bytes()) {
        spec_page(line) is Some
    } else if starts_with(line, "chars ".spec_bytes()) {
        spec_char_count(line) is Some
    } else if starts_with(line, "char ".spec_bytes()) {
        spec_char(line) is Some
    } else {
        true
    }
}

/// The records after a further line. A line that is no record changes
/// nothing.
pub open spec fn with_line(r: FontRecords, line: Seq<u8>) -> FontRecords {
    if starts_with(line, "info ".spec_bytes()) {
        FontRecords { info: spec_info(line), ..r }
    } else if starts_with(line, "common ".spec_bytes()) {
        FontRecords { common: spec_common(line), ..r }
    } else if starts_with(line, "page ".spec_bytes()) {
        FontRecords { page: spec_page(line), ..r }
    } else if starts_with(line, "chars ".spec_bytes()) {
        FontRecords { count: spec_char_count(line)->0, ..r }
    } else if starts_with(line, "char ".spec_bytes()) {
        FontRecords { chars: r.chars.push(spec_char(line)->0), ..r }
    } else {
        r
    }
}

/// The records that the lines hold.
pub open spec fn read_lines(lines: Seq<Seq<u8>>) -> FontRecords
    decreases lines.len(),
{
    if lines.len() == 0 {
        FontRecords { info: None, common: None, page: None, count: 0, chars: Seq::empty() }
    } else {
        with_line(read_lines(lines.drop_last()), lines.last())
    }
}

/// Every line is no record, or a record that follows its grammar.
pub open spec fn lines_ok(lines: Seq<Seq<u8>>) -> bool {
    forall|i: int| 0 <= i < lines.len() ==> line_ok(#[trigger] lines[i])
}

/// The lines of a font description.
pub open spec fn lines_of(source: Seq<u8>) -> Seq<Seq<u8>> {
    split(source, 0x0a)
}

/// The records read so far.
pub struct Records {
    pub info: Option<InfoVars>,
    pub common: Option<CommonVars>,
    pub page: Option<PageVars>,
    pub count: u32,
    pub chars: Vec<CharVars>,
}

impl View for Records {
    type V = FontRecords;

    open spec fn view(&self) -> FontRecords {
        FontRecords {
            info: match self.info {
                Some(i) => Some(i@),
                None => None,
            },
            common: self.common,
            page: match self.page {
                Some(p) => Some(p@),
                None => None,
            },
            count: self.count,
            chars: self.chars@,
        }
    }
}

/// Whether the line begins with `prefix`.
fn has_prefix(line: &[u8], prefix: &[u8]) -> (b: bool)
    ensures
        b == starts_with(line@, prefix@),
{
    tag(line, 0, prefix).is_some()
}

/// Reads one line into the records. The result says whether the line was
/// accepted; a line that was not accepted changes nothing.
fn read_line(rec: &mut Records, line: &[u8]) -> (ok: bool)
    ensures
        ok == line_ok(line@),
        ok ==> final(rec)@ == with_line(old(rec)@, line@),
        !ok ==> *final(rec) == *old(rec),
{
    if has_prefix(line, "info ".as_bytes()) {
        match get_info(line) {
            Some(info) => {
                rec.info = Some(info);
                true
            },
            None => false,
        }
    } else if has_prefix(line, "common ".as_bytes()) {
        match get_common(line) {
            Some(common) => {
                rec.common = Some(common);
                true
            },
            None => false,
        }
    } else if has_prefix(line, "page ".as_bytes()) {
        match get_page(line) {
            Some(page) => {
                rec.page = Some(page);
                true
            },
            None => false,
        }
    } else if has_prefix(line, "chars ".as_bytes()) {
        match get_char_count(line) {
            Some(count) => {
                rec.count = count;
                true
            },
            None => false,
        }
    } else if has_prefix(line, "char ".as_bytes()) {
        match get_char(line) {
            Some(chr) => {
                rec.chars.push(chr);
                true
            },
            None => false,
        }
    } else {
        true
    }
}

/// Reads the records of a font description. The error is the index of the
/// first line that was not accepted.
pub fn read_records(source: &[u8]) -> (r: Result<Records, usize>)
    ensures
        match r {
            Ok(rec) => lines_ok(lines_of(source@)) && rec@ == read_lines(lines_of(source@)),
            Err(line) => {
                &&& line < lines_of(source@).len()
                &&& !line_ok(lines_of(source@)[line as int])
                &&& forall|j: int| 0 <= j < line ==> line_ok(#[trigger] lines_of(source@)[j])
            },
        },
{
    let mut rec = Records { info: None, common: None, page: None, count: 0, chars: Vec::new() };
    let mut bad: Option<usize> = None;
    let mut start: usize = 0;
    let mut done: usize = 0;
    let mut i: usize = 0;
    proof {
        assert(source@.take(0) =~= Seq::<u8>::empty());
        assert(source@.subrange(0, 0) =~= Seq::<u8>::empty());
        assert(split(Seq::<u8>::empty(), 0x0a).drop_last() =~= Seq::<Seq<u8>>::empty());
    }
    while i < source.len()
        invariant
            start <= i <= source.len(),
            done <= i,
            split(source@.take(i as int), 0x0a).len() == done + 1,
            split(source@.take(i as int), 0x0a).last() == source@.subrange(start as int, i as int),
            match bad {
                None => {
                    &&& rec@ == read_lines(split(source@.take(i as int), 0x0a).drop_last())
                    &&& forall|j: int| 0 <= j < done ==> line_ok(#[trigger] split(source@.take(i as int), 0x0a)[j])
                },
                Some(line) => {
                    &&& line < done
                    &&& !line_ok(split(source@.take(i as int), 0x0a)[line as int])
                    &&& forall|j: int| 0 <= j < line ==> line_ok(#[trigger] split(source@.take(i as int), 0x0a)[j])
                },
            },
        decreases source.len() - i,
    {
        let ghost before = split(source@.take(i as int), 0x0a);
        let ghost after = split(source@.take(i + 1), 0x0a);
        proof {
            lemma_split_step(source@, i as int, 0x0a);
        }
        if source[i] == 0x0a {
            if bad.is_none() {
                let line = slice_subrange(source, start, i);
                let ok = read_line(&mut rec, line);
                proof {
                    assert(after.drop_last() =~= before);
                    assert(before.drop_last().push(before.last()) =~= before);
                }
                if !ok {
                    bad = Some(done);
                }
            }
            start = i + 1;
            done = done + 1;
            proof {
                assert(source@.subrange(start as int, i + 1) =~= Seq::<u8>::empty());
            }
        } else {
            proof {
                assert(after.drop_last() =~= before.drop_last());
                assert(source@.subrange(start as int, i + 1) =~= source@.subrange(start as int, i as int).push(
                    source@[i as int],
                ));
            }
        }
        i += 1;
    }
    proof {
        assert(source@.take(source.len() as int) =~= source@);
    }
    let ghost lines = lines_of(source@);
    match bad {
        Some(line) => Err(line),
        None => {
            let line = slice_subrange(source, start, source.len());
            let ok = read_line(&mut rec, line);
            proof {
                assert(lines.drop_last().push(lines.last()) =~= lines);
            }
            if ok {
                Ok(rec)
            } else {
                Err(done)
            }
        },
    }
}

/// The index of the top padding in an `info` record's padding list.
pub const PAD_TOP: usize = 0;

/// The index of the left padding.
pub const PAD_LEFT: usize = 1;

/// The index of the bottom padding.
pub const PAD_BOTTOM: usize = 2;

/// The index of the right padding.
pub const PAD_RIGHT: usize = 3;

/// The padding, in pixels, that is kept around every glyph.
pub const DESIRED_PADDING: i128 = 8;

/// A positive fraction: what one pixel of the atlas measures on the display.
#[derive(Clone, Copy, Debug, PartialEq, Eq, Structural)]
pub struct Ratio {
    pub num: u128,
    pub den: u128,
}

/// What determines a font metrics table: the display's dimensions and what
/// the font description says.
pub struct MetaModel {
    pub display_width: u32,
    pub display_height: u32,
    pub padding: Seq<u32>,
    pub line_height: u32,
    pub image_width: u32,
    pub chars: Seq<CharVars>,
}

impl MetaModel {
    /// Left and right padding together.
    pub open spec fn padding_width(self) -> int {
        self.padding[PAD_LEFT as int] + self.padding[PAD_RIGHT as int]
    }

    /// Top and bottom padding together.
    pub open spec fn padding_height(self) -> int {
        self.padding[PAD_TOP as int] + self.padding[PAD_BOTTOM as int]
    }

    /// The height of a line in pixels, without the padding.
    pub open spec fn line_height_pixels(self) -> int {
        self.line_height - self.padding_height()
    }

    /// The table can be built: there are four paddings, the line height
    /// exceeds the vertical padding, and atlas and display are not empty.
    pub open spec fn valid(self) -> bool {
        &&& self.padding.len() == 4
        &&& self.line_height_pixels() > 0
        &&& self.image_width > 0
        &&& self.display_width > 0
        &&& self.display_height > 0
    }

    /// The denominator of every vertical measure: a line of
    /// `line_height_pixels` pixels is `LINE_HEIGHT_NUM / LINE_HEIGHT_DEN` of the
    /// display's height.
    pub open spec fn vertical_den(self) -> int {
        LINE_HEIGHT_DEN * self.line_height_pixels()
    }

    /// What a vertical pixel count is multiplied by to get a numerator over
    /// `vertical_den`.
    pub open spec fn vertical_num(self) -> int {
        LINE_HEIGHT_NUM as int
    }

    /// The denominator of every horizontal measure. A pixel is as wide as
    /// it is high, so its share of the display's width is its share of the
    /// height divided by the display's aspect ratio, width over height.
    pub open spec fn horizontal_den(self) -> int {
        LINE_HEIGHT_DEN * self.line_height_pixels() * self.display_width
    }

    /// What a horizontal pixel count is multiplied by to get a numerator
    /// over `horizontal_den`.
    pub open spec fn horizontal_num(self) -> int {
        LINE_HEIGHT_NUM * self.display_height
    }

    /// The glyph of a `char` record: the atlas rectangle and the offsets are
    /// moved inwards by the padding beyond `DESIRED_PADDING`, the advance
    /// loses the padding, and pixels become numerators.
    pub open spec fn glyph(self, c: CharVars) -> RChar {
        let shift_x = self.padding[PAD_LEFT as int] - DESIRED_PADDING;
        let shift_y = self.padding[PAD_TOP as int] - DESIRED_PADDING;
        let width = c.width - (self.padding_width() - 2 * DESIRED_PADDING);
        let height = c.height - (self.padding_height() - 2 * DESIRED_PADDING);
        RChar {
            id: c.id,
            x_tex: (c.x + shift_x) as i128,
            y_tex: (c.y + shift_y) as i128,
            x_tex_max: (c.x + shift_x + width) as i128,
            y_tex_max: (c.y + shift_y + height) as i128,
            x_offset: ((c.xoffset + shift_x) * self.horizontal_num()) as i128,
            y_offset: ((c.yoffset + shift_y) * self.vertical_num()) as i128,
            x_size: (width * self.horizontal_num()) as i128,
            y_size: (height * self.vertical_num()) as i128,
            x_advance: ((c.xadvance - self.padding_width()) * self.horizontal_num()) as i128,
        }
    }

    /// The glyphs of the first `n` records by character code. The space has
    /// no glyph, and of two records with one code the later one counts.
    pub open spec fn glyphs_upto(self, n: int) -> Map<u32, RChar>
        decreases n,
    {
        if n <= 0 {
            Map::empty()
        } else {
            let c = self.chars[n - 1];
            if c.id == SPACE_ASCII {
                self.glyphs_upto(n - 1)
            } else {
                self.glyphs_upto(n - 1).insert(c.id, self.glyph(c))
            }
        }
    }

    /// The glyphs by character code.
    pub open spec fn glyphs(self) -> Map<u32, RChar> {
        self.glyphs_upto(self.chars.len() as int)
    }

    /// The width of a space after the first `n` records: the advance of the
    /// last record for the space, without the padding; where there is none,
    /// as much as a line is high.
    pub open spec fn space_width_upto(self, n: int) -> int
        decreases n,
    {
        if n <= 0 {
            LINE_HEIGHT_NUM * self.line_height_pixels() * self.display_width
        } else {
            let c = self.chars[n - 1];
            if c.id == SPACE_ASCII {
                (c.xadvance - self.padding_width()) * self.horizontal_num()
            } else {
                self.space_width_upto(n - 1)
            }
        }
    }

    /// The width of a space, a numerator over `horizontal_den`.
    pub open spec fn space_width(self) -> int {
        self.space_width_upto(self.chars.len() as int)
    }

    /// The height of a line at font size one, a numerator over
    /// `vertical_den`.
    pub open spec fn line_ht(self) -> int {
        LINE_HEIGHT_NUM * self.line_height_pixels()
    }

    /// The same font on a display of another size.
    pub open spec fn resized(self, width: u32, height: u32) -> MetaModel {
        MetaModel { display_width: width, display_height: height, ..self }
    }
}

/// What a font description and a display determine, if the description has
/// its `info` and `common` record.
pub open spec fn model_of(r: FontRecords, width: u32, height: u32) -> MetaModel {
    MetaModel {
        display_width: width,
        display_height: height,
        padding: r.info->0.padding,
        line_height: r.common->0.line_height,
        image_width: r.common->0.scale_w,
        chars: r.chars,
    }
}

/// Why no table can be built from these records for this display, if so.
pub open spec fn verdict(r: FontRecords, width: u32, height: u32) -> Option<MetaError> {
    if r.info is None {
        Some(MetaError::MissingInfo)
    } else if r.common is None {
        Some(MetaError::MissingCommon)
    } else if model_of(r, width, height).line_height_pixels() <= 0 {
        Some(MetaError::LineHeight)
    } else if r.common->0.scale_w == 0 {
        Some(MetaError::AtlasWidth)
    } else if width == 0 || height == 0 {
        Some(MetaError::Display)
    } else {
        None
    }
}

/// Every glyph of a valid table is bounded.
pub proof fn lemma_glyph_bounded(m: MetaModel, c: CharVars)
    requires
        m.valid(),
    ensures
        m.glyph(c).bounded(),
        m.glyph(c).x_offset == (c.xoffset + m.padding[PAD_LEFT as int] - DESIRED_PADDING) * m.horizontal_num(),
        m.glyph(c).y_offset == (c.yoffset + m.padding[PAD_TOP as int] - DESIRED_PADDING) * m.vertical_num(),
        m.glyph(c).x_size == (c.width - (m.padding_width() - 2 * DESIRED_PADDING)) * m.horizontal_num(),
        m.glyph(c).y_size == (c.height - (m.padding_height() - 2 * DESIRED_PADDING)) * m.vertical_num(),
        m.glyph(c).x_advance == (c.xadvance - m.padding_width()) * m.horizontal_num(),
        within((c.xadvance - m.padding_width()) * m.horizontal_num(), GLYPH_LIMIT as int),
{
    let hn = m.horizontal_num();
    assert(0 < hn <= 3 * 0xffff_ffff);
    assert forall|px: int| within(px, 0x4_0000_0000) implies within(#[trigger] (px * hn), GLYPH_LIMIT as int) by {
        assert(within(px * hn, GLYPH_LIMIT as int)) by (nonlinear_arith)
            requires
                within(px, 0x4_0000_0000),
                0 < hn <= 3 * 0xffff_ffff,
        ;
    }
    let shift_x = m.padding[PAD_LEFT as int] - DESIRED_PADDING;
    let width = c.width - (m.padding_width() - 2 * DESIRED_PADDING);
    assert(within(c.xoffset + shift_x, 0x4_0000_0000));
    assert(within(width, 0x4_0000_0000));
    assert(within(c.xadvance - m.padding_width(), 0x4_0000_0000));
    assert(within((c.xoffset + shift_x) * hn, GLYPH_LIMIT as int));
    assert(within(width * hn, GLYPH_LIMIT as int));
    assert(within((c.xadvance - m.padding_width()) * hn, GLYPH_LIMIT as int));
    let shift_y = m.padding[PAD_TOP as int] - DESIRED_PADDING;
    let height = c.height - (m.padding_height() - 2 * DESIRED_PADDING);
    assert(m.vertical_num() == 3);
    assert((c.yoffset + shift_y) * m.vertical_num() == 3 * (c.yoffset + shift_y));
    assert(height * m.vertical_num() == 3 * height);
}

/// The width of a space in a valid table is bounded.
pub proof fn lemma_space_width_bounded(m: MetaModel, n: int)
    requires
        m.valid(),
        0 <= n <= m.chars.len(),
    ensures
        within(m.space_width_upto(n), GLYPH_LIMIT as int),
    decreases n,
{
    if n <= 0 {
        let lh = m.line_height_pixels();
        let dw = m.display_width as int;
        assert(0 <= 3 * lh * dw <= 3 * 0xffff_ffff * 0xffff_ffff) by (nonlinear_arith)
            requires
                0 < lh <= 0xffff_ffff,
                0 < dw <= 0xffff_ffff,
        ;
    } else {
        let c = m.chars[n - 1];
        if c.id == SPACE_ASCII {
            lemma_glyph_bounded(m, c);
        } else {
            lemma_space_width_bounded(m, n - 1);
        }
    }
}

/// An `info` record that was read has four paddings.
pub proof fn lemma_info_has_four_paddings(lines: Seq<Seq<u8>>)
    ensures
        read_lines(lines).info matches Some(info) ==> info.padding.len() == 4,
    decreases lines.len(),
{
    if lines.len() > 0 {
        lemma_info_has_four_paddings(lines.drop_last());
        reveal(spec_info);
    }
}

/// The font metrics table of one font on one display.
pub struct MetaFile {
    pub display_width: u32,
    pub display_height: u32,
    pub vertical_per_pixel_size: Ratio,
    pub horizontal_per_pixel_size: Ratio,
    pub image_width: u32,
    pub space_width: i128,
    pub padding: Vec<u32>,
    pub padding_width: u64,
    pub padding_height: u64,
    pub metadata: HashMap<u32, RChar>,
    pub info: Option<InfoVars>,
    pub common: Option<CommonVars>,
    pub page: Option<PageVars>,
    pub count: u32,
    pub chars: Vec<CharVars>,
}

impl View for MetaFile {
    type V = MetaModel;

    open spec fn view(&self) -> MetaModel {
        MetaModel {
            display_width: self.display_width,
            display_height: self.display_height,
            padding: self.padding@,
            line_height: self.common->0.line_height,
            image_width: self.image_width,
            chars: self.chars@,
        }
    }
}

impl MetaFile {
    /// The records that the table was built from.
    pub open spec fn records(&self) -> FontRecords {
        FontRecords {
            info: match self.info {
                Some(i) => Some(i@),
                None => None,
            },
            common: self.common,
            page: match self.page {
                Some(p) => Some(p@),
                None => None,
            },
            count: self.count,
            chars: self.chars@,
        }
    }

    /// The records are there and valid for the display, and paddings and
    /// pixel sizes are what follows from them.
    pub open spec fn geometry_wf(&self) -> bool {
        &&& self.info is Some
        &&& self.common is Some
        &&& self.padding@ == self.info->0.padding@
        &&& self.image_width == self.common->0.scale_w
        &&& self@.valid()
        &&& self.padding_width == self@.padding_width()
        &&& self.padding_height == self@.padding_height()
        &&& self.vertical_per_pixel_size.num == self@.vertical_num()
        &&& self.vertical_per_pixel_size.den == self@.vertical_den()
        &&& self.horizontal_per_pixel_size.num == self@.horizontal_num()
        &&& self.horizontal_per_pixel_size.den == self@.horizontal_den()
    }

    /// The table is well formed: beyond `geometry_wf`, the glyphs and the
    /// width of the space are what follows from the records.
    pub open spec fn wf(&self) -> bool {
        &&& self.geometry_wf()
        &&& self.metadata@ == self@.glyphs()
        &&& self.space_width == self@.space_width()
    }

    /// The space of a well formed table is bounded, and so is every glyph.
    pub proof fn lemma_wf_bounds(&self)
        requires
            self.wf(),
        ensures
            within(self.space_width as int, GLYPH_LIMIT as int),
            forall|code: u32| #[trigger] self.metadata@.contains_key(code) ==> self.metadata@[code].bounded(),
            !self.metadata@.contains_key(SPACE_ASCII),
    {
        lemma_space_width_bounded(self@, self.chars@.len() as int);
        lemma_glyphs_bounded(self@, self.chars@.len() as int);
    }

    /// What holds of a table `m` that was built from `source` for a display
    /// of the given dimensions.
    pub open spec fn new_ok(display_width: u32, display_height: u32, source: Seq<u8>, m: MetaFile) -> bool {
        &&& lines_ok(lines_of(source))
        &&& verdict(read_lines(lines_of(source)), display_width, display_height) is None
        &&& m.wf()
        &&& m.records() == read_lines(lines_of(source))
        &&& m@ == model_of(m.records(), display_width, display_height)
    }

    /// What holds when `source` is refused with the error `e`: either the
    /// error names the first line that is not accepted, or every line is
    /// accepted and the error is the verdict on the records.
    pub open spec fn new_err(display_width: u32, display_height: u32, source: Seq<u8>, e: MetaError) -> bool {
        match e {
            MetaError::Malformed { line } => {
                &&& line < lines_of(source).len()
                &&& !line_ok(lines_of(source)[line as int])
                &&& forall|j: int| 0 <= j < line ==> line_ok(#[trigger] lines_of(source)[j])
            },
            _ => {
                &&& lines_ok(lines_of(source))
                &&& verdict(read_lines(lines_of(source)), display_width, display_height) == Some(e)
            },
        }
    }

    /// Builds the table of the font that `source` describes, for a display
    /// of the given dimensions.
    ///
    /// The description is read line by line. A line that begins like a
    /// record must follow the record's grammar; other lines are passed
    /// over. The description must hold an `info` and a `common` record.
    pub fn new(display_width: u32, display_height: u32, source: &str) -> (r: Result<Self, MetaError>)
        ensures
            match r {
                Ok(m) => Self::new_ok(display_width, display_height, source.spec_bytes(), m),
                Err(e) => Self::new_err(display_width, display_height, source.spec_bytes(), e),
            },
    {
        let rec = match read_records(source.as_bytes()) {
            Ok(rec) => rec,
            Err(line) => {
                return Err(MetaError::Malformed { line });
            },
        };
        proof {
            lemma_info_has_four_paddings(lines_of(source.spec_bytes()));
        }
        let Records { info, common, page, count, chars } = rec;
        let info = match info {
            Some(info) => info,
            None => {
                return Err(MetaError::MissingInfo);
            },
        };
        let common = match common {
            Some(common) => common,
            None => {
                return Err(MetaError::MissingCommon);
            },
        };
        let mut padding: Vec<u32> = Vec::new();
        let mut n: usize = 0;
        while n < 4
            invariant
                n <= 4,
                info.padding@.len() == 4,
                padding@ == info.padding@.take(n as int),
            decreases 4 - n,
        {
            padding.push(info.padding[n]);
            assert(padding@ =~= info.padding@.take(n + 1));
            n += 1;
        }
        assert(padding@ =~= info.padding@);
        let padding_width: u64 = padding[PAD_LEFT] as u64 + padding[PAD_RIGHT] as u64;
        let padding_height: u64 = padding[PAD_TOP] as u64 + padding[PAD_BOTTOM] as u64;
        if common.line_height as u64 <= padding_height {
            return Err(MetaError::LineHeight);
        }
        if common.scale_w == 0 {
            return Err(MetaError::AtlasWidth);
        }
        if display_width == 0 || display_height == 0 {
            return Err(MetaError::Display);
        }
        let line_height_pixels: u128 = (common.line_height as u64 - padding_height) as u128;
        assert(LINE_HEIGHT_DEN * line_height_pixels * display_width <= 100 * 0xffff_ffff * 0xffff_ffff)
            by (nonlinear_arith)
            requires
                0 < line_height_pixels <= 0xffff_ffff,
                0 < display_width <= 0xffff_ffff,
                LINE_HEIGHT_DEN == 100,
        ;
        let vertical_den: u128 = LINE_HEIGHT_DEN as u128 * line_height_pixels;
        let mut out = Self {
            display_width,
            display_height,
            vertical_per_pixel_size: Ratio { num: LINE_HEIGHT_NUM as u128, den: vertical_den },
            horizontal_per_pixel_size: Ratio {
                num: LINE_HEIGHT_NUM as u128 * display_height as u128,
                den: vertical_den * display_width as u128,
            },
            image_width: common.scale_w,
            space_width: 0,
            padding,
            padding_width,
            padding_height,
            metadata: HashMap::new(),
            info: Some(info),
            common: Some(common),
            page,
            count,
            chars,
        };
        out.load_char_data();
        Ok(out)
    }

    /// The glyph of a character code, if the font has one.
    pub fn get(&self, ascii: u32) -> (r: Option<&RChar>)
        ensures
            match r {
                Some(c) => self.metadata@.contains_key(ascii) && *c == self.metadata@[ascii],
                None => !self.metadata@.contains_key(ascii),
            },
    {
        broadcast use vstd::std_specs::hash::group_hash_axioms;

        self.metadata.get(&ascii)
    }

    /// Adapts the table to a display of other dimensions: the horizontal
    /// pixel size follows the new aspect ratio, the vertical one stays, and
    /// the glyphs are built anew. A display without width or height is
    /// refused, and the table stays as it is.
    pub fn update_size(&mut self, display_width: u32, display_height: u32) -> (ok: bool)
        requires
            old(self).wf(),
        ensures
            ok == (display_width > 0 && display_height > 0),
            ok ==> final(self).wf() && final(self)@ == old(self)@.resized(display_width, display_height)
                && final(self).records() == old(self).records(),
            !ok ==> *final(self) == *old(self),
    {
        if display_width == 0 || display_height == 0 {
            return false;
        }
        let ghost lh = self@.line_height_pixels();
        assert(LINE_HEIGHT_DEN * lh * display_width <= 100 * 0xffff_ffff * 0xffff_ffff) by (nonlinear_arith)
            requires
                0 < lh <= 0xffff_ffff,
                0 < display_width <= 0xffff_ffff,
                LINE_HEIGHT_DEN == 100,
        ;
        self.display_width = display_width;
        self.display_height = display_height;
        self.horizontal_per_pixel_size = Ratio {
            num: LINE_HEIGHT_NUM as u128 * display_height as u128,
            den: self.vertical_per_pixel_size.den * display_width as u128,
        };
        self.metadata.clear();
        self.load_char_data();
        true
    }

    /// Derives the glyphs and the width of the space from the `char`
    /// records.
    fn load_char_data(&mut self)
        requires
            old(self).geometry_wf(),
            old(self).metadata@ == Map::<u32, RChar>::empty(),
        ensures
            final(self).wf(),
            final(self)@ == old(self)@,
            final(self).records() == old(self).records(),
    {
        broadcast use vstd::std_specs::hash::group_hash_axioms;

        let h_num: i128 = LINE_HEIGHT_NUM as i128 * self.display_height as i128;
        let v_num: i128 = LINE_HEIGHT_NUM as i128;
        let shift_x: i128 = self.padding[PAD_LEFT] as i128 - DESIRED_PADDING;
        let shift_y: i128 = self.padding[PAD_TOP] as i128 - DESIRED_PADDING;
        let padding_width: i128 = self.padding_width as i128;
        let padding_height: i128 = self.padding_height as i128;
        let ghost lh = self@.line_height_pixels();
        let ghost dw = self.display_width as int;
        assert(0 <= 3 * lh * dw <= 3 * 0xffff_ffff * 0xffff_ffff) by (nonlinear_arith)
            requires
                0 < lh <= 0xffff_ffff,
                0 < dw <= 0xffff_ffff,
        ;
        self.space_width = LINE_HEIGHT_NUM as i128 * (self.common.unwrap().line_height as i128
            - padding_height) * self.display_width as i128;
        let mut i: usize = 0;
        while i < self.chars.len()
            invariant
                i <= self.chars.len(),
                self.geometry_wf(),
                self@ == old(self)@,
                self.records() == old(self).records(),
                h_num == self@.horizontal_num(),
                v_num == self@.vertical_num(),
                shift_x == self@.padding[PAD_LEFT as int] - DESIRED_PADDING,
                shift_y == self@.padding[PAD_TOP as int] - DESIRED_PADDING,
                padding_width == self@.padding_width(),
                padding_height == self@.padding_height(),
                self.metadata@ == self@.glyphs_upto(i as int),
                self.space_width == self@.space_width_upto(i as int),
            decreases self.chars.len() - i,
        {
            let chr = self.chars[i];
            proof {
                lemma_glyph_bounded(self@, chr);
            }
            let id = chr.id;
            if id == SPACE_ASCII {
                self.space_width = (chr.xadvance as i128 - padding_width) * h_num;
            } else {
                let x_tex: i128 = chr.x as i128 + shift_x;
                let y_tex: i128 = chr.y as i128 + shift_y;
                let width: i128 = chr.width as i128 - (padding_width - 2 * DESIRED_PADDING);
                let height: i128 = chr.height as i128 - (padding_height - 2 * DESIRED_PADDING);
                let x_size: i128 = width * h_num;
                let y_size: i128 = height * v_num;
                let x_offset: i128 = (chr.xoffset as i128 + shift_x) * h_num;
                let y_offset: i128 = (chr.yoffset as i128 + shift_y) * v_num;
                let x_advance: i128 = (chr.xadvance as i128 - padding_width) * h_num;
                let rchar = RChar::new(
                    id,
                    x_tex,
                    y_tex,
                    width,
                    height,
                    x_offset,
                    y_offset,
                    x_size,
                    y_size,
                    x_advance,
                );
                assert(rchar == self@.glyph(chr));
                self.metadata.insert(id, rchar);
            }
            i += 1;
        }
    }
}

/// Every glyph of a valid table is bounded, and the space has none.
pub proof fn lemma_glyphs_bounded(m: MetaModel, n: int)
    requires
        m.valid(),
        0 <= n <= m.chars.len(),
    ensures
        forall|code: u32| #[trigger] m.glyphs_upto(n).contains_key(code) ==> m.glyphs_upto(n)[code].bounded(),
        !m.glyphs_upto(n).contains_key(SPACE_ASCII),
    decreases n,
{
    if n > 0 {
        lemma_glyphs_bounded(m, n - 1);
        lemma_glyph_bounded(m, m.chars[n - 1]);
    }
}

/// The index of the last of the first `n` records with the character code
/// `id`, or minus one if none of them has it.
pub open spec fn last_record(chars: Seq<CharVars>, n: int, id: u32) -> int
    decreases n,
{
    if n <= 0 {
        -1
    } else if chars[n - 1].id == id {
        n - 1
    } else {
        last_record(chars, n - 1, id)
    }
}

/// A character code has a glyph if and only if it is not the space and
/// there is a record for it, and its glyph is the glyph of its last
/// record.
pub proof fn lemma_glyphs_by_last_record(m: MetaModel, n: int, id: u32)
    requires
        0 <= n <= m.chars.len(),
    ensures
        m.glyphs_upto(n).contains_key(id) <==> id != SPACE_ASCII && last_record(m.chars, n, id) >= 0,
        m.glyphs_upto(n).contains_key(id) ==> m.glyphs_upto(n)[id] == m.glyph(m.chars[last_record(m.chars, n, id)]),
        -1 <= last_record(m.chars, n, id) < n,
    decreases n,
{
    if n > 0 {
        lemma_glyphs_by_last_record(m, n - 1, id);
    }
}

/// In a valid table the space has no glyph. Its width is positive if every
/// record of the space has an advance beyond the horizontal padding, and so
/// it is if there is no such record.
pub proof fn lemma_space_has_width_and_no_glyph(m: MetaModel)
    requires
        m.valid(),
        forall|i: int|
            0 <= i < m.chars.len() && (#[trigger] m.chars[i]).id == SPACE_ASCII ==> m.chars[i].xadvance
                > m.padding_width(),
    ensures
        !m.glyphs().contains_key(SPACE_ASCII),
        m.space_width() > 0,
{
    lemma_glyphs_bounded(m, m.chars.len() as int);
    lemma_space_width_positive(m, m.chars.len() as int);
}

/// The width of the space after the first `n` records is positive under
/// the same condition.
pub proof fn lemma_space_width_positive(m: MetaModel, n: int)
    requires
        m.valid(),
        0 <= n <= m.chars.len(),
        forall|i: int|
            0 <= i < m.chars.len() && (#[trigger] m.chars[i]).id == SPACE_ASCII ==> m.chars[i].xadvance
                > m.padding_width(),
    ensures
        m.space_width_upto(n) > 0,
    decreases n,
{
    let lh = m.line_height_pixels();
    let dw = m.display_width as int;
    let dh = m.display_height as int;
    if n <= 0 {
        assert(3 * lh * dw > 0) by (nonlinear_arith)
            requires
                lh > 0,
                dw > 0,
        ;
    } else {
        let c = m.chars[n - 1];
        if c.id == SPACE_ASCII {
            let a = c.xadvance - m.padding_width();
            assert(a * (3 * dh) > 0) by (nonlinear_arith)
                requires
                    a > 0,
                    dh > 0,
            ;
        } else {
            lemma_space_width_positive(m, n - 1);
        }
    }
}

/// Adapting a table twice to the same dimensions gives what adapting it
/// once gives: the same glyphs, the same space and the same pixel sizes.
pub proof fn lemma_update_size_twice(start: MetaFile, once: MetaFile, twice: MetaFile, width: u32, height: u32)
    requires
        once.wf(),
        once@ == start@.resized(width, height),
        twice.wf(),
        twice@ == once@.resized(width, height),
    ensures
        twice@ == once@,
        twice.metadata@ == once.metadata@,
        twice.space_width == once.space_width,
        twice.horizontal_per_pixel_size == once.horizontal_per_pixel_size,
        twice.vertical_per_pixel_size == once.vertical_per_pixel_size,
{
}

} // verus!
