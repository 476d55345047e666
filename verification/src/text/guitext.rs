//! A label: one piece of text on the display.

use vstd::prelude::*;
use crate::namemap::NameMap;
use crate::text::rtmc::{codes_of, GuiTextVals, TextModel};
use crate::text::{Colour, RFontEffect, RFontType, RTextMesh, Vector2, MAX_WEIGHT};

verus! {

/// Why the mesh of a label could not be built.
#[derive(Clone, Copy, Debug, PartialEq, Eq, Structural)]
pub enum TextError {
    /// The label's font is not registered.
    UnknownFont,
    /// The label's text has `MAX_WEIGHT` bytes or more.
    TextTooLong,
    /// The display has no width or no height.
    EmptyDisplay,
}

/// A label: its font, name and text, where it stands and how it is drawn,
/// and the mesh that was built for it.
///
/// `text_mesh_vao` is the handle under which the graphics back end holds
/// the mesh, zero while it holds none; `vertex_count` is the number of
/// vertices of the mesh that was last built.
pub struct GuiText {
    pub font: String,
    pub label: String,
    pub text: String,
    pub position: Vector2,
    pub effect: RFontEffect,
    pub font_size: u16,
    pub line_max_size: u32,
    pub is_centered: bool,
    pub num_of_lines: u32,
    pub text_mesh_vao: u32,
    pub vertex_count: u32,
    pub loaded: bool,
}

/// What a label holds, as mathematical values.
pub struct GuiTextModel {
    pub font: Seq<char>,
    pub label: Seq<char>,
    pub text: Seq<char>,
    pub position: Vector2,
    pub effect: RFontEffect,
    pub font_size: u16,
    pub line_max_size: u32,
    pub is_centered: bool,
    pub num_of_lines: u32,
    pub text_mesh_vao: u32,
    pub vertex_count: u32,
    pub loaded: bool,
}

impl GuiTextModel {
    /// A label that is not loaded, with the effect that labels start
    /// with.
    pub open spec fn fresh(
        font: Seq<char>,
        label: Seq<char>,
        text: Seq<char>,
        position: Vector2,
        font_size: u16,
        line_max_size: u32,
        is_centered: bool,
    ) -> GuiTextModel {
        GuiTextModel {
            font,
            label,
            text,
            position,
            effect: RFontEffect::initial(),
            font_size,
            line_max_size,
            is_centered,
            num_of_lines: 0,
            text_mesh_vao: 0,
            vertex_count: 0,
            loaded: false,
        }
    }

    /// What of the label determines its lines and its mesh.
    pub open spec fn vals(self) -> TextModel {
        TextModel {
            text: self.text,
            font_size: self.font_size,
            line_max_size: self.line_max_size,
            is_centered: self.is_centered,
        }
    }

    /// The text is short enough for a mesh.
    pub open spec fn fits(self) -> bool {
        codes_of(self.text).len() < MAX_WEIGHT
    }

    /// The label after its mesh was built in `font`: it is loaded, and
    /// knows the number of its lines and of its vertices, six to a glyph.
    pub open spec fn loaded_with(self, font: RFontType) -> GuiTextModel {
        GuiTextModel {
            num_of_lines: font.rtmc.lines_of(self.vals()).len() as u32,
            vertex_count: (6 * font.rtmc.placed_of(self.vals()).len()) as u32,
            loaded: true,
            ..self
        }
    }

    /// The label after its mesh was given up and built anew in `font`: it
    /// is loaded, and the back end holds no mesh for it yet.
    pub open spec fn reloaded_with(self, font: RFontType) -> GuiTextModel {
        GuiTextModel { text_mesh_vao: 0, ..self.loaded_with(font) }
    }

    /// Why the label's mesh cannot be built with these fonts, if so: its
    /// font is not registered, or else its text is too long.
    pub open spec fn load_error(self, fonts: NameMap<RFontType>) -> Option<TextError> {
        if !fonts.contains(self.font) {
            Some(TextError::UnknownFont)
        } else if !self.fits() {
            Some(TextError::TextTooLong)
        } else {
            None
        }
    }

    /// The label with another text.
    pub open spec fn with_text(self, text: Seq<char>) -> GuiTextModel {
        GuiTextModel { text, ..self }
    }
}

impl View for GuiText {
    type V = GuiTextModel;

    open spec fn view(&self) -> GuiTextModel {
        GuiTextModel {
            font: self.font@,
            label: self.label@,
            text: self.text@,
            position: self.position,
            effect: self.effect,
            font_size: self.font_size,
            line_max_size: self.line_max_size,
            is_centered: self.is_centered,
            num_of_lines: self.num_of_lines,
            text_mesh_vao: self.text_mesh_vao,
            vertex_count: self.vertex_count,
            loaded: self.loaded,
        }
    }
}

/// Every font of the map is well formed.
pub open spec fn fonts_wf(fonts: NameMap<RFontType>) -> bool {
    &&& fonts.wf()
    &&& forall|i: int| 0 <= i < fonts.values().len() ==> (#[trigger] fonts.values()[i]).wf()
}

/// Every font of a well formed map is well formed under its name.
pub proof fn lemma_font_wf(fonts: NameMap<RFontType>, name: Seq<char>)
    requires
        fonts_wf(fonts),
        fonts.contains(name),
    ensures
        fonts.value(name).wf(),
{
    fonts.lemma_index(name);
}

impl GuiText {
    /// A label that is not loaded, with the default effect.
    pub fn new(
        font: &str,
        label: &str,
        text: &str,
        position: Vector2,
        font_size: u16,
        line_max_size: u32,
        is_centered: bool,
    ) -> (t: Self)
        ensures
            t@ == GuiTextModel::fresh(font@, label@, text@, position, font_size, line_max_size, is_centered),
    {
        Self {
            font: font.to_owned(),
            label: label.to_owned(),
            text: text.to_owned(),
            position: position,
            effect: RFontEffect::new(),
            font_size: font_size,
            line_max_size: line_max_size,
            is_centered: is_centered,
            num_of_lines: 0,
            text_mesh_vao: 0,
            vertex_count: 0,
            loaded: false,
        }
    }

    /// Builds the label's mesh in its font, unless the label is loaded. The
    /// mesh comes back for the graphics back end, whose handle
    /// `set_mesh_info` takes.
    ///
    /// A label whose font is not registered, or whose text is too long,
    /// stays as it is.
    pub fn load(&mut self, fonts: &NameMap<RFontType>) -> (r: Result<Option<RTextMesh>, TextError>)
        requires
            fonts_wf(*fonts),
        ensures
            match r {
                Ok(None) => old(self).loaded && *final(self) == *old(self),
                Ok(Some(mesh)) => {
                    &&& !old(self).loaded
                    &&& old(self)@.load_error(*fonts) is None
                    &&& fonts.value(old(self).font@).rtmc.is_mesh_of(old(self)@.vals(), mesh)
                    &&& final(self)@ == old(self)@.loaded_with(fonts.value(old(self).font@))
                },
                Err(e) => {
                    &&& !old(self).loaded
                    &&& old(self)@.load_error(*fonts) == Some(e)
                    &&& *final(self) == *old(self)
                },
            },
    {
        if self.loaded {
            return Ok(None);
        }
        let font = match fonts.get(self.font.as_str()) {
            Some(font) => font,
            None => {
                return Err(TextError::UnknownFont);
            },
        };
        if self.text.as_str().as_bytes().len() >= MAX_WEIGHT {
            return Err(TextError::TextTooLong);
        }
        proof {
            lemma_font_wf(*fonts, self.font@);
        }
        Ok(Some(self.build_mesh(font)))
    }

    /// Builds the label's mesh in `font`.
    fn build_mesh(&mut self, font: &RFontType) -> (mesh: RTextMesh)
        requires
            font.wf(),
            old(self)@.fits(),
        ensures
            font.rtmc.is_mesh_of(old(self)@.vals(), mesh),
            final(self)@ == old(self)@.loaded_with(*font),
    {
        let mut tmp = self.copy_vals();
        let data = font.load_text(&mut tmp);
        self.num_of_lines = tmp.num_of_lines;
        self.vertex_count = data.vert_count;
        self.loaded = true;
        data
    }

    /// Takes another text, gives up the mesh and builds it anew. The handle
    /// of the old mesh, zero if there was none, and the new mesh come back.
    ///
    /// A label whose font is not registered, or whose new text is too long,
    /// stays as it is.
    pub fn update_text(&mut self, fonts: &NameMap<RFontType>, text: &str) -> (r: Result<
        (u32, RTextMesh),
        TextError,
    >)
        requires
            fonts_wf(*fonts),
        ensures
            match r {
                Ok((release, mesh)) => {
                    &&& old(self)@.with_text(text@).load_error(*fonts) is None
                    &&& release == old(self).text_mesh_vao
                    &&& fonts.value(old(self).font@).rtmc.is_mesh_of(old(self)@.with_text(text@).vals(), mesh)
                    &&& final(self)@ == old(self)@.with_text(text@).reloaded_with(fonts.value(old(self).font@))
                },
                Err(e) => {
                    &&& old(self)@.with_text(text@).load_error(*fonts) == Some(e)
                    &&& *final(self) == *old(self)
                },
            },
    {
        if !fonts.contains_key(self.font.as_str()) {
            return Err(TextError::UnknownFont);
        }
        if text.as_bytes().len() >= MAX_WEIGHT {
            return Err(TextError::TextTooLong);
        }
        self.text = text.to_owned();
        self.update_size(fonts)
    }

    /// Gives up the mesh and builds it anew, as after a change of the
    /// display's dimensions. The handle of the old mesh, zero if there was
    /// none, and the new mesh come back.
    ///
    /// A label whose font is not registered, or whose text is too long,
    /// stays as it is.
    pub fn update_size(&mut self, fonts: &NameMap<RFontType>) -> (r: Result<(u32, RTextMesh), TextError>)
        requires
            fonts_wf(*fonts),
        ensures
            match r {
                Ok((release, mesh)) => {
                    &&& old(self)@.load_error(*fonts) is None
                    &&& release == old(self).text_mesh_vao
                    &&& fonts.value(old(self).font@).rtmc.is_mesh_of(old(self)@.vals(), mesh)
                    &&& final(self)@ == old(self)@.reloaded_with(fonts.value(old(self).font@))
                },
                Err(e) => {
                    &&& old(self)@.load_error(*fonts) == Some(e)
                    &&& *final(self) == *old(self)
                },
            },
    {
        let font = match fonts.get(self.font.as_str()) {
            Some(font) => font,
            None => {
                return Err(TextError::UnknownFont);
            },
        };
        if self.text.as_str().as_bytes().len() >= MAX_WEIGHT {
            return Err(TextError::TextTooLong);
        }
        proof {
            lemma_font_wf(*fonts, self.font@);
        }
        let release = self.text_mesh_vao;
        self.text_mesh_vao = 0;
        self.loaded = false;
        let mesh = self.build_mesh(font);
        Ok((release, mesh))
    }

    /// Takes a fill colour.
    pub fn set_colour(&mut self, r: u16, g: u16, b: u16)
        ensures
            final(self)@ == (GuiTextModel {
                effect: RFontEffect { colour: Colour { r, g, b }, ..old(self).effect },
                ..old(self)@
            }),
    {
        self.effect.colour = Colour { r, g, b };
    }

    /// Takes the handle under which the graphics back end holds the mesh,
    /// and the number of its vertices.
    pub fn set_mesh_info(&mut self, vao: u32, vert_count: u32)
        ensures
            final(self)@ == (GuiTextModel { text_mesh_vao: vao, vertex_count: vert_count, ..old(self)@ }),
    {
        self.text_mesh_vao = vao;
        self.vertex_count = vert_count;
    }

    /// What the layout reads of the label.
    pub fn copy_vals(&self) -> (vals: GuiTextVals)
        ensures
            vals@ == self@.vals(),
            vals.num_of_lines == self.num_of_lines,
    {
        GuiTextVals {
            text: self.text.clone(),
            font_size: self.font_size,
            line_max_size: self.line_max_size,
            is_centered: self.is_centered,
            num_of_lines: self.num_of_lines,
        }
    }
}

} // verus!
