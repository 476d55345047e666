//! The registry of fonts and labels, and of the labels that are drawn.

use vstd::prelude::*;
use vstd::string::StringSliceAdditionalSpecFns;
use crate::display::Display;
use crate::namemap::NameMap;
use crate::text::guitext::{fonts_wf, GuiText, GuiTextModel, TextError};
use crate::text::metafile::{MetaError, MetaFile};
use crate::text::rtmc::codes_of;
use crate::text::{RFontType, RTextMesh, Vector2, MAX_WEIGHT};

verus! {

/// The index of the labels that are drawn: for every font that has such
/// labels, their names.
pub type ActiveText = NameMap<NameMap<()>>;

/// The index lists `label` under `font`.
pub open spec fn lists(active: ActiveText, font: Seq<char>, label: Seq<char>) -> bool {
    active.contains(font) && active.value(font).contains(label)
}

/// The index is well formed, and so is every list of labels in it, none of
/// which is empty.
pub open spec fn active_wf(active: ActiveText) -> bool {
    &&& active.wf()
    &&& forall|font: Seq<char>| #[trigger]
        active.contains(font) ==> active.value(font).wf() && active.value(font).names().len() > 0
}

/// Lists `label` under `font`, if it is not listed there.
fn batch_insert(active: &mut ActiveText, font: &str, label: &str)
    requires
        active_wf(*old(active)),
    ensures
        active_wf(*final(active)),
        forall|f: Seq<char>, l: Seq<char>|
            lists(*final(active), f, l) <==> lists(*old(active), f, l) || (f == font@ && l == label@),
{
    let ghost before = *active;
    match active.find(font) {
        Some(i) => {
            proof {
                before.lemma_entry(i as int);
            }
            let batch = active.value_mut(i);
            let ghost batch_before = *batch;
            batch.insert(label, ());
            proof {
                assert(batch.contains(label@)) by {
                    assert(batch@.contains_key(label@));
                }
                assert(batch.names().len() > 0) by {
                    batch.lemma_index(label@);
                }
                active.lemma_update(before, i as int);
                assert forall|f: Seq<char>| #[trigger] active.contains(f) implies active.value(f).wf()
                    && active.value(f).names().len() > 0 by {
                    assert(active@.contains_key(f));
                    if f != font@ {
                        assert(active@[f] == before@[f]);
                        assert(before.contains(f));
                    }
                }
                assert forall|f: Seq<char>, l: Seq<char>| lists(*active, f, l) <==> lists(before, f, l) || (f
                    == font@ && l == label@) by {
                    if f == font@ {
                        assert(active@.contains_key(f));
                        assert(active@[f] == *batch);
                        assert(before@[f] == batch_before);
                        assert(batch@.contains_key(l) <==> batch_before@.contains_key(l) || l == label@);
                    } else {
                        assert(active@.contains_key(f) <==> before@.contains_key(f));
                        if before@.contains_key(f) {
                            assert(active@[f] == before@[f]);
                        }
                    }
                }
            }
        },
        None => {
            let mut batch: NameMap<()> = NameMap::new();
            batch.insert(label, ());
            let ghost new_batch = batch;
            proof {
                assert(batch@.contains_key(label@));
                batch.lemma_index(label@);
            }
            active.insert(font, batch);
            proof {
                assert forall|f: Seq<char>| #[trigger] active.contains(f) implies active.value(f).wf()
                    && active.value(f).names().len() > 0 by {
                    assert(active@.contains_key(f));
                    if f != font@ {
                        assert(active@[f] == before@[f]);
                        assert(before.contains(f));
                    }
                }
                assert forall|f: Seq<char>, l: Seq<char>| lists(*active, f, l) <==> lists(before, f, l) || (f
                    == font@ && l == label@) by {
                    if f == font@ {
                        assert(active@.contains_key(f));
                        assert(active@[f] == new_batch);
                        assert(!before@.contains_key(f));
                        assert(new_batch@.contains_key(l) <==> l == label@);
                    } else {
                        assert(active@.contains_key(f) <==> before@.contains_key(f));
                        if before@.contains_key(f) {
                            assert(active@[f] == before@[f]);
                        }
                    }
                }
            }
        },
    }
}

/// Takes `label` off the list of `font`, and the font out of the index if
/// its list becomes empty.
fn batch_remove(active: &mut ActiveText, font: &str, label: &str)
    requires
        active_wf(*old(active)),
    ensures
        active_wf(*final(active)),
        forall|f: Seq<char>, l: Seq<char>|
            lists(*final(active), f, l) <==> lists(*old(active), f, l) && !(f == font@ && l == label@),
{
    let ghost before = *active;
    let mut rm = false;
    match active.find(font) {
        Some(i) => {
            proof {
                before.lemma_entry(i as int);
            }
            let batch = active.value_mut(i);
            let ghost batch_before = *batch;
            batch.remove(label);
            rm = batch.len() == 0;
            proof {
                active.lemma_update(before, i as int);
                assert forall|f: Seq<char>| #[trigger] active.contains(f) && f != font@ implies active.value(
                    f,
                ).wf() && active.value(f).names().len() > 0 by {
                    assert(active@.contains_key(f));
                    assert(active@[f] == before@[f]);
                    assert(before.contains(f));
                }
                assert forall|f: Seq<char>, l: Seq<char>| lists(*active, f, l) <==> lists(before, f, l) && !(f
                    == font@ && l == label@) by {
                    if f == font@ {
                        assert(active@.contains_key(f));
                        assert(active@[f] == *batch);
                        assert(before@[f] == batch_before);
                        assert(batch@.contains_key(l) <==> batch_before@.contains_key(l) && l != label@);
                    } else {
                        assert(active@.contains_key(f) <==> before@.contains_key(f));
                        if before@.contains_key(f) {
                            assert(active@[f] == before@[f]);
                        }
                    }
                }
                assert(active.contains(font@));
                assert(active@[font@] == *batch);
                assert(rm <==> active.value(font@).names().len() == 0);
            }
        },
        None => {},
    }
    if rm {
        let ghost middle = *active;
        active.remove(font);
        proof {
            assert forall|f: Seq<char>| #[trigger] active.contains(f) implies active.value(f).wf()
                && active.value(f).names().len() > 0 by {
                assert(active@.contains_key(f));
                assert(f != font@);
                assert(active@[f] == middle@[f]);
                assert(middle.contains(f));
            }
            assert forall|f: Seq<char>, l: Seq<char>| lists(*active, f, l) <==> lists(middle, f, l) by {
                if f == font@ {
                    assert(!active@.contains_key(f));
                    assert(middle.value(f).names().len() == 0);
                    if middle.value(f).contains(l) {
                        middle.value(f).lemma_index(l);
                    }
                } else {
                    assert(active@.contains_key(f) <==> middle@.contains_key(f));
                    if middle@.contains_key(f) {
                        assert(active@[f] == middle@[f]);
                    }
                }
            }
        }
    }
}

/// What the graphics back end has to do for a label: give up the mesh that
/// it holds under the handle `release`, unless that is zero, and take
/// `mesh`, if there is one. The handle of a mesh that was taken goes to the
/// label through `set_mesh_info`.
pub struct MeshJob {
    pub label: String,
    pub release: u32,
    pub mesh: Option<RTextMesh>,
}

/// Why the mesh of one of the labels from the index `from` on cannot be
/// built with these fonts, if so: the error of the first such label.
pub open spec fn first_load_error(texts: Seq<GuiText>, fonts: NameMap<RFontType>, from: int) -> Option<
    TextError,
>
    decreases texts.len() - from,
{
    if from >= texts.len() {
        None
    } else {
        match texts[from]@.load_error(fonts) {
            Some(e) => Some(e),
            None => first_load_error(texts, fonts, from + 1),
        }
    }
}

/// The font `after` is the font `before` on a display of other dimensions.
pub open spec fn resized_font(before: RFontType, after: RFontType, width: u32, height: u32) -> bool {
    &&& after.wf()
    &&& after.tex_atlas@ == before.tex_atlas@
    &&& after.rtmc.metadata@ == before.rtmc.metadata@.resized(width, height)
    &&& after.rtmc.metadata.records() == before.rtmc.metadata.records()
}

/// The label `after` is the label `before` with its mesh built anew with
/// these fonts, and `job` says what the graphics back end has to do for it.
pub open spec fn reloaded(before: GuiText, after: GuiText, fonts: NameMap<RFontType>, job: MeshJob) -> bool {
    &&& after@ == before@.reloaded_with(fonts.value(before.font@))
    &&& job.label@ == before.label@
    &&& job.release == before.text_mesh_vao
    &&& job.mesh matches Some(mesh) && fonts.value(before.font@).rtmc.is_mesh_of(before@.vals(), mesh)
}

/// The index of the last of the first `n` names that is `name`, or minus
/// one if none of them is.
pub open spec fn last_of(names: Seq<String>, n: int, name: Seq<char>) -> int
    decreases n,
{
    if n <= 0 {
        -1
    } else if names[n - 1]@ == name {
        n - 1
    } else {
        last_of(names, n - 1, name)
    }
}

/// The fonts `after` are the fonts `before` and the first `n` of the fonts
/// with the names `fnames` and the descriptions `sources`, built for a
/// display of the given dimensions: a name among the first `n` has the font
/// of its last description, and every other name has what it had.
pub open spec fn fonts_added(
    before: NameMap<RFontType>,
    after: NameMap<RFontType>,
    fnames: Seq<String>,
    sources: Seq<String>,
    n: int,
    display: Display,
) -> bool {
    forall|name: Seq<char>|
        {
            let k = #[trigger] last_of(fnames, n, name);
            if k < 0 {
                &&& after.contains(name) == before.contains(name)
                &&& after.contains(name) ==> after.value(name) == before.value(name)
            } else {
                &&& after.contains(name)
                &&& after.value(name).tex_atlas@ == name
                &&& MetaFile::new_ok(display.w, display.h, codes_of(sources[k]@), after.value(name).rtmc.metadata)
            }
        }
}

/// Fonts and labels by name, and for every font with labels that are drawn
/// the names of those labels.
pub struct TextMgr {
    pub display: Display,
    pub active_text: ActiveText,
    pub texts: NameMap<GuiText>,
    pub fonts: NameMap<RFontType>,
}

impl TextMgr {
    /// The names of the labels of `font` that are drawn.
    pub open spec fn batch(&self, font: Seq<char>) -> Set<Seq<char>> {
        Set::new(|label: Seq<char>| lists(self.active_text, font, label))
    }

    /// The label `label` is there and is drawn.
    pub open spec fn is_active(&self, label: Seq<char>) -> bool {
        self.texts.contains(label) && lists(self.active_text, self.texts.value(label).font@, label)
    }

    /// The registry is well formed: every label is filed under its name
    /// and has a well formed effect, every font is well formed, filed under the name of its atlas and
    /// built for the registry's display, and every font with labels that
    /// are drawn has at least one, all of them labels of that font.
    pub open spec fn wf(&self) -> bool {
        &&& self.texts.wf()
        &&& active_wf(self.active_text)
        &&& fonts_wf(self.fonts)
        &&& forall|label: Seq<char>| #[trigger]
            self.texts.contains(label) ==> self.texts.value(label).label@ == label && self.texts.value(
                label,
            ).effect.wf()
        &&& forall|font: Seq<char>| #[trigger]
            self.fonts.contains(font) ==> {
                &&& self.fonts.value(font).tex_atlas@ == font
                &&& self.fonts.value(font).rtmc.metadata.display_width == self.display.w
                &&& self.fonts.value(font).rtmc.metadata.display_height == self.display.h
            }
        &&& forall|font: Seq<char>, label: Seq<char>| #[trigger]
            lists(self.active_text, font, label) ==> {
                &&& self.texts.contains(label)
                &&& self.texts.value(label).font@ == font
            }
    }

    /// A font is a key of the index of drawn labels if and only if one of
    /// its labels is drawn.
    pub proof fn lemma_font_active_iff_label_active(&self, font: Seq<char>)
        requires
            self.wf(),
        ensures
            self.active_text@.contains_key(font) <==> exists|label: Seq<char>|
                self.is_active(label) && self.texts@[label].font@ == font,
    {
        if self.active_text.contains(font) {
            let batch = self.active_text.value(font);
            let label = batch.names()[0];
            assert(batch.contains(label));
            assert(lists(self.active_text, font, label));
            assert(self.is_active(label) && self.texts@[label].font@ == font);
        }
    }

    /// A registry without fonts and labels, for a display of 640 by 480
    /// pixels.
    pub fn new() -> (mgr: Self)
        ensures
            mgr.wf(),
            mgr.display == (Display { w: 640, h: 480 }),
            mgr.texts.names().len() == 0,
            mgr.fonts.names().len() == 0,
            mgr.active_text.names().len() == 0,
    {
        let mgr = Self {
            display: Display::new(),
            active_text: NameMap::new(),
            texts: NameMap::new(),
            fonts: NameMap::new(),
        };
        assert forall|name: Seq<char>| !mgr.texts.contains(name) && !mgr.fonts.contains(name)
            && !mgr.active_text.contains(name) by {
            assert(!mgr.texts@.contains_key(name));
            assert(!mgr.fonts@.contains_key(name));
            assert(!mgr.active_text@.contains_key(name));
        }
        mgr
    }

    /// Registers the font `fname` as `source` describes it, built for the
    /// registry's display. A font that was registered under the name is
    /// replaced. A description that is refused changes nothing.
    pub fn add_font(&mut self, fname: &str, source: &str) -> (r: Result<(), MetaError>)
        requires
            old(self).wf(),
        ensures
            final(self).wf(),
            final(self).display == old(self).display,
            final(self).texts == old(self).texts,
            final(self).active_text == old(self).active_text,
            match r {
                Ok(()) => {
                    &&& final(self).fonts@.contains_key(fname@)
                    &&& final(self).fonts@ == old(self).fonts@.insert(fname@, final(self).fonts@[fname@])
                    &&& final(self).fonts@[fname@].tex_atlas@ == fname@
                    &&& MetaFile::new_ok(
                        old(self).display.w,
                        old(self).display.h,
                        source.spec_bytes(),
                        final(self).fonts@[fname@].rtmc.metadata,
                    )
                },
                Err(e) => {
                    &&& final(self).fonts == old(self).fonts
                    &&& MetaFile::new_err(old(self).display.w, old(self).display.h, source.spec_bytes(), e)
                },
            },
    {
        match RFontType::new(self.display.w, self.display.h, fname, source) {
            Ok(font) => {
                let ghost before = self.fonts;
                self.fonts.insert(fname, font);
                proof {
                    assert(self.fonts@.contains_key(fname@));
                    assert forall|i: int| 0 <= i < self.fonts.values().len() implies (
                    #[trigger] self.fonts.values()[i]).wf() by {
                        if before.contains(fname@) {
                            before.lemma_index(fname@);
                        }
                    }
                    assert forall|f: Seq<char>| #[trigger] self.fonts.contains(f) implies {
                        &&& self.fonts.value(f).tex_atlas@ == f
                        &&& self.fonts.value(f).rtmc.metadata.display_width == self.display.w
                        &&& self.fonts.value(f).rtmc.metadata.display_height == self.display.h
                    } by {
                        assert(self.fonts@.contains_key(f));
                        if f != fname@ {
                            assert(before@.contains_key(f));
                            assert(self.fonts@[f] == before@[f]);
                            assert(before.contains(f));
                        }
                    }
                }
                Ok(())
            },
            Err(e) => Err(e),
        }
    }

    /// Registers the fonts with the names `fnames` as `sources` describe
    /// them, one after the other. The first description that is refused
    /// ends this; the error comes back with the index of the description,
    /// and the fonts before it stay registered.
    pub fn add_fonts(&mut self, fnames: &Vec<String>, sources: &Vec<String>) -> (r: Result<
        (),
        (usize, MetaError),
    >)
        requires
            old(self).wf(),
            fnames.len() == sources.len(),
        ensures
            final(self).wf(),
            final(self).display == old(self).display,
            final(self).texts == old(self).texts,
            final(self).active_text == old(self).active_text,
            match r {
                Ok(()) => fonts_added(
                    old(self).fonts,
                    final(self).fonts,
                    fnames@,
                    sources@,
                    fnames.len() as int,
                    old(self).display,
                ),
                Err((i, e)) => {
                    &&& i < fnames.len()
                    &&& MetaFile::new_err(old(self).display.w, old(self).display.h, codes_of(sources[i as int]@), e)
                    &&& fonts_added(old(self).fonts, final(self).fonts, fnames@, sources@, i as int, old(self).display)
                },
            },
    {
        let mut i: usize = 0;
        while i < fnames.len()
            invariant
                i <= fnames.len(),
                fnames.len() == sources.len(),
                self.wf(),
                self.display == old(self).display,
                self.texts == old(self).texts,
                self.active_text == old(self).active_text,
                fonts_added(old(self).fonts, self.fonts, fnames@, sources@, i as int, old(self).display),
            decreases fnames.len() - i,
        {
            let ghost before = self.fonts;
            match self.add_font(fnames[i].as_str(), sources[i].as_str()) {
                Ok(()) => {},
                Err(e) => {
                    return Err((i, e));
                },
            }
            proof {
                let added = fnames@[i as int]@;
                assert forall|name: Seq<char>|
                    {
                        let k = #[trigger] last_of(fnames@, i + 1, name);
                        if k < 0 {
                            &&& self.fonts.contains(name) == old(self).fonts.contains(name)
                            &&& self.fonts.contains(name) ==> self.fonts.value(name) == old(self).fonts.value(name)
                        } else {
                            &&& self.fonts.contains(name)
                            &&& self.fonts.value(name).tex_atlas@ == name
                            &&& MetaFile::new_ok(
                                self.display.w,
                                self.display.h,
                                codes_of(sources@[k]@),
                                self.fonts.value(name).rtmc.metadata,
                            )
                        }
                    } by {
                    let k = last_of(fnames@, i as int, name);
                    assert(self.fonts@.contains_key(name) == self.fonts.contains(name));
                    assert(before@.contains_key(name) == before.contains(name));
                    if name != added {
                        assert(last_of(fnames@, i + 1, name) == k);
                        if before.contains(name) {
                            assert(self.fonts@[name] == before@[name]);
                        }
                    }
                }
            }
            i += 1;
        }
        Ok(())
    }

    /// Builds the mesh of the label `label`, unless the label is loaded,
    /// and lists the label among those of its font that are drawn. The mesh
    /// that was built comes back for the graphics back end.
    ///
    /// Without a label of that name nothing happens. A label whose mesh
    /// cannot be built is refused, and nothing changes.
    pub fn enable_label(&mut self, label: &str) -> (r: Result<Option<RTextMesh>, TextError>)
        requires
            old(self).wf(),
        ensures
            final(self).wf(),
            final(self).display == old(self).display,
            final(self).fonts == old(self).fonts,
            final(self).texts.names() == old(self).texts.names(),
            match r {
                Ok(mesh) => if old(self).texts.contains(label@) {
                    let before = old(self).texts.value(label@)@;
                    let font = old(self).fonts.value(before.font);
                    &&& final(self).texts@ == old(self).texts@.insert(label@, final(self).texts.value(label@))
                    &&& final(self).texts.value(label@)@ == if before.loaded {
                        before
                    } else {
                        before.loaded_with(font)
                    }
                    &&& match mesh {
                        Some(m) => {
                            &&& !before.loaded
                            &&& before.load_error(old(self).fonts) is None
                            &&& font.rtmc.is_mesh_of(before.vals(), m)
                        },
                        None => before.loaded,
                    }
                    &&& forall|f: Seq<char>, l: Seq<char>|
                        lists(final(self).active_text, f, l) <==> lists(old(self).active_text, f, l) || (f
                            == before.font && l == label@)
                } else {
                    &&& mesh is None
                    &&& final(self).texts == old(self).texts
                    &&& final(self).active_text == old(self).active_text
                },
                Err(e) => {
                    &&& old(self).texts.contains(label@)
                    &&& !old(self).texts.value(label@).loaded
                    &&& old(self).texts.value(label@)@.load_error(old(self).fonts) == Some(e)
                    &&& final(self).texts.values() == old(self).texts.values()
                    &&& final(self).active_text == old(self).active_text
                },
            },
    {
        let ghost before = self.texts;
        let i = match self.texts.find(label) {
            Some(i) => i,
            None => {
                return Ok(None);
            },
        };
        proof {
            before.lemma_entry(i as int);
        }
        let text = self.texts.value_mut(i);
        let loaded = text.load(&self.fonts);
        let font = text.font.clone();
        proof {
            self.texts.lemma_update(before, i as int);
        }
        let mesh = match loaded {
            Ok(mesh) => mesh,
            Err(e) => {
                proof {
                    assert(self.texts.values() =~= before.values());
                    assert forall|l: Seq<char>| #[trigger] self.texts.contains(l) implies self.texts.value(
                        l,
                    ).label@ == l && self.texts.value(l).effect.wf() by {
                        assert(before.contains(l));
                        assert(self.texts.value(l) == before.value(l));
                    }
                    assert forall|f: Seq<char>, l: Seq<char>| #[trigger]
                        lists(self.active_text, f, l) implies self.texts.contains(l) && self.texts.value(
                        l,
                    ).font@ == f by {
                        assert(before.contains(l));
                        assert(self.texts.value(l) == before.value(l));
                    }
                }
                return Err(e);
            },
        };
        batch_insert(&mut self.active_text, font.as_str(), label);
        proof {
            assert(self.texts@.contains_key(label@));
            assert forall|l: Seq<char>| #[trigger] self.texts.contains(l) implies self.texts.value(l).label@
                == l && self.texts.value(l).font@ == before.value(l).font@ && before.contains(l)
                && self.texts.value(l).effect.wf() by {
                assert(self.texts@.contains_key(l));
                if l != label@ {
                    assert(before@.contains_key(l));
                    assert(self.texts@[l] == before@[l]);
                }
                assert(before.contains(l));
            }
            assert forall|f: Seq<char>, l: Seq<char>| #[trigger]
                lists(self.active_text, f, l) implies self.texts.contains(l) && self.texts.value(l).font@
                == f by {
                if lists(old(self).active_text, f, l) {
                    assert(before.contains(l));
                    assert(before@.contains_key(l));
                    assert(self.texts@.contains_key(l));
                }
            }
        }
        Ok(mesh)
    }

    /// Takes the label `label` off the list of the labels of its font that
    /// are drawn. Without a label of that name, and for a label that is not
    /// drawn, nothing happens.
    pub fn disable_label(&mut self, label: &str)
        requires
            old(self).wf(),
        ensures
            final(self).wf(),
            final(self).display == old(self).display,
            final(self).fonts == old(self).fonts,
            final(self).texts == old(self).texts,
            !old(self).texts.contains(label@) ==> final(self).active_text == old(self).active_text,
            forall|f: Seq<char>, l: Seq<char>|
                lists(final(self).active_text, f, l) <==> lists(old(self).active_text, f, l) && l != label@,
    {
        match self.texts.get(label) {
            Some(text) => {
                batch_remove(&mut self.active_text, text.font.as_str(), label);
            },
            None => {
                proof {
                    assert(!self.texts.contains(label@)) by {
                        assert(!self.texts@.contains_key(label@));
                    }
                }
            },
        }
    }

    /// Gives the label `label` another text and builds its mesh anew. The
    /// handle of the old mesh, zero if there was none, and the new mesh
    /// come back for the graphics back end.
    ///
    /// Without a label of that name nothing happens. A label whose mesh
    /// cannot be built is refused, and nothing changes.
    pub fn update_text(&mut self, label: &str, new_text: &str) -> (r: Result<
        Option<(u32, RTextMesh)>,
        TextError,
    >)
        requires
            old(self).wf(),
        ensures
            final(self).wf(),
            final(self).display == old(self).display,
            final(self).fonts == old(self).fonts,
            final(self).active_text == old(self).active_text,
            final(self).texts.names() == old(self).texts.names(),
            match r {
                Ok(Some((release, mesh))) => {
                    let before = old(self).texts.value(label@)@;
                    let font = old(self).fonts.value(before.font);
                    &&& old(self).texts.contains(label@)
                    &&& before.with_text(new_text@).load_error(old(self).fonts) is None
                    &&& release == before.text_mesh_vao
                    &&& font.rtmc.is_mesh_of(before.with_text(new_text@).vals(), mesh)
                    &&& final(self).texts@ == old(self).texts@.insert(label@, final(self).texts.value(label@))
                    &&& final(self).texts.value(label@)@ == before.with_text(new_text@).reloaded_with(font)
                },
                Ok(None) => !old(self).texts.contains(label@) && final(self).texts == old(self).texts,
                Err(e) => {
                    let before = old(self).texts.value(label@)@;
                    &&& old(self).texts.contains(label@)
                    &&& before.with_text(new_text@).load_error(old(self).fonts) == Some(e)
                    &&& final(self).texts.values() == old(self).texts.values()
                },
            },
    {
        let ghost before = self.texts;
        let i = match self.texts.find(label) {
            Some(i) => i,
            None => {
                return Ok(None);
            },
        };
        proof {
            before.lemma_entry(i as int);
        }
        let text = self.texts.value_mut(i);
        let updated = text.update_text(&self.fonts, new_text);
        proof {
            self.texts.lemma_update(before, i as int);
            assert(self.texts@.contains_key(label@));
            assert forall|l: Seq<char>| #[trigger] self.texts.contains(l) implies self.texts.value(l).label@
                == l && self.texts.value(l).font@ == before.value(l).font@ && before.contains(l)
                && self.texts.value(l).effect.wf() by {
                assert(self.texts@.contains_key(l));
                if l != label@ {
                    assert(before@.contains_key(l));
                    assert(self.texts@[l] == before@[l]);
                }
                assert(before.contains(l));
            }
            assert forall|f: Seq<char>, l: Seq<char>| #[trigger]
                lists(self.active_text, f, l) implies self.texts.contains(l) && self.texts.value(l).font@
                == f by {
                assert(before.contains(l));
                assert(before@.contains_key(l));
                assert(self.texts@.contains_key(l));
            }
        }
        match updated {
            Ok(job) => Ok(Some(job)),
            Err(e) => {
                proof {
                    assert(self.texts.values() =~= before.values());
                }
                Err(e)
            },
        }
    }

    /// Creates the label `label`, not loaded, and enables it if `enable`
    /// says so. A label that had the name is replaced and no longer drawn;
    /// the handle of its mesh, zero if there was none, comes back for the
    /// graphics back end, and so does the mesh of a label that was enabled.
    ///
    /// A label that is to be enabled and whose mesh cannot be built is
    /// refused, and nothing changes.
    pub fn new_text(
        &mut self,
        label: &str,
        text: &str,
        font_name: &str,
        font_size: u16,
        x: i32,
        y: i32,
        line_max_size: u32,
        is_centered: bool,
        enable: bool,
    ) -> (r: Result<MeshJob, TextError>)
        requires
            old(self).wf(),
        ensures
            final(self).wf(),
            final(self).display == old(self).display,
            final(self).fonts == old(self).fonts,
            match r {
                Ok(job) => {
                    let fresh = GuiTextModel::fresh(
                        font_name@,
                        label@,
                        text@,
                        Vector2 { x, y },
                        font_size,
                        line_max_size,
                        is_centered,
                    );
                    let font = old(self).fonts.value(font_name@);
                    &&& final(self).texts@ == old(self).texts@.insert(label@, final(self).texts.value(label@))
                    &&& final(self).texts.value(label@)@ == if enable {
                        fresh.loaded_with(font)
                    } else {
                        fresh
                    }
                    &&& job.label@ == label@
                    &&& job.release == if old(self).texts.contains(label@) {
                        old(self).texts.value(label@).text_mesh_vao
                    } else {
                        0
                    }
                    &&& match job.mesh {
                        Some(m) => enable && font.rtmc.is_mesh_of(fresh.vals(), m),
                        None => !enable,
                    }
                    &&& enable ==> fresh.load_error(old(self).fonts) is None
                    &&& forall|f: Seq<char>, l: Seq<char>|
                        lists(final(self).active_text, f, l) <==> (lists(old(self).active_text, f, l) && l
                            != label@) || (enable && f == font_name@ && l == label@)
                },
                Err(e) => {
                    &&& enable
                    &&& GuiTextModel::fresh(
                        font_name@,
                        label@,
                        text@,
                        Vector2 { x, y },
                        font_size,
                        line_max_size,
                        is_centered,
                    ).load_error(old(self).fonts) == Some(e)
                    &&& final(self).texts == old(self).texts
                    &&& final(self).active_text == old(self).active_text
                },
            },
    {
        if enable {
            if !self.fonts.contains_key(font_name) {
                return Err(TextError::UnknownFont);
            }
            if text.as_bytes().len() >= MAX_WEIGHT {
                return Err(TextError::TextTooLong);
            }
        }
        let ghost before = self.texts;
        let gt = GuiText::new(font_name, label, text, Vector2 { x, y }, font_size, line_max_size, is_centered);
        let ghost fresh = gt;
        let replaced = self.texts.insert(label, gt);
        let mut release: u32 = 0;
        match replaced {
            Some(old_text) => {
                proof {
                    assert(before.contains(label@));
                }
                batch_remove(&mut self.active_text, old_text.font.as_str(), label);
                release = old_text.text_mesh_vao;
            },
            None => {
                proof {
                    assert(!before.contains(label@));
                }
            },
        }
        proof {
            assert(self.texts@.contains_key(label@));
            assert forall|l: Seq<char>| #[trigger] self.texts.contains(l) implies self.texts.value(l).label@
                == l && self.texts.value(l).effect.wf() by {
                assert(self.texts@.contains_key(l));
                if l != label@ {
                    assert(before@.contains_key(l));
                    assert(self.texts@[l] == before@[l]);
                    assert(before.contains(l));
                }
            }
            assert forall|f: Seq<char>, l: Seq<char>| #[trigger]
                lists(self.active_text, f, l) implies self.texts.contains(l) && self.texts.value(l).font@
                == f && l != label@ by {
                assert(lists(old(self).active_text, f, l));
                assert(before.contains(l));
                assert(before@.contains_key(l));
                assert(self.texts@.contains_key(l));
                if l != label@ {
                    assert(self.texts@[l] == before@[l]);
                }
            }
        }
        let ghost middle = self.texts;
        proof {
            assert(middle.contains(label@));
            assert(middle.value(label@) == fresh);
        }
        let mesh = if enable {
            match self.enable_label(label) {
                Ok(mesh) => mesh,
                Err(e) => {
                    return Err(e);
                },
            }
        } else {
            None
        };
        proof {
            assert(self.texts@ =~= old(self).texts@.insert(label@, self.texts.value(label@)));
        }
        Ok(MeshJob { label: label.to_owned(), release, mesh })
    }

    /// Takes the handle under which the graphics back end holds the mesh
    /// of the label `label`. Without a label of that name nothing happens.
    pub fn set_mesh_info(&mut self, label: &str, vao: u32)
        requires
            old(self).wf(),
        ensures
            final(self).wf(),
            final(self).display == old(self).display,
            final(self).fonts == old(self).fonts,
            final(self).active_text == old(self).active_text,
            final(self).texts.names() == old(self).texts.names(),
            if old(self).texts.contains(label@) {
                &&& final(self).texts@ == old(self).texts@.insert(label@, final(self).texts.value(label@))
                &&& final(self).texts.value(label@)@ == (GuiTextModel {
                    text_mesh_vao: vao,
                    ..old(self).texts.value(label@)@
                })
            } else {
                final(self).texts == old(self).texts
            },
    {
        let ghost before = self.texts;
        let i = match self.texts.find(label) {
            Some(i) => i,
            None => {
                return ;
            },
        };
        proof {
            before.lemma_entry(i as int);
        }
        let text = self.texts.value_mut(i);
        let count = text.vertex_count;
        text.set_mesh_info(vao, count);
        proof {
            self.texts.lemma_update(before, i as int);
            assert(self.texts@.contains_key(label@));
            assert forall|l: Seq<char>| #[trigger] self.texts.contains(l) implies self.texts.value(l).label@
                == l && self.texts.value(l).font@ == before.value(l).font@ && before.contains(l)
                && self.texts.value(l).effect.wf() by {
                assert(self.texts@.contains_key(l));
                if l != label@ {
                    assert(before@.contains_key(l));
                    assert(self.texts@[l] == before@[l]);
                }
                assert(before.contains(l));
            }
            assert forall|f: Seq<char>, l: Seq<char>| #[trigger]
                lists(self.active_text, f, l) implies self.texts.contains(l) && self.texts.value(l).font@
                == f by {
                assert(before.contains(l));
                assert(before@.contains_key(l));
                assert(self.texts@.contains_key(l));
            }
        }
    }

    /// Takes new dimensions of the display: every font is adapted to them,
    /// and then the mesh of every label, loaded or not, is built anew. For
    /// every label, in the order of the labels, a job for the graphics back
    /// end comes back.
    ///
    /// A display without width or height is refused, and so is the request
    /// if the mesh of one of the labels cannot be built. Then nothing
    /// changes.
    pub fn update_size(&mut self, dimensions: (u32, u32)) -> (r: Result<Vec<MeshJob>, TextError>)
        requires
            old(self).wf(),
        ensures
            final(self).wf(),
            final(self).active_text == old(self).active_text,
            final(self).texts.names() == old(self).texts.names(),
            final(self).fonts.names() == old(self).fonts.names(),
            match r {
                Ok(jobs) => {
                    &&& dimensions.0 > 0 && dimensions.1 > 0
                    &&& first_load_error(old(self).texts.values(), old(self).fonts, 0) is None
                    &&& final(self).display == (Display { w: dimensions.0, h: dimensions.1 })
                    &&& forall|i: int|
                        0 <= i < old(self).fonts.values().len() ==> resized_font(
                            old(self).fonts.values()[i],
                            #[trigger] final(self).fonts.values()[i],
                            dimensions.0,
                            dimensions.1,
                        )
                    &&& jobs.len() == old(self).texts.values().len()
                    &&& forall|i: int|
                        0 <= i < old(self).texts.values().len() ==> reloaded(
                            old(self).texts.values()[i],
                            #[trigger] final(self).texts.values()[i],
                            final(self).fonts,
                            jobs[i],
                        )
                },
                Err(e) => {
                    &&& final(self).display == old(self).display
                    &&& final(self).fonts == old(self).fonts
                    &&& final(self).texts == old(self).texts
                    &&& Some(e) == if dimensions.0 == 0 || dimensions.1 == 0 {
                        Some(TextError::EmptyDisplay)
                    } else {
                        first_load_error(old(self).texts.values(), old(self).fonts, 0)
                    }
                },
            },
    {
        let (w, h) = dimensions;
        if w == 0 || h == 0 {
            return Err(TextError::EmptyDisplay);
        }
        let mut i: usize = 0;
        while i < self.texts.len()
            invariant
                *self == *old(self),
                self.wf(),
                dimensions == (w, h),
                w > 0 && h > 0,
                i <= self.texts.values().len(),
                first_load_error(self.texts.values(), self.fonts, 0) == first_load_error(
                    self.texts.values(),
                    self.fonts,
                    i as int,
                ),
            decreases self.texts.values().len() - i,
        {
            let text = self.texts.value_at(i);
            proof {
                assert(self.fonts@.contains_key(text.font@) == self.fonts.contains(text.font@));
                assert(first_load_error(self.texts.values(), self.fonts, i as int) == match text@.load_error(
                    self.fonts,
                ) {
                    Some(e) => Some(e),
                    None => first_load_error(self.texts.values(), self.fonts, i + 1),
                });
            }
            if !self.fonts.contains_key(text.font.as_str()) {
                return Err(TextError::UnknownFont);
            }
            if text.text.as_str().as_bytes().len() >= MAX_WEIGHT {
                return Err(TextError::TextTooLong);
            }
            i += 1;
        }
        self.display.update_size(dimensions);
        let mut i: usize = 0;
        while i < self.fonts.len()
            invariant
                w > 0 && h > 0,
                self.display == (Display { w, h }),
                self.texts == old(self).texts,
                self.active_text == old(self).active_text,
                i <= self.fonts.values().len(),
                self.fonts.wf(),
                self.fonts.names() == old(self).fonts.names(),
                self.fonts.values().len() == old(self).fonts.values().len(),
                old(self).wf(),
                first_load_error(old(self).texts.values(), old(self).fonts, 0) is None,
                forall|j: int|
                    0 <= j < i ==> resized_font(old(self).fonts.values()[j], #[trigger] self.fonts.values()[j], w, h),
                forall|j: int|
                    i <= j < self.fonts.values().len() ==> #[trigger] self.fonts.values()[j] == old(
                        self,
                    ).fonts.values()[j],
            decreases self.fonts.values().len() - i,
        {
            let ghost before = self.fonts;
            let font = self.fonts.value_mut(i);
            font.update_size(w, h);
            proof {
                self.fonts.lemma_update(before, i as int);
            }
            i += 1;
        }
        proof {
            assert forall|f: Seq<char>| self.fonts.contains(f) == old(self).fonts.contains(f) by {}
            assert forall|j: int| 0 <= j < self.texts.values().len() implies (#[trigger] self.texts.values()[j])@.load_error(
                self.fonts,
            ) is None by {
                lemma_no_load_error(old(self).texts.values(), old(self).fonts, 0, j);
                let font = self.texts.values()[j].font@;
                assert(self.fonts.contains(font) == old(self).fonts.contains(font));
            }
            assert forall|j: int| 0 <= j < self.fonts.values().len() implies (#[trigger] self.fonts.values()[j]).wf() by {
                assert(resized_font(old(self).fonts.values()[j], self.fonts.values()[j], w, h));
            }
        }
        let mut jobs: Vec<MeshJob> = Vec::new();
        let mut i: usize = 0;
        while i < self.texts.len()
            invariant
                i <= self.texts.values().len(),
                self.texts.wf(),
                fonts_wf(self.fonts),
                old(self).wf(),
                self.display == (Display { w, h }),
                self.active_text == old(self).active_text,
                self.fonts.names() == old(self).fonts.names(),
                self.fonts.values().len() == old(self).fonts.values().len(),
                forall|j: int|
                    0 <= j < old(self).fonts.values().len() ==> resized_font(
                        old(self).fonts.values()[j],
                        #[trigger] self.fonts.values()[j],
                        w,
                        h,
                    ),
                self.texts.names() == old(self).texts.names(),
                self.texts.values().len() == old(self).texts.values().len(),
                jobs.len() == i,
                forall|j: int|
                    0 <= j < old(self).texts.values().len() ==> (#[trigger] old(self).texts.values()[j])@.load_error(
                        self.fonts,
                    ) is None,
                forall|j: int|
                    0 <= j < i ==> reloaded(
                        old(self).texts.values()[j],
                        #[trigger] self.texts.values()[j],
                        self.fonts,
                        jobs[j],
                    ),
                forall|j: int|
                    i <= j < self.texts.values().len() ==> #[trigger] self.texts.values()[j] == old(
                        self,
                    ).texts.values()[j],
            decreases self.texts.values().len() - i,
        {
            let ghost before = self.texts;
            let ghost jobs_before = jobs@;
            let text = self.texts.value_mut(i);
            let name = text.label.clone();
            match text.update_size(&self.fonts) {
                Ok((release, mesh)) => {
                    jobs.push(MeshJob { label: name, release, mesh: Some(mesh) });
                },
                Err(e) => {
                    return Err(e);
                },
            }
            proof {
                self.texts.lemma_update(before, i as int);
                assert forall|j: int| 0 <= j < i + 1 implies reloaded(
                    old(self).texts.values()[j],
                    #[trigger] self.texts.values()[j],
                    self.fonts,
                    jobs[j],
                ) by {
                    if j < i {
                        assert(self.texts.values()[j] == before.values()[j]);
                        assert(jobs[j] == jobs_before[j]);
                    }
                }
            }
            i += 1;
        }
        proof {
            assert forall|f: Seq<char>| #[trigger] self.fonts.contains(f) implies {
                &&& self.fonts.value(f).tex_atlas@ == f
                &&& self.fonts.value(f).rtmc.metadata.display_width == self.display.w
                &&& self.fonts.value(f).rtmc.metadata.display_height == self.display.h
            } by {
                self.fonts.lemma_index(f);
                let j = self.fonts.names().index_of(f);
                assert(old(self).fonts.contains(f));
                assert(resized_font(old(self).fonts.values()[j], self.fonts.values()[j], w, h));
            }
            assert forall|l: Seq<char>| #[trigger] self.texts.contains(l) implies old(self).texts.contains(l)
                && self.texts.value(l).label@ == l && self.texts.value(l).effect.wf() && self.texts.value(
                l,
            ).font@ == old(self).texts.value(l).font@ by {
                self.texts.lemma_index(l);
                let j = self.texts.names().index_of(l);
                old(self).texts.lemma_entry(j);
                assert(reloaded(old(self).texts.values()[j], self.texts.values()[j], self.fonts, jobs[j]));
            }
            assert forall|f: Seq<char>, l: Seq<char>| #[trigger]
                lists(self.active_text, f, l) implies self.texts.contains(l) && self.texts.value(l).font@
                == f by {
                assert(old(self).texts.contains(l));
            }
        }
        Ok(jobs)
    }
}

/// Where no label from `from` on has a load error, the label with the
/// index `j` has none.
pub proof fn lemma_no_load_error(texts: Seq<GuiText>, fonts: NameMap<RFontType>, from: int, j: int)
    requires
        0 <= from <= j < texts.len(),
        first_load_error(texts, fonts, from) is None,
    ensures
        texts[j]@.load_error(fonts) is None,
    decreases j - from,
{
    if from < j {
        lemma_no_load_error(texts, fonts, from + 1, j);
    }
}

} // verus!
