//! What is drawn in a frame: the labels that are enabled, batched by the
//! atlas of their font.

use vstd::prelude::*;
use crate::namemap::NameMap;
use crate::text::guitext::{GuiText, GuiTextModel};
use crate::text::textmgr::{lists, TextMgr};
use crate::text::{RFontEffect, RFontType, Vector2};
use crate::texture::Texture;

verus! {

/// One label to draw: the handle and the size of its mesh, where it stands,
/// and how its glyphs are drawn.
#[derive(Clone, Copy, Debug, PartialEq, Eq, Structural)]
pub struct DrawCall {
    pub vao: u32,
    pub vertex_count: u32,
    pub position: Vector2,
    pub effect: RFontEffect,
}

/// The labels to draw with one atlas bound.
pub struct FontBatch {
    pub tex_id: u32,
    pub calls: Vec<DrawCall>,
}

/// What a batch holds, as mathematical values.
pub struct BatchModel {
    pub tex_id: u32,
    pub calls: Seq<DrawCall>,
}

impl View for FontBatch {
    type V = BatchModel;

    open spec fn view(&self) -> BatchModel {
        BatchModel { tex_id: self.tex_id, calls: self.calls@ }
    }
}

/// The batches of a run of batches, as mathematical values.
pub open spec fn batches_model(batches: Seq<FontBatch>) -> Seq<BatchModel> {
    batches.map_values(|b: FontBatch| b@)
}

/// The label after `delta` more microseconds: the timers of its effect have
/// advanced.
pub open spec fn animated_label(t: GuiTextModel, delta: u64) -> GuiTextModel {
    GuiTextModel { effect: t.effect.animated(delta), ..t }
}

/// How a label is drawn after `delta` more microseconds.
pub open spec fn call_of(t: GuiTextModel, delta: u64) -> DrawCall {
    DrawCall {
        vao: t.text_mesh_vao,
        vertex_count: t.vertex_count,
        position: t.position,
        effect: t.effect.animated(delta),
    }
}

/// How the first `n` of the labels `labels` are drawn.
pub open spec fn calls_upto(texts: NameMap<GuiText>, labels: Seq<Seq<char>>, n: int, delta: u64) -> Seq<
    DrawCall,
>
    decreases n,
{
    if n <= 0 {
        Seq::empty()
    } else {
        calls_upto(texts, labels, n - 1, delta).push(call_of(texts.value(labels[n - 1])@, delta))
    }
}

/// The texture of the atlas of `font`, if the font is registered and its
/// atlas is loaded.
pub open spec fn atlas(fonts: NameMap<RFontType>, textures: NameMap<Texture>, font: Seq<char>) -> Option<
    u32,
> {
    if fonts.contains(font) && textures.contains(fonts.value(font).tex_atlas@) {
        Some(textures.value(fonts.value(font).tex_atlas@).tex_id)
    } else {
        None
    }
}

/// The batches of the first `n` fonts that have enabled labels. A font
/// whose atlas is not loaded has no batch.
pub open spec fn batches_upto(mgr: TextMgr, textures: NameMap<Texture>, n: int, delta: u64) -> Seq<
    BatchModel,
>
    decreases n,
{
    if n <= 0 {
        Seq::empty()
    } else {
        let before = batches_upto(mgr, textures, n - 1, delta);
        let labels = mgr.active_text.values()[n - 1].names();
        match atlas(mgr.fonts, textures, mgr.active_text.names()[n - 1]) {
            Some(tex_id) => before.push(
                BatchModel { tex_id, calls: calls_upto(mgr.texts, labels, labels.len() as int, delta) },
            ),
            None => before,
        }
    }
}

/// The names of those of the first `n` fonts with enabled labels that have
/// no batch.
pub open spec fn missing_upto(mgr: TextMgr, textures: NameMap<Texture>, n: int) -> Seq<Seq<char>>
    decreases n,
{
    if n <= 0 {
        Seq::empty()
    } else {
        let before = missing_upto(mgr, textures, n - 1);
        match atlas(mgr.fonts, textures, mgr.active_text.names()[n - 1]) {
            Some(_) => before,
            None => before.push(mgr.active_text.names()[n - 1]),
        }
    }
}

/// The names of a run of names, as mathematical values.
pub open spec fn names_model(names: Seq<String>) -> Seq<Seq<char>> {
    names.map_values(|name: String| name@)
}

/// The label is enabled, and the atlas of its font is loaded.
pub open spec fn is_drawn(mgr: TextMgr, textures: NameMap<Texture>, label: Seq<char>) -> bool {
    mgr.is_active(label) && atlas(mgr.fonts, textures, mgr.texts.value(label).font@) is Some
}

/// Advances the effects of the labels of one batch, and says how each of
/// them is drawn.
fn animate_batch(texts: &mut NameMap<GuiText>, batch: &NameMap<()>, delta: u64) -> (calls: Vec<DrawCall>)
    requires
        old(texts).wf(),
        batch.wf(),
        forall|l: Seq<char>| #[trigger] old(texts).contains(l) ==> old(texts).value(l).effect.wf(),
        forall|l: Seq<char>| #[trigger] batch.contains(l) ==> old(texts).contains(l),
    ensures
        final(texts).wf(),
        final(texts).names() == old(texts).names(),
        calls@ == calls_upto(*old(texts), batch.names(), batch.names().len() as int, delta),
        forall|l: Seq<char>| #[trigger]
            final(texts).contains(l) ==> final(texts).value(l).effect.wf() && final(texts).value(l)@ == if batch.contains(
                l,
            ) {
                animated_label(old(texts).value(l)@, delta)
            } else {
                old(texts).value(l)@
            },
{
    let mut calls: Vec<DrawCall> = Vec::new();
    let mut j: usize = 0;
    while j < batch.len()
        invariant
            j <= batch.names().len(),
            batch.wf(),
            old(texts).wf(),
            texts.wf(),
            texts.names() == old(texts).names(),
            forall|l: Seq<char>| #[trigger] batch.contains(l) ==> old(texts).contains(l),
            calls@ == calls_upto(*old(texts), batch.names(), j as int, delta),
            forall|l: Seq<char>| #[trigger]
                texts.contains(l) ==> texts.value(l).effect.wf() && texts.value(l)@ == if batch.contains(l)
                    && batch.names().index_of(l) < j {
                    animated_label(old(texts).value(l)@, delta)
                } else {
                    old(texts).value(l)@
                },
        decreases batch.names().len() - j,
    {
        let name = batch.name_at(j);
        let ghost before = *texts;
        proof {
            batch.lemma_entry(j as int);
            assert(before.contains(name@));
        }
        match texts.find(name.as_str()) {
            Some(i) => {
                proof {
                    before.lemma_entry(i as int);
                }
                let text = texts.value_mut(i);
                text.effect.anim_timer(delta);
                calls.push(
                    DrawCall {
                        vao: text.text_mesh_vao,
                        vertex_count: text.vertex_count,
                        position: text.position,
                        effect: text.effect,
                    },
                );
                proof {
                    texts.lemma_update(before, i as int);
                    assert forall|l: Seq<char>| #[trigger] texts.contains(l) implies texts.value(l).effect.wf()
                        && texts.value(l)@ == if batch.contains(l) && batch.names().index_of(l) < j + 1 {
                        animated_label(old(texts).value(l)@, delta)
                    } else {
                        old(texts).value(l)@
                    } by {
                        assert(before.contains(l));
                        assert(texts@.contains_key(l));
                        if l != name@ {
                            assert(texts@[l] == before@[l]);
                            if batch.contains(l) {
                                batch.lemma_index(l);
                            }
                        }
                    }
                }
            },
            None => {},
        }
        j += 1;
    }
    proof {
        assert forall|l: Seq<char>| batch.contains(l) implies batch.names().index_of(l) < batch.names().len() by {
            batch.lemma_index(l);
        }
    }
    calls
}

/// Says what to draw in a frame that comes `delta` microseconds after the
/// frame before, and advances the effects of the labels that are drawn.
///
/// There is a batch for every font that has enabled labels and whose atlas
/// is among `textures`, in the order of the registry's index of enabled
/// labels, and in it a call for every enabled label of the font, in the
/// order of the font's list in that index. A font whose atlas is missing is
/// passed over, and its labels stay as they are.
pub fn font_batches(mgr: &mut TextMgr, textures: &NameMap<Texture>, delta: u64) -> (batches: Vec<FontBatch>)
    requires
        old(mgr).wf(),
        textures.wf(),
    ensures
        final(mgr).wf(),
        final(mgr).display == old(mgr).display,
        final(mgr).fonts == old(mgr).fonts,
        final(mgr).active_text == old(mgr).active_text,
        final(mgr).texts.names() == old(mgr).texts.names(),
        batches_model(batches@) == batches_upto(
            *old(mgr),
            *textures,
            old(mgr).active_text.names().len() as int,
            delta,
        ),
        forall|l: Seq<char>| #[trigger]
            final(mgr).texts.contains(l) ==> final(mgr).texts.value(l)@ == if is_drawn(*old(mgr), *textures, l) {
                animated_label(old(mgr).texts.value(l)@, delta)
            } else {
                old(mgr).texts.value(l)@
            },
{
    let mut batches: Vec<FontBatch> = Vec::new();
    let mut i: usize = 0;
    proof {
        assert(batches_model(batches@) =~= Seq::<BatchModel>::empty());
    }
    while i < mgr.active_text.len()
        invariant
            i <= mgr.active_text.names().len(),
            old(mgr).wf(),
            textures.wf(),
            mgr.texts.wf(),
            mgr.display == old(mgr).display,
            mgr.fonts == old(mgr).fonts,
            mgr.active_text == old(mgr).active_text,
            mgr.texts.names() == old(mgr).texts.names(),
            batches_model(batches@) == batches_upto(*old(mgr), *textures, i as int, delta),
            forall|l: Seq<char>| #[trigger]
                mgr.texts.contains(l) ==> mgr.texts.value(l).effect.wf() && mgr.texts.value(l)@ == if is_drawn(
                    *old(mgr),
                    *textures,
                    l,
                ) && mgr.active_text.names().index_of(old(mgr).texts.value(l).font@) < i {
                    animated_label(old(mgr).texts.value(l)@, delta)
                } else {
                    old(mgr).texts.value(l)@
                },
        decreases mgr.active_text.names().len() - i,
    {
        let font_name = mgr.active_text.name_at(i);
        let batch = mgr.active_text.value_at(i);
        let ghost before = mgr.texts;
        let ghost done = batches@;
        proof {
            mgr.active_text.lemma_entry(i as int);
        }
        let tex_id = match mgr.fonts.get(font_name.as_str()) {
            Some(font) => match textures.get(font.tex_atlas.as_str()) {
                Some(texture) => Some(texture.tex_id),
                None => None,
            },
            None => None,
        };
        proof {
            assert(tex_id == atlas(mgr.fonts, *textures, font_name@));
        }
        match tex_id {
            Some(tex_id) => {
                proof {
                    assert forall|l: Seq<char>| #[trigger] batch.contains(l) implies before.contains(l)
                        && before.value(l)@ == old(mgr).texts.value(l)@ && old(mgr).texts.value(l).font@
                        == font_name@ by {
                        assert(lists(old(mgr).active_text, font_name@, l));
                        assert(old(mgr).texts.contains(l));
                    }
                }
                let calls = animate_batch(&mut mgr.texts, batch, delta);
                proof {
                    assert forall|k: int| 0 <= k < batch.names().len() implies before.value(
                        #[trigger] batch.names()[k],
                    )@ == old(mgr).texts.value(batch.names()[k])@ by {
                        batch.lemma_entry(k);
                    }
                    lemma_calls_agree(before, old(mgr).texts, batch.names(), batch.names().len() as int, delta);
                }
                batches.push(FontBatch { tex_id, calls });
                proof {
                    assert(batches_model(batches@) =~= batches_model(done).push(
                        BatchModel {
                            tex_id,
                            calls: calls_upto(old(mgr).texts, batch.names(), batch.names().len() as int, delta),
                        },
                    ));
                    assert forall|l: Seq<char>| #[trigger] mgr.texts.contains(l) implies mgr.texts.value(
                        l,
                    ).effect.wf() && mgr.texts.value(l)@ == if is_drawn(*old(mgr), *textures, l)
                        && mgr.active_text.names().index_of(old(mgr).texts.value(l).font@) < i + 1 {
                        animated_label(old(mgr).texts.value(l)@, delta)
                    } else {
                        old(mgr).texts.value(l)@
                    } by {
                        assert(before.contains(l));
                        assert(old(mgr).texts.contains(l));
                        let f = old(mgr).texts.value(l).font@;
                        if batch.contains(l) {
                            assert(lists(old(mgr).active_text, font_name@, l));
                        } else if is_drawn(*old(mgr), *textures, l) {
                            assert(lists(old(mgr).active_text, f, l));
                            mgr.active_text.lemma_index(f);
                            if f == font_name@ {
                                assert(mgr.active_text.value(f) == *batch);
                            }
                        }
                    }
                }
            },
            None => {
                proof {
                    assert forall|l: Seq<char>| #[trigger] mgr.texts.contains(l) implies mgr.texts.value(
                        l,
                    ).effect.wf() && mgr.texts.value(l)@ == if is_drawn(*old(mgr), *textures, l)
                        && mgr.active_text.names().index_of(old(mgr).texts.value(l).font@) < i + 1 {
                        animated_label(old(mgr).texts.value(l)@, delta)
                    } else {
                        old(mgr).texts.value(l)@
                    } by {
                        let f = old(mgr).texts.value(l).font@;
                        if is_drawn(*old(mgr), *textures, l) {
                            assert(lists(old(mgr).active_text, f, l));
                            mgr.active_text.lemma_index(f);
                        }
                    }
                }
            },
        }
        i += 1;
    }
    proof {
        assert forall|l: Seq<char>| #[trigger] mgr.texts.contains(l) implies old(mgr).texts.contains(l)
            && mgr.texts.value(l).label@ == l && mgr.texts.value(l).effect.wf() && mgr.texts.value(l).font@
            == old(mgr).texts.value(l).font@ && mgr.texts.value(l)@ == if is_drawn(*old(mgr), *textures, l) {
            animated_label(old(mgr).texts.value(l)@, delta)
        } else {
            old(mgr).texts.value(l)@
        } by {
            let f = old(mgr).texts.value(l).font@;
            assert(old(mgr).texts.contains(l));
            assert(old(mgr).texts.value(l).label@ == l);
            if is_drawn(*old(mgr), *textures, l) {
                assert(lists(old(mgr).active_text, f, l));
                mgr.active_text.lemma_index(f);
                assert(mgr.texts.value(l)@ == animated_label(old(mgr).texts.value(l)@, delta));
            } else {
                assert(mgr.texts.value(l)@ == old(mgr).texts.value(l)@);
            }
        }
        assert forall|f: Seq<char>, l: Seq<char>| #[trigger]
            lists(mgr.active_text, f, l) implies mgr.texts.contains(l) && mgr.texts.value(l).font@ == f by {
            assert(old(mgr).texts.contains(l));
        }
    }
    batches
}

/// The fonts that have enabled labels and are passed over when the batches
/// are made: those that are not registered, and those whose atlas is not
/// among `textures`.
pub fn missing_atlases(mgr: &TextMgr, textures: &NameMap<Texture>) -> (missing: Vec<String>)
    requires
        mgr.wf(),
        textures.wf(),
    ensures
        names_model(missing@) == missing_upto(*mgr, *textures, mgr.active_text.names().len() as int),
{
    let mut missing: Vec<String> = Vec::new();
    let mut i: usize = 0;
    proof {
        assert(names_model(missing@) =~= Seq::<Seq<char>>::empty());
    }
    while i < mgr.active_text.len()
        invariant
            i <= mgr.active_text.names().len(),
            mgr.wf(),
            textures.wf(),
            names_model(missing@) == missing_upto(*mgr, *textures, i as int),
        decreases mgr.active_text.names().len() - i,
    {
        let font_name = mgr.active_text.name_at(i);
        let found = match mgr.fonts.get(font_name.as_str()) {
            Some(font) => textures.contains_key(font.tex_atlas.as_str()),
            None => false,
        };
        proof {
            assert(found == (atlas(mgr.fonts, *textures, font_name@) is Some));
        }
        if !found {
            let ghost before = missing@;
            missing.push(font_name.clone());
            proof {
                assert(names_model(missing@) =~= names_model(before).push(font_name@));
            }
        }
        i += 1;
    }
    missing
}

/// How labels are drawn depends only on the labels that are drawn.
pub proof fn lemma_calls_agree(
    a: NameMap<GuiText>,
    b: NameMap<GuiText>,
    labels: Seq<Seq<char>>,
    n: int,
    delta: u64,
)
    requires
        n <= labels.len(),
        forall|k: int| 0 <= k < n ==> a.value(#[trigger] labels[k])@ == b.value(labels[k])@,
    ensures
        calls_upto(a, labels, n, delta) == calls_upto(b, labels, n, delta),
    decreases n,
{
    if n > 0 {
        lemma_calls_agree(a, b, labels, n - 1, delta);
    }
}

} // verus!
