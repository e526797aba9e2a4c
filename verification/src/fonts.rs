//! Fonts by name, and glyphs that are ready to be drawn.
//!
//! Both keep the order in which they were added, and their handles are places in that order.

use cosmic_text::fontdb::{Source, Style};
use cosmic_text::FontSystem;
use indexmap::IndexMap;
use std::hash::RandomState;
use std::sync::Arc;
use vstd::multiset::Multiset;
use vstd::prelude::*;

verus! {

/// What tells glyphs apart: the number of the face, the number of the glyph in it, the bits of the size,
/// the flags, and the bits of the thickness of the outline.
pub type GlyphKey = (u32, u16, u32, u32, u32);

/// The indices of a glyph's triangles, from the first one up to the first one behind them, and those of
/// its outline.
pub type GlyphRange = (u32, u32, Option<(u32, u32)>);

/// Family, stretch, style and weight of a face.
pub type FaceView = (Seq<char>, u16, u16, u16);

/// The same, as it is kept.
pub type FaceValues = (String, u16, u16, u16);

/// The view of a face as it is kept.
pub open spec fn face_view(face: FaceValues) -> FaceView {
    (face.0@, face.1, face.2, face.3)
}

/// What a font is told apart by when text is laid out.
#[derive(Debug)]
pub struct Face {
    pub family: String,
    /// From 1 for the narrowest to 9 for the widest.
    pub stretch: u16,
    /// One of `STYLE_NORMAL`, `STYLE_ITALIC` and `STYLE_OBLIQUE`.
    pub style: u16,
    pub weight: u16,
}

impl View for Face {
    type V = FaceView;

    open spec fn view(&self) -> FaceView {
        (self.family@, self.stretch, self.style, self.weight)
    }
}

/// The style of a face that stands upright.
pub const STYLE_NORMAL: u16 = 0;

/// The style of a face that is drawn to be cursive.
pub const STYLE_ITALIC: u16 = 1;

/// The style of a face that is sloped.
pub const STYLE_OBLIQUE: u16 = 2;

/// The fonts that are known to the text layout of the `cosmic-text` crate. What it knows is said by
/// `faces_of`.
#[verifier::external_type_specification]
#[verifier::external_body]
pub struct ExFontSystem(FontSystem);

/// The faces in the database of a font system: of each that has a family, the first family, and its
/// stretch, style and weight as numbers.
pub uninterp spec fn faces_of(system: FontSystem) -> Multiset<FaceView>;

/// The faces of a font file, in the order in which they are loaded. Those that are malformed or have no
/// name are not among them.
pub uninterp spec fn loaded_faces(bytes: Seq<u8>) -> Seq<FaceView>;

/// Loads a font file and looks at its first face.
///
/// Calls `Database::load_font_source` with the bytes in memory, and `Database::face` on the first face
/// that was loaded. Which faces are loaded, and what is read of them, is a function of the file's bytes.
/// They are added to the database of the font system, which keeps those that it has.
#[verifier::external_body]
fn load_face(system: &mut FontSystem, bytes: Vec<u8>) -> (r: Option<FaceValues>)
    ensures
        match r {
            Some(face) => loaded_faces(bytes@).len() > 0 && loaded_faces(bytes@)[0] == face_view(face),
            None => loaded_faces(bytes@).len() == 0,
        },
        faces_of(*final(system)) == faces_of(*old(system)).add(loaded_faces(bytes@).to_multiset()),
{
    let ids = system.db_mut().load_font_source(Source::Binary(Arc::new(bytes)));
    let face = system.db().face(*ids.first()?)?;
    let style = match face.style {
        Style::Normal => 0,
        Style::Italic => 1,
        Style::Oblique => 2,
    };
    Some((face.families.first()?.0.clone(), face.stretch.to_number(), style, face.weight.0))
}

/// The font system can lay out text with every font: it knows their faces.
pub open spec fn all_known(fonts: Seq<(Seq<char>, FaceView)>, known: Multiset<FaceView>) -> bool {
    forall|i: int| 0 <= i < fonts.len() ==> known.count((#[trigger] fonts[i]).1) > 0
}

/// If the faces of all fonts are known, they are so after a file was loaded, and so is the face that is
/// put in from it.
pub proof fn law_fonts_known(
    fonts: Seq<(Seq<char>, FaceView)>,
    known: Multiset<FaceView>,
    name: Seq<char>,
    loaded: Seq<FaceView>,
)
    requires
        all_known(fonts, known),
    ensures
        all_known(fonts, known.add(loaded.to_multiset())),
        loaded.len() > 0 ==> all_known(put(fonts, name, loaded[0]), known.add(loaded.to_multiset())),
{
    broadcast use vstd::multiset::group_multiset_axioms;

    let more = known.add(loaded.to_multiset());
    assert forall|i: int| 0 <= i < fonts.len() implies more.count((#[trigger] fonts[i]).1) > 0 by {
        assert(known.count(fonts[i].1) > 0);
    }
    if loaded.len() > 0 {
        vstd::seq_lib::to_multiset_contains(loaded, loaded[0]);
        lemma_place(fonts, name);
        let now = put(fonts, name, loaded[0]);
        assert forall|i: int| 0 <= i < now.len() implies more.count((#[trigger] now[i]).1) > 0 by {
            if now[i].1 != loaded[0] {
                assert(now[i] == fonts[i]);
            }
        }
    }
}

/// A map that keeps the order of its entries, of the `indexmap` crate. What it holds is said by
/// `font_entries` and `glyph_entries`.
#[verifier::external_type_specification]
#[verifier::external_body]
#[verifier::reject_recursive_types(K)]
#[verifier::reject_recursive_types(V)]
#[verifier::reject_recursive_types(S)]
pub struct ExIndexMap<K, V, S>(IndexMap<K, V, S>);

/// The names of fonts and their faces, in the order in which they were added.
pub uninterp spec fn font_entries(m: IndexMap<String, FaceValues, RandomState>) -> Seq<(Seq<char>, FaceView)>;

/// The glyphs that were prepared and where they are, in the order in which they were added.
pub uninterp spec fn glyph_entries(m: IndexMap<GlyphKey, GlyphRange, RandomState>) -> Seq<(GlyphKey, GlyphRange)>;

/// Place of the entry with this key.
pub open spec fn place_of<K, V>(entries: Seq<(K, V)>, key: K) -> Option<int>
    decreases entries.len(),
{
    if entries.len() == 0 {
        None
    } else {
        match place_of(entries.drop_last(), key) {
            Some(i) => Some(i),
            None => if entries.last().0 == key {
                Some(entries.len() - 1)
            } else {
                None
            },
        }
    }
}

/// The entries after a value was put in. A key that is there keeps its place.
pub open spec fn put<K, V>(entries: Seq<(K, V)>, key: K, value: V) -> Seq<(K, V)> {
    match place_of(entries, key) {
        Some(i) => entries.update(i, (key, value)),
        None => entries.push((key, value)),
    }
}

/// What was put in is found at its place, and the place of a key does not change.
pub proof fn law_put<K, V>(entries: Seq<(K, V)>, key: K, value: V, other: K)
    ensures
        ({
            let now = put(entries, key, value);
            &&& place_of(now, key) is Some
            &&& 0 <= place_of(now, key)->0 < now.len()
            &&& now[place_of(now, key)->0] == (key, value)
            &&& place_of(entries, other) is Some ==> place_of(now, other) == place_of(entries, other)
            &&& other != key ==> place_of(now, other) == place_of(entries, other)
            &&& place_of(entries, key) is None ==> place_of(now, key) == Some(entries.len() as int)
        }),
{
    let now = put(entries, key, value);
    lemma_place(entries, key);
    match place_of(entries, key) {
        Some(i) => {
            lemma_same_places(entries, now, key);
            lemma_same_places(entries, now, other);
        },
        None => {
            assert(now.drop_last() =~= entries);
        },
    }
}

proof fn lemma_place<K, V>(entries: Seq<(K, V)>, key: K)
    ensures
        place_of(entries, key) matches Some(i) ==> 0 <= i < entries.len() && entries[i].0 == key,
    decreases entries.len(),
{
    if entries.len() > 0 {
        lemma_place(entries.drop_last(), key);
    }
}

proof fn lemma_same_places<K, V>(a: Seq<(K, V)>, b: Seq<(K, V)>, key: K)
    requires
        a.len() == b.len(),
        forall|i: int| 0 <= i < a.len() ==> (#[trigger] a[i]).0 == b[i].0,
    ensures
        place_of(a, key) == place_of(b, key),
    decreases a.len(),
{
    if a.len() > 0 {
        let c = a.drop_last();
        let d = b.drop_last();
        assert forall|i: int| 0 <= i < c.len() implies (#[trigger] c[i]).0 == d[i].0 by {
            assert(a[i].0 == b[i].0);
        }
        lemma_same_places(c, d, key);
        assert(a[a.len() - 1].0 == b[a.len() - 1].0);
    }
}

/// `IndexMap::new` makes a map without entries.
#[verifier::external_body]
fn no_fonts() -> (r: IndexMap<String, FaceValues, RandomState>)
    ensures
        font_entries(r) == Seq::<(Seq<char>, FaceView)>::empty(),
{
    IndexMap::new()
}

/// `IndexMap::get_index_of` is the place of a key, if the map has it.
#[verifier::external_body]
fn font_place(m: &IndexMap<String, FaceValues, RandomState>, name: &str) -> (r: Option<usize>)
    ensures
        match r {
            Some(i) => place_of(font_entries(*m), name@) == Some(i as int),
            None => place_of(font_entries(*m), name@) is None,
        },
{
    m.get_index_of(name)
}

/// `IndexMap::insert` puts an entry last in order, or replaces the value of a key that is there.
#[verifier::external_body]
fn put_font(m: &mut IndexMap<String, FaceValues, RandomState>, name: String, face: FaceValues)
    ensures
        font_entries(*final(m)) == put(font_entries(*old(m)), name@, face_view(face)),
{
    m.insert(name, face);
}

/// `IndexMap::get_index` is the entry at a place, if there is one. Only its value is handed out.
#[verifier::external_body]
fn font_at(m: &IndexMap<String, FaceValues, RandomState>, place: usize) -> (r: Option<FaceValues>)
    ensures
        match r {
            Some(face) => place < font_entries(*m).len() && face_view(face) == font_entries(
                *m,
            )[place as int].1,
            None => place >= font_entries(*m).len(),
        },
{
    m.get_index(place).map(|entry| entry.1.clone())
}

/// `IndexMap::new` makes a map without entries.
#[verifier::external_body]
fn no_glyphs() -> (r: IndexMap<GlyphKey, GlyphRange, RandomState>)
    ensures
        glyph_entries(r) == Seq::<(GlyphKey, GlyphRange)>::empty(),
{
    IndexMap::new()
}

/// `IndexMap::get_index_of` is the place of a key, if the map has it.
#[verifier::external_body]
fn glyph_place(m: &IndexMap<GlyphKey, GlyphRange, RandomState>, key: GlyphKey) -> (r: Option<usize>)
    ensures
        match r {
            Some(i) => place_of(glyph_entries(*m), key) == Some(i as int),
            None => place_of(glyph_entries(*m), key) is None,
        },
{
    m.get_index_of(&key)
}

/// `IndexMap::insert_full` puts an entry last in order, or replaces the value of a key that is there, and
/// returns its place.
#[verifier::external_body]
fn put_glyph(m: &mut IndexMap<GlyphKey, GlyphRange, RandomState>, key: GlyphKey, range: GlyphRange) -> (r:
    usize)
    ensures
        glyph_entries(*final(m)) == put(glyph_entries(*old(m)), key, range),
        place_of(glyph_entries(*final(m)), key) == Some(r as int),
{
    m.insert_full(key, range).0
}

/// `IndexMap::get_index` is the entry at a place, if there is one. Only its value is handed out.
#[verifier::external_body]
fn glyph_at(m: &IndexMap<GlyphKey, GlyphRange, RandomState>, place: usize) -> (r: Option<GlyphRange>)
    ensures
        r == if place < glyph_entries(*m).len() {
            Some(glyph_entries(*m)[place as int].1)
        } else {
            None
        },
{
    m.get_index(place).map(|entry| *entry.1)
}

/// A font that was added.
#[derive(Copy, Clone, Debug, PartialEq, Eq, Structural)]
pub struct FontHandle(pub usize);

/// A glyph that was prepared.
#[derive(Copy, Clone, Debug, PartialEq, Eq, Structural)]
pub struct GlyphHandle(pub usize);

/// The fonts by name.
pub struct FontTable {
    fonts: IndexMap<String, FaceValues, RandomState>,
}

impl View for FontTable {
    type V = Seq<(Seq<char>, FaceView)>;

    closed spec fn view(&self) -> Seq<(Seq<char>, FaceView)> {
        font_entries(self.fonts)
    }
}

impl FontTable {
    pub fn new() -> (r: FontTable)
        ensures
            r@ == Seq::<(Seq<char>, FaceView)>::empty(),
    {
        FontTable { fonts: no_fonts() }
    }

    /// The handle of the font with this name.
    pub fn get_handle(&self, name: &str) -> (r: Option<FontHandle>)
        ensures
            match r {
                Some(handle) => place_of(self@, name@) == Some(handle.0 as int),
                None => place_of(self@, name@) is None,
            },
    {
        match font_place(&self.fonts, name) {
            Some(i) => Some(FontHandle(i)),
            None => None,
        }
    }

    /// Adds a font under a name, if a face of it was loaded. A font of the same name keeps its handle.
    /// Returns whether it was added.
    pub fn add_face(&mut self, name: String, face: Option<Face>) -> (r: bool)
        ensures
            match face {
                Some(f) => r && final(self)@ == put(old(self)@, name@, f@),
                None => !r && final(self)@ == old(self)@,
            },
    {
        match face {
            Some(f) => {
                put_font(&mut self.fonts, name, (f.family, f.stretch, f.style, f.weight));
                true
            },
            None => false,
        }
    }

    /// Loads a font file and adds its first face under a name. A font of the same name keeps its handle.
    /// Returns whether a face could be loaded. The font system knows all faces of the file from then on.
    pub fn add_font(&mut self, system: &mut FontSystem, name: String, bytes: Vec<u8>) -> (r: bool)
        ensures
            r == (loaded_faces(bytes@).len() > 0),
            final(self)@ == if r {
                put(old(self)@, name@, loaded_faces(bytes@)[0])
            } else {
                old(self)@
            },
            faces_of(*final(system)) == faces_of(*old(system)).add(
                loaded_faces(bytes@).to_multiset(),
            ),
            all_known(old(self)@, faces_of(*old(system))) ==> all_known(
                final(self)@,
                faces_of(*final(system)),
            ),
    {
        let face = match load_face(system, bytes) {
            Some((family, stretch, style, weight)) => Some(Face { family, stretch, style, weight }),
            None => None,
        };
        let r = self.add_face(name, face);
        proof {
            if all_known(old(self)@, faces_of(*old(system))) {
                law_fonts_known(old(self)@, faces_of(*old(system)), name@, loaded_faces(bytes@));
            }
        }
        r
    }

    /// The face of a font.
    pub fn face(&self, handle: FontHandle) -> (r: Option<Face>)
        ensures
            match r {
                Some(face) => handle.0 < self@.len() && face@ == self@[handle.0 as int].1,
                None => handle.0 >= self@.len(),
            },
    {
        match font_at(&self.fonts, handle.0) {
            Some((family, stretch, style, weight)) => Some(Face { family, stretch, style, weight }),
            None => None,
        }
    }
}

/// Where the triangles of a glyph are among the indices: the first one, and how many there are.
#[derive(Copy, Clone, Debug, PartialEq, Eq, Structural)]
pub struct DrawRange {
    pub start: u32,
    pub count: u32,
}

/// The glyphs that were prepared.
pub struct GlyphTable {
    glyphs: IndexMap<GlyphKey, GlyphRange, RandomState>,
}

impl View for GlyphTable {
    type V = Seq<(GlyphKey, GlyphRange)>;

    closed spec fn view(&self) -> Seq<(GlyphKey, GlyphRange)> {
        glyph_entries(self.glyphs)
    }
}

/// The part of the indices from `start` up to `end`.
pub open spec fn draw_range(start: u32, end: u32) -> Option<DrawRange> {
    if start <= end {
        Some(DrawRange { start, count: (end - start) as u32 })
    } else {
        None
    }
}

impl GlyphTable {
    pub fn new() -> (r: GlyphTable)
        ensures
            r@ == Seq::<(GlyphKey, GlyphRange)>::empty(),
    {
        GlyphTable { glyphs: no_glyphs() }
    }

    /// The handle of a glyph, if it was prepared.
    pub fn find(&self, key: GlyphKey) -> (r: Option<GlyphHandle>)
        ensures
            match r {
                Some(handle) => place_of(self@, key) == Some(handle.0 as int),
                None => place_of(self@, key) is None,
            },
    {
        match glyph_place(&self.glyphs, key) {
            Some(i) => Some(GlyphHandle(i)),
            None => None,
        }
    }

    /// Adds a glyph whose triangles lie from `start` up to `end`, and those of its outline, if it has one,
    /// from there up to `outline_end`.
    pub fn add(&mut self, key: GlyphKey, start: u32, end: u32, outline_end: Option<u32>) -> (r: GlyphHandle)
        ensures
            final(self)@ == put(
                old(self)@,
                key,
                (
                    start,
                    end,
                    match outline_end {
                        Some(e) => Some((end, e)),
                        None => None,
                    },
                ),
            ),
            place_of(final(self)@, key) == Some(r.0 as int),
            place_of(old(self)@, key) is None ==> r.0 == old(self)@.len(),
    {
        let outline: Option<(u32, u32)> = match outline_end {
            Some(e) => Some((end, e)),
            None => None,
        };
        proof {
            law_put(self@, key, (start, end, outline), key);
        }
        GlyphHandle(put_glyph(&mut self.glyphs, key, (start, end, outline)))
    }

    /// What is to be drawn for a glyph.
    pub fn fill(&self, handle: GlyphHandle) -> (r: Option<DrawRange>)
        ensures
            r == if handle.0 < self@.len() {
                draw_range(self@[handle.0 as int].1.0, self@[handle.0 as int].1.1)
            } else {
                None
            },
    {
        match glyph_at(&self.glyphs, handle.0) {
            Some((start, end, _)) => if start <= end {
                Some(DrawRange { start, count: end - start })
            } else {
                None
            },
            None => None,
        }
    }

    /// What is to be drawn for the outline of a glyph, if it has one.
    pub fn outline(&self, handle: GlyphHandle) -> (r: Option<DrawRange>)
        ensures
            r == if handle.0 < self@.len() {
                match self@[handle.0 as int].1.2 {
                    Some((start, end)) => draw_range(start, end),
                    None => None,
                }
            } else {
                None
            },
    {
        match glyph_at(&self.glyphs, handle.0) {
            Some((_, _, Some((start, end)))) => if start <= end {
                Some(DrawRange { start, count: end - start })
            } else {
                None
            },
            _ => None,
        }
    }
}

/// Kinds of commands that the outline of a glyph is drawn with.
#[derive(Copy, Clone, Debug, PartialEq, Eq, Structural)]
pub enum OutlineCommand {
    MoveTo,
    Close,
    LineTo,
    QuadTo,
    CurveTo,
}

/// Does a command end the part of the outline that is being drawn?
pub open spec fn closes(is_open: bool, command: OutlineCommand) -> bool {
    is_open && (command == OutlineCommand::MoveTo || command == OutlineCommand::Close)
}

/// Follows a command of an outline. Returns whether the part that is being drawn is ended first.
pub fn outline_step(is_open: &mut bool, command: OutlineCommand) -> (r: bool)
    ensures
        r == closes(*old(is_open), command),
        *final(is_open) == (command != OutlineCommand::Close),
{
    match command {
        OutlineCommand::MoveTo => {
            let r: bool = *is_open;
            *is_open = true;
            r
        },
        OutlineCommand::Close => {
            let r: bool = *is_open;
            *is_open = false;
            r
        },
        _ => {
            *is_open = true;
            false
        },
    }
}

/// The number of parts that a run of commands ends.
pub open spec fn closed_parts(is_open: bool, commands: Seq<OutlineCommand>) -> nat
    decreases commands.len(),
{
    if commands.len() == 0 {
        0
    } else {
        let rest = closed_parts(commands[0] != OutlineCommand::Close, commands.drop_first());
        if closes(is_open, commands[0]) {
            rest + 1
        } else {
            rest
        }
    }
}

/// The number of times that a part is begun while none is open.
pub open spec fn opened_parts(is_open: bool, commands: Seq<OutlineCommand>) -> nat
    decreases commands.len(),
{
    if commands.len() == 0 {
        0
    } else {
        let rest = opened_parts(commands[0] != OutlineCommand::Close, commands.drop_first());
        if commands[0] == OutlineCommand::MoveTo || !is_open && commands[0] != OutlineCommand::Close {
            rest + 1
        } else {
            rest
        }
    }
}

/// Every part that is ended was begun, and at most the last one is left open.
pub proof fn law_parts(is_open: bool, commands: Seq<OutlineCommand>)
    ensures
        ({
            let begun = opened_parts(is_open, commands) + if is_open {
                1int
            } else {
                0
            };
            let ended = closed_parts(is_open, commands);
            ended <= begun <= ended + 1
        }),
    decreases commands.len(),
{
    if commands.len() > 0 {
        law_parts(commands[0] != OutlineCommand::Close, commands.drop_first());
    }
}

/// The number of the vertex that is added next. `None` if there are too many.
pub fn next_vertex(len: usize) -> (r: Option<u32>)
    ensures
        r is Some <==> len < u32::MAX,
        r matches Some(id) ==> id == len,
{
    if len >= u32::MAX as usize {
        None
    } else {
        Some(len as u32)
    }
}

/// The part of the indices that a glyph takes up goes from its start to its end.
pub proof fn law_draw_range(start: u32, end: u32)
    ensures
        draw_range(start, end) is Some <==> start <= end,
        draw_range(start, end) matches Some(r) ==> r.start == start && r.start + r.count == end,
{
}

/// A part of an outline is ended by closing it or by moving on to another one, and only while it is open.
pub proof fn law_closes(is_open: bool, command: OutlineCommand)
    ensures
        closes(is_open, command) ==> is_open,
        closes(true, OutlineCommand::MoveTo),
        closes(true, OutlineCommand::Close),
        command != OutlineCommand::MoveTo && command != OutlineCommand::Close ==> !closes(is_open, command),
{
}

} // verus!
