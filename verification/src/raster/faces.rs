//! Font faces as tables of drawn glyphs, and which face draws a character.
//!
//! Lengths are in 64ths of a pixel. Three Latin faces are chosen by style; the
//! CJK face is a fallback for single characters, not a style. Metrics follow the
//! face that draws, the baseline does not: the ascent of a line comes from the
//! Latin faces alone, which keeps a mixed-script run on one baseline.

use vstd::prelude::*;

verus! {

/// A Latin face.
#[derive(Debug, Clone, Copy, PartialEq, Eq, Structural)]
pub enum FontStyle {
    Regular,
    Bold,
    Italic,
}

/// A face that can draw a character.
#[derive(Debug, Clone, Copy, PartialEq, Eq, Structural)]
pub enum Face {
    Latin(FontStyle),
    Cjk,
}

/// How a character looks at one size.
#[derive(Debug)]
pub struct Glyph {
    /// How far the pen moves on, in 64ths of a pixel.
    pub advance: u32,
    /// Pixels from the pen to the left edge of the picture.
    pub left: i32,
    /// Pixels from the baseline up to the bottom edge of the picture.
    pub bottom: i32,
    /// Width of the picture in pixels.
    pub width: u32,
    /// Height of the picture in pixels.
    pub height: u32,
    /// How much of each pixel is covered, row by row from the top, out of 255.
    pub coverage: Vec<u8>,
}

/// The glyph of one face for a character, or for what it does not have.
#[derive(Debug)]
pub struct FaceGlyph {
    pub face: Face,
    /// Font size in 64ths of a pixel.
    pub size: u32,
    /// The character; `None` is the box for characters that are missing.
    pub ch: Option<char>,
    pub glyph: Glyph,
}

/// The ascent of one Latin face.
#[derive(Debug)]
pub struct FaceAscent {
    pub font: FontStyle,
    /// Font size in 64ths of a pixel.
    pub size: u32,
    /// From the baseline to the top of a line, in 64ths of a pixel.
    pub ascent: u32,
}

/// The glyphs and ascents that a text is set with.
#[derive(Debug)]
pub struct Faces {
    pub glyphs: Vec<FaceGlyph>,
    pub ascents: Vec<FaceAscent>,
}

/// Whether an entry is the glyph of a face for a character.
pub open spec fn draws(entry: FaceGlyph, face: Face, size: u32, ch: Option<char>) -> bool {
    entry.face == face && entry.size == size && entry.ch == ch
}

/// The first glyph of a face for a character, from entry `i` on.
pub open spec fn glyph_from(
    glyphs: Seq<FaceGlyph>,
    i: int,
    face: Face,
    size: u32,
    ch: Option<char>,
) -> Option<int>
    decreases glyphs.len() - i,
{
    if i >= glyphs.len() {
        None
    } else if draws(glyphs[i], face, size, ch) {
        Some(i)
    } else {
        glyph_from(glyphs, i + 1, face, size, ch)
    }
}

/// The ascent of a face, from entry `i` on; nothing is known of a face that is
/// not listed.
pub open spec fn ascent_from(ascents: Seq<FaceAscent>, i: int, font: FontStyle, size: u32) -> u32
    decreases ascents.len() - i,
{
    if i >= ascents.len() {
        0
    } else if ascents[i].font == font && ascents[i].size == size {
        ascents[i].ascent
    } else {
        ascent_from(ascents, i + 1, font, size)
    }
}

impl Faces {
    /// The entry of a face for a character.
    pub open spec fn entry(&self, face: Face, size: u32, ch: Option<char>) -> Option<int> {
        glyph_from(self.glyphs@, 0, face, size, ch)
    }

    /// The entry that draws a character: of the style's Latin face where it has
    /// the character, else of the CJK face, else the Latin face's box for
    /// characters that are missing.
    pub open spec fn face_for(&self, ch: char, font: FontStyle, size: u32) -> Option<int> {
        let latin = self.entry(Face::Latin(font), size, Some(ch));
        let cjk = self.entry(Face::Cjk, size, Some(ch));
        if latin is Some {
            latin
        } else if cjk is Some {
            cjk
        } else {
            self.entry(Face::Latin(font), size, None)
        }
    }

    /// How far the pen moves on for a character.
    pub open spec fn advance(&self, ch: char, font: FontStyle, size: u32) -> u32 {
        match self.face_for(ch, font, size) {
            Some(i) => self.glyphs@[i].glyph.advance,
            None => 0,
        }
    }

    /// The ascent of a Latin face.
    pub open spec fn ascent(&self, font: FontStyle, size: u32) -> u32 {
        ascent_from(self.ascents@, 0, font, size)
    }

    fn find(&self, face: Face, size: u32, ch: Option<char>) -> (found: Option<usize>)
        ensures
            match found {
                Some(i) => self.entry(face, size, ch) == Some(i as int),
                None => self.entry(face, size, ch) is None,
            },
            found matches Some(i) ==> i < self.glyphs@.len(),
    {
        let mut i: usize = 0;
        while i < self.glyphs.len()
            invariant
                i <= self.glyphs@.len(),
                self.entry(face, size, ch) == glyph_from(self.glyphs@, i as int, face, size, ch),
            decreases self.glyphs@.len() - i,
        {
            let entry: &FaceGlyph = &self.glyphs[i];
            let same: bool = match (entry.ch, ch) {
                (Some(a), Some(b)) => a == b,
                (None, None) => true,
                _ => false,
            };
            if entry.face == face && entry.size == size && same {
                assert(draws(*entry, face, size, ch));
                return Some(i);
            }
            assert(!draws(*entry, face, size, ch));
            i = i + 1;
        }
        None
    }

    /// Which entry draws a character.
    pub fn glyph_index(&self, ch: char, font: FontStyle, size: u32) -> (found: Option<usize>)
        ensures
            match found {
                Some(i) => self.face_for(ch, font, size) == Some(i as int),
                None => self.face_for(ch, font, size) is None,
            },
            found matches Some(i) ==> i < self.glyphs@.len(),
    {
        let latin: Option<usize> = self.find(Face::Latin(font), size, Some(ch));
        if latin.is_some() {
            return latin;
        }
        let cjk: Option<usize> = self.find(Face::Cjk, size, Some(ch));
        if cjk.is_some() {
            return cjk;
        }
        self.find(Face::Latin(font), size, None)
    }

    /// How far the pen moves on for a character.
    pub fn advance_of(&self, ch: char, font: FontStyle, size: u32) -> (a: u32)
        ensures
            a == self.advance(ch, font, size),
    {
        match self.glyph_index(ch, font, size) {
            Some(i) => self.glyphs[i].glyph.advance,
            None => 0,
        }
    }

    /// The ascent of a Latin face.
    pub fn ascent_of(&self, font: FontStyle, size: u32) -> (a: u32)
        ensures
            a == self.ascent(font, size),
    {
        let mut i: usize = 0;
        while i < self.ascents.len()
            invariant
                i <= self.ascents@.len(),
                self.ascent(font, size) == ascent_from(self.ascents@, i as int, font, size),
            decreases self.ascents@.len() - i,
        {
            if self.ascents[i].font == font && self.ascents[i].size == size {
                return self.ascents[i].ascent;
            }
            i = i + 1;
        }
        0
    }
}

/// The fallback is per character: a character that the Latin face has is never
/// drawn by the CJK face, and one that only the CJK face has is drawn by it in
/// every style.
pub proof fn latin_comes_first(faces: &Faces, ch: char, font: FontStyle, size: u32)
    ensures
        faces.entry(Face::Latin(font), size, Some(ch)) matches Some(i) ==> faces.face_for(
            ch,
            font,
            size,
        ) == Some(i) && faces.glyphs@[i].face == Face::Latin(font),
        faces.entry(Face::Latin(font), size, Some(ch)) is None && faces.entry(
            Face::Cjk,
            size,
            Some(ch),
        ) is Some ==> (faces.face_for(ch, font, size) matches Some(i) && faces.glyphs@[i].face
            == Face::Cjk),
{
    lemma_entry_draws(faces.glyphs@, 0, Face::Latin(font), size, Some(ch));
    lemma_entry_draws(faces.glyphs@, 0, Face::Cjk, size, Some(ch));
}

proof fn lemma_entry_draws(
    glyphs: Seq<FaceGlyph>,
    i: int,
    face: Face,
    size: u32,
    ch: Option<char>,
)
    requires
        0 <= i,
    ensures
        glyph_from(glyphs, i, face, size, ch) matches Some(k) ==> 0 <= k < glyphs.len() && draws(
            glyphs[k],
            face,
            size,
            ch,
        ),
    decreases glyphs.len() - i,
{
    if i < glyphs.len() && !draws(glyphs[i], face, size, ch) {
        lemma_entry_draws(glyphs, i + 1, face, size, ch);
    }
}

/// A character is drawn by the first entry for it and its size in the face that
/// is to draw it, and the pen moves on as that entry says. If there is such an
/// entry it is found.
pub proof fn metrics_follow_the_face_that_draws(
    faces: &Faces,
    ch: char,
    font: FontStyle,
    size: u32,
    k: int,
)
    requires
        0 <= k < faces.glyphs@.len(),
        faces.glyphs@[k].size == size,
        faces.glyphs@[k].ch == Some(ch),
        forall|j: int|
            0 <= j < k ==> !((#[trigger] faces.glyphs@[j]).face == faces.glyphs@[k].face
                && faces.glyphs@[j].size == size && faces.glyphs@[j].ch == Some(ch)),
        faces.glyphs@[k].face == Face::Latin(font) || (faces.glyphs@[k].face == Face::Cjk
            && forall|j: int|
            0 <= j < faces.glyphs@.len() ==> !((#[trigger] faces.glyphs@[j]).face == Face::Latin(
                font,
            ) && faces.glyphs@[j].size == size && faces.glyphs@[j].ch == Some(ch))),
    ensures
        faces.face_for(ch, font, size) == Some(k),
        faces.advance(ch, font, size) == faces.glyphs@[k].glyph.advance,
{
    lemma_first(faces.glyphs@, 0, k, faces.glyphs@[k].face, size, Some(ch));
    lemma_entry_draws(faces.glyphs@, 0, Face::Latin(font), size, Some(ch));
}

proof fn lemma_first(
    glyphs: Seq<FaceGlyph>,
    i: int,
    k: int,
    face: Face,
    size: u32,
    ch: Option<char>,
)
    requires
        0 <= i <= k < glyphs.len(),
        draws(glyphs[k], face, size, ch),
        forall|j: int| i <= j < k ==> !draws(#[trigger] glyphs[j], face, size, ch),
    ensures
        glyph_from(glyphs, i, face, size, ch) == Some(k),
    decreases k - i,
{
    if i < k {
        lemma_first(glyphs, i + 1, k, face, size, ch);
    }
}

/// The ascent of a face is the one that is listed for it at that very size, the first
/// if there are several; one that is not listed has none.
pub proof fn ascents_go_by_face_and_size(faces: &Faces, font: FontStyle, size: u32, i: int)
    requires
        0 <= i <= faces.ascents@.len(),
        forall|j: int|
            0 <= j < i ==> (#[trigger] faces.ascents@[j]).font != font || faces.ascents@[j].size
                != size,
    ensures
        i < faces.ascents@.len() && faces.ascents@[i].font == font && faces.ascents@[i].size == size
            ==> faces.ascent(font, size) == faces.ascents@[i].ascent,
        i == faces.ascents@.len() ==> faces.ascent(font, size) == 0,
{
    lemma_ascent_after(faces.ascents@, 0, i, font, size);
}

proof fn lemma_ascent_after(ascents: Seq<FaceAscent>, k: int, i: int, font: FontStyle, size: u32)
    requires
        0 <= k <= i <= ascents.len(),
        forall|j: int|
            k <= j < i ==> (#[trigger] ascents[j]).font != font || ascents[j].size != size,
    ensures
        ascent_from(ascents, k, font, size) == ascent_from(ascents, i, font, size),
    decreases i - k,
{
    if k < i {
        lemma_ascent_after(ascents, k + 1, i, font, size);
    }
}

} // verus!
