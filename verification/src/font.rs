use vstd::prelude::*;
use std::collections::HashMap;
use crate::error::GlyphError;
use crate::glyph::{Bitmap, Glyph};

verus! {

broadcast use vstd::std_specs::hash::group_hash_axioms;

/// The glyph that stands for `c` in the table `glyphs`: its own where it has one, else the
/// glyph of the blank space.
pub open spec fn glyph_of(glyphs: Map<char, Bitmap>, c: char) -> Bitmap {
    if glyphs.contains_key(c) {
        glyphs[c]
    } else {
        glyphs[' ']
    }
}

/// Whether every glyph of the table is well formed and `width` by `height` pixels.
pub open spec fn uniform(glyphs: Map<char, Bitmap>, width: nat, height: nat) -> bool {
    forall|c: char| #[trigger]
        glyphs.contains_key(c) ==> {
            &&& glyphs[c].width == width
            &&& glyphs[c].height == height
            &&& glyphs[c].well_formed()
        }
}

/// Two characters with one code point are one character.
proof fn lemma_code_points_differ(c: char, d: char)
    ensures
        c as u32 == d as u32 <==> c == d,
{
}

/// A font: one glyph for each character it maps, all of one size, and always one for the
/// blank space, which also stands for every character that the font does not map. Its
/// view is the table from characters to bitmaps.
pub struct GlyphSource {
    blank: Glyph,
    glyphs: HashMap<u32, Glyph>,
}

impl View for GlyphSource {
    type V = Map<char, Bitmap>;

    closed spec fn view(&self) -> Map<char, Bitmap> {
        Map::new(
            |c: char| c == ' ' || self.glyphs@.contains_key(c as u32),
            |c: char|
                if c == ' ' {
                    self.blank@
                } else {
                    self.glyphs@[c as u32]@
                },
        )
    }
}

impl GlyphSource {
    /// What holds of every font: all its glyphs are well formed and have the size of the
    /// glyph of the blank space.
    #[verifier::type_invariant]
    pub closed spec fn inv(self) -> bool {
        &&& self.blank@.well_formed()
        &&& forall|k: u32| #[trigger]
            self.glyphs@.contains_key(k) ==> {
                &&& self.glyphs@[k]@.width == self.blank@.width
                &&& self.glyphs@[k]@.height == self.blank@.height
                &&& self.glyphs@[k]@.well_formed()
            }
    }

    /// The table of a font maps the blank space, and its glyphs are well formed and of
    /// one size.
    pub proof fn lemma_inv(self)
        requires
            self.inv(),
        ensures
            uniform(self@, self.spec_width(), self.spec_height()),
            self@.contains_key(' '),
    {
    }

    /// The width of every glyph of the font, in pixels.
    pub closed spec fn spec_width(&self) -> nat {
        self.blank@.width
    }

    /// The height of every glyph of the font, in pixels.
    pub closed spec fn spec_height(&self) -> nat {
        self.blank@.height
    }

    /// A font that maps the blank space to `blank` and nothing else. The size of `blank`
    /// is the size of the font.
    pub fn new(blank: Glyph) -> (font: GlyphSource)
        ensures
            font@ == Map::<char, Bitmap>::empty().insert(' ', blank@),
            font.spec_width() == blank@.width,
            font.spec_height() == blank@.height,
    {
        proof {
            use_type_invariant(&blank);
            blank.lemma_inv();
        }
        let font = GlyphSource { blank, glyphs: HashMap::new() };
        assert(font@ =~= Map::<char, Bitmap>::empty().insert(' ', blank@));
        font
    }

    /// The width of every glyph of the font, in pixels.
    pub fn width(&self) -> (w: usize)
        ensures
            w == self.spec_width(),
    {
        self.blank.width()
    }

    /// The height of every glyph of the font, in pixels.
    pub fn height(&self) -> (h: usize)
        ensures
            h == self.spec_height(),
    {
        self.blank.height()
    }

    /// Whether the font has a glyph of its own for `c`.
    pub fn contains(&self, c: char) -> (found: bool)
        ensures
            found == self@.contains_key(c),
    {
        c == ' ' || self.glyphs.contains_key(&(c as u32))
    }

    /// Maps `c` to `glyph`, in place of the glyph it had if it had one. A glyph that does
    /// not have the size of the font is refused with `SizeMismatch`, and the font stays as
    /// it was.
    pub fn insert(&mut self, c: char, glyph: Glyph) -> (res: Result<(), GlyphError>)
        ensures
            res is Ok <==> glyph@.width == old(self).spec_width() && glyph@.height == old(
                self,
            ).spec_height(),
            res is Ok ==> final(self)@ == old(self)@.insert(c, glyph@),
            res matches Err(e) ==> e == GlyphError::SizeMismatch && final(self)@ == old(self)@,
            final(self).spec_width() == old(self).spec_width(),
            final(self).spec_height() == old(self).spec_height(),
    {
        proof {
            use_type_invariant(&*self);
        }
        if glyph.width() != self.blank.width() || glyph.height() != self.blank.height() {
            return Err(GlyphError::SizeMismatch);
        }
        proof {
            use_type_invariant(&glyph);
            glyph.lemma_inv();
        }
        if c == ' ' {
            self.blank = glyph;
            assert(self@ =~= old(self)@.insert(c, glyph@));
        } else {
            let mut table: HashMap<u32, Glyph> = HashMap::new();
            std::mem::swap(&mut self.glyphs, &mut table);
            table.insert(c as u32, glyph);
            std::mem::swap(&mut self.glyphs, &mut table);
            let ghost after = old(self)@.insert(c, glyph@);
            assert forall|d: char| self@.contains_key(d) == after.contains_key(d) by {
                lemma_code_points_differ(c, d);
            }
            assert forall|d: char| self@.contains_key(d) implies self@[d] == after[d] by {
                lemma_code_points_differ(c, d);
            }
            assert(self@ =~= old(self)@.insert(c, glyph@));
        }
        Ok(())
    }

    /// The glyph to draw for `c`: its own where the font maps `c`, else the glyph of the
    /// blank space. There is one for every character.
    pub fn glyph_for(&self, c: char) -> (glyph: &Glyph)
        ensures
            glyph@ == glyph_of(self@, c),
            !self@.contains_key(c) ==> glyph@ == glyph_of(self@, ' '),
            glyph@.width == self.spec_width(),
            glyph@.height == self.spec_height(),
            glyph@.well_formed(),
    {
        proof {
            use_type_invariant(self);
        }
        if c == ' ' {
            &self.blank
        } else {
            match self.glyphs.get(&(c as u32)) {
                Some(glyph) => glyph,
                None => &self.blank,
            }
        }
    }
}

/// A character that the font does not map is drawn with the glyph of the blank space.
pub proof fn law_missing_glyph_is_blank(glyphs: Map<char, Bitmap>, c: char)
    requires
        !glyphs.contains_key(c),
    ensures
        glyph_of(glyphs, c) == glyph_of(glyphs, ' '),
{
}

} // verus!
