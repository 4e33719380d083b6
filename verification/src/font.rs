//! The fixed font table.
//!
//! Fonts are identified by a small fixed vocabulary of names; any name
//! outside it falls back to the default font, "Roboto-Bold".  The font data
//! itself is a process-wide resource handed in by the host at startup: a
//! `FontStore` maps each identifier to the bytes of one font file.

use vstd::prelude::*;
use vstd::string::StrSliceExecFns;

verus! {

/// One of the fonts the library knows by name.
#[derive(Clone, Copy, PartialEq, Eq, Structural, Debug)]
pub enum FontId {
    RobotoRegular,
    LatoRegular,
    RobotoLight,
    RobotoBold,
    RobotoBlack,
    RobotoThin,
}

/// The names the font table recognizes.
pub open spec fn is_known_font_name(name: Seq<char>) -> bool {
    ||| name == "Roboto-Regular"@
    ||| name == "Lato-Regular"@
    ||| name == "Roboto-Light"@
    ||| name == "Roboto-Bold"@
    ||| name == "Roboto-Black"@
    ||| name == "Roboto-Thin"@
}

/// The font a name resolves to; unrecognized names fall back to the
/// default font, "Roboto-Bold".
pub open spec fn spec_resolve_font(name: Seq<char>) -> FontId {
    if name == "Roboto-Regular"@ {
        FontId::RobotoRegular
    } else if name == "Lato-Regular"@ {
        FontId::LatoRegular
    } else if name == "Roboto-Light"@ {
        FontId::RobotoLight
    } else if name == "Roboto-Bold"@ {
        FontId::RobotoBold
    } else if name == "Roboto-Black"@ {
        FontId::RobotoBlack
    } else if name == "Roboto-Thin"@ {
        FontId::RobotoThin
    } else {
        FontId::RobotoBold
    }
}

/// Compare two strings character by character.
pub fn str_eq(a: &str, b: &str) -> (r: bool)
    ensures
        r == (a@ == b@),
{
    let alen = a.unicode_len();
    let blen = b.unicode_len();
    if alen != blen {
        return false;
    }
    let mut i: usize = 0;
    while i < alen
        invariant
            alen == a@.len(),
            alen == b@.len(),
            0 <= i <= alen,
            forall|j: int| 0 <= j < i ==> a@[j] == b@[j],
        decreases alen - i,
    {
        if a.get_char(i) != b.get_char(i) {
            return false;
        }
        i = i + 1;
    }
    proof {
        assert(a@ =~= b@);
    }
    true
}

/// Resolve a font name through the fixed table.
pub fn resolve_font(name: &str) -> (id: FontId)
    ensures
        id == spec_resolve_font(name@),
{
    if str_eq(name, "Roboto-Regular") {
        FontId::RobotoRegular
    } else if str_eq(name, "Lato-Regular") {
        FontId::LatoRegular
    } else if str_eq(name, "Roboto-Light") {
        FontId::RobotoLight
    } else if str_eq(name, "Roboto-Bold") {
        FontId::RobotoBold
    } else if str_eq(name, "Roboto-Black") {
        FontId::RobotoBlack
    } else if str_eq(name, "Roboto-Thin") {
        FontId::RobotoThin
    } else {
        FontId::RobotoBold
    }
}

/// The read-only mapping from font identifier to font file bytes,
/// initialized once by the host and never changed afterwards.
pub struct FontStore {
    pub regular: Vec<u8>,
    pub lato: Vec<u8>,
    pub light: Vec<u8>,
    pub bold: Vec<u8>,
    pub black: Vec<u8>,
    pub thin: Vec<u8>,
}

impl FontStore {
    /// The bytes stored for a font identifier.
    pub open spec fn spec_get(&self, id: FontId) -> Seq<u8> {
        match id {
            FontId::RobotoRegular => self.regular@,
            FontId::LatoRegular => self.lato@,
            FontId::RobotoLight => self.light@,
            FontId::RobotoBold => self.bold@,
            FontId::RobotoBlack => self.black@,
            FontId::RobotoThin => self.thin@,
        }
    }

    /// Look a font's bytes up.
    pub fn get(&self, id: FontId) -> (b: &Vec<u8>)
        ensures
            b@ == self.spec_get(id),
    {
        match id {
            FontId::RobotoRegular => &self.regular,
            FontId::LatoRegular => &self.lato,
            FontId::RobotoLight => &self.light,
            FontId::RobotoBold => &self.bold,
            FontId::RobotoBlack => &self.black,
            FontId::RobotoThin => &self.thin,
        }
    }
}

/// The default name resolves to the default font.
pub proof fn lemma_resolve_default()
    ensures
        spec_resolve_font("Roboto-Bold"@) == FontId::RobotoBold,
        is_known_font_name("Roboto-Bold"@),
{
    reveal_strlit("Roboto-Regular");
    reveal_strlit("Lato-Regular");
    reveal_strlit("Roboto-Light");
    reveal_strlit("Roboto-Bold");
    assert("Roboto-Bold"@.len() == 11);
    assert("Roboto-Regular"@.len() == 14);
    assert("Lato-Regular"@.len() == 12);
    assert("Roboto-Light"@.len() == 12);
}

/// The name "BebasKai" is not in the table and falls back to the default.
pub proof fn lemma_resolve_bebaskai()
    ensures
        spec_resolve_font("BebasKai"@) == FontId::RobotoBold,
        !is_known_font_name("BebasKai"@),
{
    reveal_strlit("BebasKai");
    reveal_strlit("Roboto-Regular");
    reveal_strlit("Lato-Regular");
    reveal_strlit("Roboto-Light");
    reveal_strlit("Roboto-Bold");
    reveal_strlit("Roboto-Black");
    reveal_strlit("Roboto-Thin");
    assert("BebasKai"@.len() == 8);
    assert("Roboto-Regular"@.len() == 14);
    assert("Lato-Regular"@.len() == 12);
    assert("Roboto-Light"@.len() == 12);
    assert("Roboto-Bold"@.len() == 11);
    assert("Roboto-Black"@.len() == 12);
    assert("Roboto-Thin"@.len() == 11);
}

/// Law: an unrecognized font name resolves to the same font as the default
/// name "Roboto-Bold", so every later drawing step — whose output is a
/// function of the resolved font's bytes alone — is identical under the two
/// names.
pub proof fn lemma_unknown_font_fallback(store: FontStore, name: Seq<char>)
    requires
        !is_known_font_name(name),
    ensures
        spec_resolve_font(name) == spec_resolve_font("Roboto-Bold"@),
        store.spec_get(spec_resolve_font(name)) == store.spec_get(
            spec_resolve_font("Roboto-Bold"@),
        ),
        forall|p: Seq<u8>, w: u32, h: u32, t: Seq<char>, x: u32, y: u32, sz: u16|
            #[trigger] crate::text::text_blit(
                p,
                w,
                h,
                store.spec_get(spec_resolve_font(name)),
                t,
                x,
                y,
                sz,
                255,
                255,
                255,
            ) == crate::text::text_blit(
                p,
                w,
                h,
                store.spec_get(spec_resolve_font("Roboto-Bold"@)),
                t,
                x,
                y,
                sz,
                255,
                255,
                255,
            ),
{
    reveal_strlit("Roboto-Regular");
    reveal_strlit("Lato-Regular");
    reveal_strlit("Roboto-Light");
    reveal_strlit("Roboto-Bold");
    reveal_strlit("Roboto-Black");
    reveal_strlit("Roboto-Thin");
    assert("Roboto-Bold"@[7] == 'B');
    assert("Roboto-Thin"@[7] == 'T');
}

} // verus!
