//! Which symbol set the status report uses: plain ASCII tags or Unicode
//! glyphs, from explicit overrides and what is known of the terminal.
use vstd::prelude::*;
use crate::text::{chars_of, contains_chars, has_infix, same_chars};

verus! {

/// The lower-case form of a string, as `str::to_lowercase` gives it.
pub uninterp spec fn lower_of(s: Seq<char>) -> Seq<char>;

/// Relies on str::to_lowercase: the result depends on the characters alone.
#[verifier::external_body]
fn lowercase(s: &str) -> (r: String)
    ensures
        r@ == lower_of(s@),
{
    s.to_lowercase()
}

#[derive(PartialEq, Eq, Structural, Debug, Clone, Copy)]
pub enum SymbolStyle {
    Plain,
    Fancy,
}

/// What is known of the environment the report is printed to.
pub struct Terminal {
    /// A plain-text override is set.
    pub force_plain: bool,
    /// A Unicode override is set.
    pub force_fancy: bool,
    /// Standard output is a terminal.
    pub is_terminal: bool,
    /// The colour opt-out convention is in force.
    pub no_color: bool,
    /// The terminal type, when known.
    pub term: Option<String>,
}

/// Terminal types that cannot be trusted with Unicode (already lower case).
pub open spec fn plain_term(l: Seq<char>) -> bool {
    l == "dumb"@ || l == "vt100"@ || has_infix(l, "linux"@)
}

pub open spec fn style_spec(t: Terminal) -> SymbolStyle {
    if t.force_plain {
        SymbolStyle::Plain
    } else if t.force_fancy {
        SymbolStyle::Fancy
    } else if !t.is_terminal || t.no_color {
        SymbolStyle::Plain
    } else {
        match t.term {
            Some(term) if plain_term(lower_of(term@)) => SymbolStyle::Plain,
            _ => SymbolStyle::Fancy,
        }
    }
}

/// Whether a terminal type, already in lower case, asks for plain symbols.
pub fn is_plain_term(lowered: &str) -> (r: bool)
    ensures
        r == plain_term(lowered@),
{
    let l = chars_of(lowered);
    same_chars(&l, &chars_of("dumb")) || same_chars(&l, &chars_of("vt100")) || contains_chars(
        &l,
        &chars_of("linux"),
    )
}

/// Picks the symbol set: overrides first, then plain output for anything
/// that is not a capable terminal.
pub fn choose_style(t: &Terminal) -> (r: SymbolStyle)
    ensures
        r == style_spec(*t),
{
    if t.force_plain {
        return SymbolStyle::Plain;
    }
    if t.force_fancy {
        return SymbolStyle::Fancy;
    }
    if !t.is_terminal || t.no_color {
        return SymbolStyle::Plain;
    }
    match &t.term {
        Some(term) => {
            let lowered = lowercase(term.as_str());
            if is_plain_term(lowered.as_str()) {
                SymbolStyle::Plain
            } else {
                SymbolStyle::Fancy
            }
        },
        None => SymbolStyle::Fancy,
    }
}

} // verus!
