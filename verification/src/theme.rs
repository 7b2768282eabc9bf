use vstd::prelude::*;
use vstd::string::StringExecFns;

use crate::text::{push_hex_chars, spec_hex_chars};

verus! {

/// The parsed theme: six named colors, each a packed 32-bit RGB/RGBA value
/// (for example `0xff0000`). All six fields are always present, and a theme
/// is never mutated once constructed: backends only read it.
#[derive(Clone, Copy, Debug, PartialEq, Eq, Structural)]
pub struct Theme {
    pub accent: u32,
    pub accent_deep: u32,
    pub foreground: u32,
    pub complement: u32,
    pub dark: u32,
    pub light_dark: u32,
}

/// The one-line rendering of a theme, each color as a `0x`-prefixed
/// lower-case hexadecimal literal without leading zeros.
pub open spec fn spec_describe(t: Theme) -> Seq<char> {
    "Theme { accent: 0x"@ + spec_hex_chars(t.accent as nat) + " accent_deep: 0x"@ + spec_hex_chars(
        t.accent_deep as nat,
    ) + " foreground: 0x"@ + spec_hex_chars(t.foreground as nat) + " complement: 0x"@
        + spec_hex_chars(t.complement as nat) + " dark: 0x"@ + spec_hex_chars(t.dark as nat)
        + " light_dark: 0x"@ + spec_hex_chars(t.light_dark as nat) + " }"@
}

impl Theme {
    /// Renders the theme for progress and log lines, exactly as
    /// `spec_describe` says.
    pub fn describe(&self) -> (r: String)
        ensures
            r@ == spec_describe(*self),
    {
        let mut out = String::new();
        out.append("Theme { accent: 0x");
        push_hex_chars(&mut out, self.accent);
        out.append(" accent_deep: 0x");
        push_hex_chars(&mut out, self.accent_deep);
        out.append(" foreground: 0x");
        push_hex_chars(&mut out, self.foreground);
        out.append(" complement: 0x");
        push_hex_chars(&mut out, self.complement);
        out.append(" dark: 0x");
        push_hex_chars(&mut out, self.dark);
        out.append(" light_dark: 0x");
        push_hex_chars(&mut out, self.light_dark);
        out.append(" }");
        proof {
            assert(out@ =~= spec_describe(*self));
        }
        out
    }
}

} // verus!
