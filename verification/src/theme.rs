//! The preview's colour theme (from the desktop's `colors.toml`) and the
//! few UI settings kept between sessions.

use vstd::prelude::*;
use crate::text::{push_str, string_of};

verus! {

/// The colours a theme file names; any of them may be missing.
pub struct ThemeColors {
    pub mode: Option<String>,
    pub accent: Option<String>,
    pub selection: Option<String>,
    pub muted: Option<String>,
    pub background: Option<String>,
    pub dark_background: Option<String>,
    pub darker_background: Option<String>,
    pub lighter_background: Option<String>,
    pub foreground: Option<String>,
    pub dark_foreground: Option<String>,
    pub red: Option<String>,
    pub yellow: Option<String>,
    pub green: Option<String>,
    pub cyan: Option<String>,
    pub blue: Option<String>,
    pub magenta: Option<String>,
}

/// The preview palette.
pub struct Palette {
    pub dark: bool,
    pub background: String,
    pub darker_background: String,
    pub lighter_background: String,
    pub foreground: String,
    pub dark_foreground: String,
    pub accent: String,
    pub selection: String,
    pub muted: String,
    pub red: String,
    pub yellow: String,
    pub green: String,
    pub cyan: String,
    pub blue: String,
    pub magenta: String,
}

pub open spec fn opt_str(o: Option<String>) -> Option<Seq<char>> {
    match o {
        Some(s) => Some(s@),
        None => None,
    }
}

/// A colour, or the fallback when it is missing or empty.
pub open spec fn picked(v: Option<Seq<char>>, fallback: Seq<char>) -> Seq<char> {
    match v {
        Some(s) => if s.len() > 0 {
            s
        } else {
            fallback
        },
        None => fallback,
    }
}

fn pick(v: &Option<String>, fallback: &str) -> (r: String)
    ensures
        r@ == picked(opt_str(*v), fallback@),
{
    match v {
        Some(s) => {
            if s.as_str().is_empty() {
                string_of(crate::text::chars_of(fallback).as_slice())
            } else {
                string_of(crate::text::chars_of(s.as_str()).as_slice())
            }
        },
        None => string_of(crate::text::chars_of(fallback).as_slice()),
    }
}

/// The background a theme uses (its own, or near-black).
pub open spec fn background_of(c: ThemeColors) -> Seq<char> {
    picked(opt_str(c.background), "#101010"@)
}

/// The background the palette will use, for deciding how light it is.
pub fn effective_background(colors: &ThemeColors) -> (r: String)
    ensures
        r@ == background_of(*colors),
{
    pick(&colors.background, "#101010")
}

/// Whether a theme is dark: its `mode` says `light` or `dark`; without a
/// mode the background's lightness (`background_dark`) decides.
pub open spec fn is_dark(c: ThemeColors, background_dark: bool) -> bool {
    match opt_str(c.mode) {
        Some(m) => if m == "light"@ {
            false
        } else if m == "dark"@ {
            true
        } else {
            background_dark
        },
        None => background_dark,
    }
}

/// The palette of a theme: every colour it names (and is not empty),
/// the defaults for the others; the darker and lighter backgrounds and
/// the dark foreground fall back on the background and the muted colour.
pub open spec fn palette_of(c: ThemeColors, background_dark: bool) -> PaletteView {
    let background = background_of(c);
    let muted = picked(opt_str(c.muted), "#6a6565"@);
    PaletteView {
        dark: is_dark(c, background_dark),
        background,
        darker_background: picked(
            match opt_str(c.darker_background) {
                Some(d) => Some(d),
                None => opt_str(c.dark_background),
            },
            background,
        ),
        lighter_background: picked(opt_str(c.lighter_background), background),
        foreground: picked(opt_str(c.foreground), "#eeeeee"@),
        dark_foreground: picked(opt_str(c.dark_foreground), muted),
        accent: picked(opt_str(c.accent), "#5584aa"@),
        selection: picked(opt_str(c.selection), "#186a9a"@),
        muted,
        red: picked(opt_str(c.red), "#c41e3a"@),
        yellow: picked(opt_str(c.yellow), "#d4c4b0"@),
        green: picked(opt_str(c.green), "#6a6565"@),
        cyan: picked(opt_str(c.cyan), "#a09c9b"@),
        blue: picked(opt_str(c.blue), "#605e5e"@),
        magenta: picked(opt_str(c.magenta), "#8b3a45"@),
    }
}

/// The mathematical content of a [`Palette`].
pub struct PaletteView {
    pub dark: bool,
    pub background: Seq<char>,
    pub darker_background: Seq<char>,
    pub lighter_background: Seq<char>,
    pub foreground: Seq<char>,
    pub dark_foreground: Seq<char>,
    pub accent: Seq<char>,
    pub selection: Seq<char>,
    pub muted: Seq<char>,
    pub red: Seq<char>,
    pub yellow: Seq<char>,
    pub green: Seq<char>,
    pub cyan: Seq<char>,
    pub blue: Seq<char>,
    pub magenta: Seq<char>,
}

impl View for Palette {
    type V = PaletteView;

    open spec fn view(&self) -> PaletteView {
        PaletteView {
            dark: self.dark,
            background: self.background@,
            darker_background: self.darker_background@,
            lighter_background: self.lighter_background@,
            foreground: self.foreground@,
            dark_foreground: self.dark_foreground@,
            accent: self.accent@,
            selection: self.selection@,
            muted: self.muted@,
            red: self.red@,
            yellow: self.yellow@,
            green: self.green@,
            cyan: self.cyan@,
            blue: self.blue@,
            magenta: self.magenta@,
        }
    }
}

fn mode_is(colors: &ThemeColors, word: &str) -> (b: bool)
    ensures
        b == (opt_str(colors.mode) == Some(word@)),
{
    match &colors.mode {
        Some(m) => {
            let mv = crate::text::chars_of(m.as_str());
            crate::text::eq_str(mv.as_slice(), word)
        },
        None => false,
    }
}

/// The palette of a theme (see [`palette_of`]); `background_dark` says
/// whether [`effective_background`] is a dark colour.
pub fn palette_from_colors(colors: &ThemeColors, background_dark: bool) -> (r: Palette)
    ensures
        r@ == palette_of(*colors, background_dark),
{
    let background = pick(&colors.background, "#101010");
    let muted = pick(&colors.muted, "#6a6565");
    let dark = if mode_is(colors, "light") {
        false
    } else if mode_is(colors, "dark") {
        true
    } else {
        background_dark
    };
    let darker_src = match &colors.darker_background {
        Some(d) => Some(string_of(crate::text::chars_of(d.as_str()).as_slice())),
        None => match &colors.dark_background {
            Some(d) => Some(string_of(crate::text::chars_of(d.as_str()).as_slice())),
            None => None,
        },
    };
    let darker_background = pick(&darker_src, background.as_str());
    let lighter_background = pick(&colors.lighter_background, background.as_str());
    let dark_foreground = pick(&colors.dark_foreground, muted.as_str());
    Palette {
        dark,
        darker_background,
        lighter_background,
        foreground: pick(&colors.foreground, "#eeeeee"),
        dark_foreground,
        accent: pick(&colors.accent, "#5584aa"),
        selection: pick(&colors.selection, "#186a9a"),
        red: pick(&colors.red, "#c41e3a"),
        yellow: pick(&colors.yellow, "#d4c4b0"),
        green: pick(&colors.green, "#6a6565"),
        cyan: pick(&colors.cyan, "#a09c9b"),
        blue: pick(&colors.blue, "#605e5e"),
        magenta: pick(&colors.magenta, "#8b3a45"),
        background,
        muted,
    }
}

/// The preview's CSS variables and body colours for a palette.
pub open spec fn palette_css(p: PaletteView) -> Seq<char> {
    "\n:root {\n  --bg: "@ + p.background + ";\n  --fg: "@ + p.foreground + ";\n  --muted: "@ + p.muted
        + ";\n  --accent: "@ + p.accent + ";\n  --border: "@ + p.muted + ";\n  --code-bg: "@
        + p.lighter_background + ";\n  --code-fg: "@ + p.foreground + ";\n  --kbd-bg: "@
        + p.lighter_background + ";\n  --table-stripe: "@ + p.lighter_background + ";\n  --quote-bg: "@
        + p.lighter_background + ";\n  --quote-bar: "@ + p.accent + ";\n  --alert-note: "@ + p.blue
        + ";\n  --alert-tip: "@ + p.green + ";\n  --alert-important: "@ + p.magenta
        + ";\n  --alert-warning: "@ + p.yellow + ";\n  --alert-caution: "@ + p.red + ";\n  --change: "@
        + p.yellow + ";\n}\nbody {\n  background: "@ + p.background + ";\n  color: "@ + p.foreground
        + ";\n  font-family: \"JetBrainsMono Nerd Font\", \"JetBrains Mono\", \"iA Writer Mono S\",\n               ui-sans-serif, system-ui, sans-serif;\n}\n"@
}

impl Palette {
    /// The preview CSS for this palette (see [`palette_css`]).
    pub fn preview_css(&self) -> (r: String)
        ensures
            r@ == palette_css(self@),
    {
        let mut o: Vec<char> = Vec::new();
        push_str(&mut o, "\n:root {\n  --bg: ");
        push_str(&mut o, self.background.as_str());
        push_str(&mut o, ";\n  --fg: ");
        push_str(&mut o, self.foreground.as_str());
        push_str(&mut o, ";\n  --muted: ");
        push_str(&mut o, self.muted.as_str());
        push_str(&mut o, ";\n  --accent: ");
        push_str(&mut o, self.accent.as_str());
        push_str(&mut o, ";\n  --border: ");
        push_str(&mut o, self.muted.as_str());
        push_str(&mut o, ";\n  --code-bg: ");
        push_str(&mut o, self.lighter_background.as_str());
        push_str(&mut o, ";\n  --code-fg: ");
        push_str(&mut o, self.foreground.as_str());
        push_str(&mut o, ";\n  --kbd-bg: ");
        push_str(&mut o, self.lighter_background.as_str());
        push_str(&mut o, ";\n  --table-stripe: ");
        push_str(&mut o, self.lighter_background.as_str());
        push_str(&mut o, ";\n  --quote-bg: ");
        push_str(&mut o, self.lighter_background.as_str());
        push_str(&mut o, ";\n  --quote-bar: ");
        push_str(&mut o, self.accent.as_str());
        push_str(&mut o, ";\n  --alert-note: ");
        push_str(&mut o, self.blue.as_str());
        push_str(&mut o, ";\n  --alert-tip: ");
        push_str(&mut o, self.green.as_str());
        push_str(&mut o, ";\n  --alert-important: ");
        push_str(&mut o, self.magenta.as_str());
        push_str(&mut o, ";\n  --alert-warning: ");
        push_str(&mut o, self.yellow.as_str());
        push_str(&mut o, ";\n  --alert-caution: ");
        push_str(&mut o, self.red.as_str());
        push_str(&mut o, ";\n  --change: ");
        push_str(&mut o, self.yellow.as_str());
        push_str(&mut o, ";\n}\nbody {\n  background: ");
        push_str(&mut o, self.background.as_str());
        push_str(&mut o, ";\n  color: ");
        push_str(&mut o, self.foreground.as_str());
        push_str(
            &mut o,
            ";\n  font-family: \"JetBrainsMono Nerd Font\", \"JetBrains Mono\", \"iA Writer Mono S\",\n               ui-sans-serif, system-ui, sans-serif;\n}\n",
        );
        assert(o@ =~= palette_css(self@));
        string_of(o.as_slice())
    }
}

/// UI settings kept between sessions.
#[derive(Clone, Copy)]
pub struct Settings {
    pub history_visible: bool,
    pub history_collapsed: bool,
}

impl Default for Settings {
    /// History shown, with its labels.
    fn default() -> (s: Self)
        ensures
            s.history_visible,
            !s.history_collapsed,
    {
        Settings { history_visible: true, history_collapsed: false }
    }
}

} // verus!
