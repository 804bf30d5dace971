//! How the human renderers wrap each span of output.
use vstd::prelude::*;

use crate::finding::Severity;
use crate::outside::{style_escapes, style_render, style_reset, Hue};
use crate::text::str_eq;

verus! {

/// When to colorize human output (the CLI `--color` flag).
#[derive(Debug, Clone, Copy, PartialEq, Eq, Structural)]
pub enum ColorWhen {
    /// Colorize when stdout is a terminal, honoring `NO_COLOR` / `CLICOLOR_FORCE`. Default.
    Auto,
    /// Always colorize.
    Always,
    /// Never colorize.
    Never,
}

/// Color and effects of a span.
#[derive(Debug, Clone, Copy, PartialEq, Eq, Structural)]
pub struct Paint {
    pub fg: Option<Hue>,
    pub bold: bool,
    pub dimmed: bool,
}

impl Paint {
    /// `text` between the escapes that turn the style on and off.
    pub open spec fn painted(self, text: Seq<char>) -> Seq<char> {
        style_escapes(self.fg, self.bold, self.dimmed) + text + (if self.fg is Some || self.bold
            || self.dimmed {
            "\u{1b}[0m"@
        } else {
            Seq::empty()
        })
    }
}

/// How the human renderers wrap each span of output. `plain()` emits neither
/// ANSI escapes nor glyphs (byte-identical to unstyled output); `ansi()` colors
/// spans and prefixes a per-finding severity glyph. TTY/env detection is the
/// caller's job — the library only consumes a ready-made `Styling`.
#[derive(Debug, Clone, Copy, PartialEq, Eq, Structural)]
pub struct Styling {
    pub danger: Paint,
    pub warning: Paint,
    pub success: Paint,
    pub accent: Paint,
    pub muted: Paint,
    pub strong: Paint,
    pub glyphs: bool,
}

/// No color and no effect.
pub open spec fn no_paint() -> Paint {
    Paint { fg: None, bold: false, dimmed: false }
}

impl Styling {
    /// Neither color nor glyphs.
    pub open spec fn plain_spec() -> Styling {
        Styling {
            danger: no_paint(),
            warning: no_paint(),
            success: no_paint(),
            accent: no_paint(),
            muted: no_paint(),
            strong: no_paint(),
            glyphs: false,
        }
    }

    /// Colors and glyphs.
    pub open spec fn ansi_spec() -> Styling {
        Styling {
            danger: Paint { fg: Some(Hue::Red), bold: true, dimmed: false },
            warning: Paint { fg: Some(Hue::Yellow), bold: true, dimmed: false },
            success: Paint { fg: Some(Hue::Green), bold: true, dimmed: false },
            accent: Paint { fg: Some(Hue::Cyan), bold: false, dimmed: false },
            muted: Paint { fg: None, bold: false, dimmed: true },
            strong: Paint { fg: None, bold: true, dimmed: false },
            glyphs: true,
        }
    }

    /// The paint of a severity.
    pub open spec fn severity_paint(self, s: Severity) -> Paint {
        match s {
            Severity::Error => self.danger,
            Severity::Warning => self.warning,
        }
    }

    /// The glyph of a severity.
    pub open spec fn glyph_spec(self, s: Severity) -> Seq<char> {
        if !self.glyphs {
            Seq::empty()
        } else {
            match s {
                Severity::Error => "✗"@,
                Severity::Warning => "⚠"@,
            }
        }
    }

    /// No color, no glyphs. Output is byte-identical to the plain report.
    #[must_use]
    pub fn plain() -> (r: Styling)
        ensures
            r == Styling::plain_spec(),
    {
        let n = Paint { fg: None, bold: false, dimmed: false };
        Styling {
            danger: n,
            warning: n,
            success: n,
            accent: n,
            muted: n,
            strong: n,
            glyphs: false,
        }
    }

    /// Colors + per-finding glyphs, for a terminal that supports ANSI.
    #[must_use]
    pub fn ansi() -> (r: Styling)
        ensures
            r == Styling::ansi_spec(),
    {
        Styling {
            danger: Paint { fg: Some(Hue::Red), bold: true, dimmed: false },
            warning: Paint { fg: Some(Hue::Yellow), bold: true, dimmed: false },
            success: Paint { fg: Some(Hue::Green), bold: true, dimmed: false },
            accent: Paint { fg: Some(Hue::Cyan), bold: false, dimmed: false },
            muted: Paint { fg: None, bold: false, dimmed: true },
            strong: Paint { fg: None, bold: true, dimmed: false },
            glyphs: true,
        }
    }

    /// Resolve to [`Styling::ansi`] or [`Styling::plain`] for `color` and the
    /// environment it is told of: `clicolor_force` forces color, else `no_color` forces
    /// plain, else color iff stdout is a terminal. `Always` overrides `no_color`; `Never` is
    /// always plain. This is format-agnostic — call it only for human output; keep machine
    /// formats plain.
    #[must_use]
    pub fn resolve(color: ColorWhen, clicolor_force: bool, no_color: bool, is_tty: bool) -> (r:
        Styling)
        ensures
            r == (if color_on_spec(color, clicolor_force, no_color, is_tty) {
                Styling::ansi_spec()
            } else {
                Styling::plain_spec()
            }),
    {
        if color_on(color, clicolor_force, no_color, is_tty) {
            Styling::ansi()
        } else {
            Styling::plain()
        }
    }

    /// Paint `s` in the "danger" role (errors, rejects): red + bold.
    #[must_use]
    pub fn danger(&self, s: &str) -> (r: String)
        ensures
            r@ == self.danger.painted(s@),
    {
        paint(self.danger, s)
    }

    /// Paint `s` in the "warning" role: yellow + bold.
    #[must_use]
    pub fn warning(&self, s: &str) -> (r: String)
        ensures
            r@ == self.warning.painted(s@),
    {
        paint(self.warning, s)
    }

    /// Paint `s` in the "success" role (ready/ok verdicts): green + bold.
    #[must_use]
    pub fn success(&self, s: &str) -> (r: String)
        ensures
            r@ == self.success.painted(s@),
    {
        paint(self.success, s)
    }

    /// Paint `s` in the "accent" role (secondary emphasis, e.g. rewrites): cyan.
    #[must_use]
    pub fn accent(&self, s: &str) -> (r: String)
        ensures
            r@ == self.accent.painted(s@),
    {
        paint(self.accent, s)
    }

    /// Paint `s` in the "muted" role (notes, secondary detail): dimmed.
    #[must_use]
    pub fn muted(&self, s: &str) -> (r: String)
        ensures
            r@ == self.muted.painted(s@),
    {
        paint(self.muted, s)
    }

    /// Paint `s` in the "strong" role (emphasis without color): bold.
    #[must_use]
    pub fn strong(&self, s: &str) -> (r: String)
        ensures
            r@ == self.strong.painted(s@),
    {
        paint(self.strong, s)
    }

    /// Paint `text` in the role for `s`'s severity (error → danger, warning → warning).
    pub fn severity(&self, s: Severity, text: &str) -> (r: String)
        ensures
            r@ == self.severity_paint(s).painted(text@),
    {
        match s {
            Severity::Error => self.danger(text),
            Severity::Warning => self.warning(text),
        }
    }

    /// The glyph for a severity (`✗`/`⚠`), or `""` when glyphs are disabled.
    pub fn glyph(&self, s: Severity) -> (r: &'static str)
        ensures
            r@ == self.glyph_spec(s),
    {
        if !self.glyphs {
            proof {
                reveal_strlit("");
                assert(""@ =~= Seq::<char>::empty());
            }
            return "";
        }
        match s {
            Severity::Error => "✗",
            Severity::Warning => "⚠",
        }
    }
}

/// Wrap `text` in `style`'s ANSI escapes. An empty style renders no escapes,
/// so the plain path flows through this unchanged.
pub fn paint(style: Paint, text: &str) -> (r: String)
    ensures
        r@ == style.painted(text@),
{
    let mut out = style_render(style.fg, style.bold, style.dimmed);
    out.append(text);
    let reset = style_reset(style.fg, style.bold, style.dimmed);
    out.append(reset.as_str());
    out
}

/// Whether to color: `Always` and `Never` decide at once; else a forced color, then a
/// refused one, then the terminal decides.
pub open spec fn color_on_spec(
    color: ColorWhen,
    clicolor_force: bool,
    no_color: bool,
    is_tty: bool,
) -> bool {
    match color {
        ColorWhen::Never => false,
        ColorWhen::Always => true,
        ColorWhen::Auto => clicolor_force || (!no_color && is_tty),
    }
}

/// The pure color decision behind [`Styling::resolve`].
pub fn color_on(color: ColorWhen, clicolor_force: bool, no_color: bool, is_tty: bool) -> (r: bool)
    ensures
        r == color_on_spec(color, clicolor_force, no_color, is_tty),
{
    match color {
        ColorWhen::Never => false,
        ColorWhen::Always => true,
        ColorWhen::Auto => {
            if clicolor_force {
                true
            } else if no_color {
                false
            } else {
                is_tty
            }
        },
    }
}

/// A conventional color variable counts as "set" when its value is neither empty nor `"0"`
/// (so `NO_COLOR=` and `CLICOLOR_FORCE=0` do not trigger).
pub fn env_set(value: Option<&str>) -> (r: bool)
    ensures
        r == (value matches Some(v) && v@.len() > 0 && v@ != "0"@),
{
    match value {
        Some(v) => !v.is_empty() && !str_eq(v, "0"),
        None => false,
    }
}

/// Plain styling changes no text.
pub proof fn plain_paint_is_invisible(text: Seq<char>)
    ensures
        no_paint().painted(text) == text,
{
    assert(no_paint().painted(text) =~= text);
}

} // verus!
