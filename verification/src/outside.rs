//! Calls into outside crates. What stands here is trusted: each item says what is taken on
//! faith of the function it calls.
use vstd::prelude::*;
use vstd::utf8::{encode_utf8, valid_utf8};

use crate::text::text_of;

verus! {

/// Why `regex::Regex::new` rejects a pattern; `None` where it accepts it.
pub uninterp spec fn regex_new_error(pattern: Seq<char>) -> Option<Seq<char>>;

/// Whether `regex::Regex::is_match` finds a match of a pattern in a text.
pub uninterp spec fn regex_is_match(pattern: Seq<char>, text: Seq<char>) -> bool;

/// `regex::Regex::new`: whether a pattern compiles, and the error's text where it does not.
/// Both are a function of the pattern alone.
#[verifier::external_body]
pub(crate) fn regex_error(pattern: &str) -> (r: Option<String>)
    ensures
        text_of(r) == regex_new_error(pattern@),
{
    regex::Regex::new(pattern).err().map(|e| e.to_string())
}

/// `regex::Regex::is_match` for a pattern that compiles: whether it matches somewhere in the
/// text. The answer is a function of pattern and text.
#[verifier::external_body]
pub(crate) fn regex_matches(pattern: &str, text: &str) -> (r: bool)
    requires
        regex_new_error(pattern@) is None,
    ensures
        r == regex_is_match(pattern@, text@),
{
    regex::Regex::new(pattern).is_ok_and(|re| re.is_match(text))
}

/// What `String::from_utf8_lossy` makes of some bytes.
pub uninterp spec fn utf8_lossy(bytes: Seq<u8>) -> Seq<char>;

/// `String::from_utf8_lossy`: the text that some bytes encode. Bytes that are not UTF-8 come out
/// with replacement characters; how many is not stated.
#[verifier::external_body]
pub(crate) fn decode_lossy(bytes: &Vec<u8>) -> (r: String)
    ensures
        r@ == utf8_lossy(bytes@),
        valid_utf8(bytes@) ==> encode_utf8(r@) == bytes@,
{
    String::from_utf8_lossy(bytes).into_owned()
}

/// Why `globset::GlobBuilder::build`, with `/` matched only literally, rejects a glob; `None` where
/// it accepts it.
pub uninterp spec fn glob_build_error(pattern: Seq<char>) -> Option<Seq<char>>;

/// Whether a glob, with `/` matched only literally, matches a path.
pub uninterp spec fn glob_is_match(pattern: Seq<char>, path: Seq<char>) -> bool;

/// `globset::GlobBuilder::build` after `literal_separator(true)`: whether a glob is well-formed, and
/// the error's text where it is not. A backslash escapes the next character on one platform and
/// separates path components on another, so nothing is said of a glob that has one.
#[verifier::external_body]
pub(crate) fn glob_error(pattern: &str) -> (r: Option<String>)
    ensures
        !pattern@.contains('\\') ==> text_of(r) == glob_build_error(pattern@),
{
    globset::GlobBuilder::new(pattern).literal_separator(true).build().err().map(|e| e.to_string())
}

/// `globset::GlobMatcher::is_match` of a glob built after `literal_separator(true)`: whether the path
/// matches it; `false` where the glob cannot be built. `Glob::compile_matcher` panics where the
/// glob's regular expression is too large to compile, so that expression is first compiled by
/// `regex::bytes::RegexBuilder`, which has the same size limit, and the answer is `false` where it
/// fails. A glob with a backslash reads differently per platform, and so does a path; nothing is
/// said of those.
#[verifier::external_body]
pub(crate) fn glob_matches(pattern: &str, path: &str) -> (r: bool)
    ensures
        !pattern@.contains('\\') && !path@.contains('\\') ==> r == glob_is_match(pattern@, path@),
{
    let glob = globset::GlobBuilder::new(pattern).literal_separator(true).build().ok();
    let sound = glob.filter(
        |g| regex::bytes::RegexBuilder::new(g.regex()).dot_matches_new_line(true).build().is_ok(),
    );
    sound.is_some_and(|g| g.compile_matcher().is_match(path))
}

/// A foreground color of a terminal.
#[derive(Debug, Clone, Copy, PartialEq, Eq, Structural)]
pub enum Hue {
    Red,
    Yellow,
    Green,
    Cyan,
}

/// The escape that turns a foreground color on.
pub open spec fn hue_escape(fg: Option<Hue>) -> Seq<char> {
    match fg {
        Some(Hue::Red) => "\u{1b}[31m"@,
        Some(Hue::Green) => "\u{1b}[32m"@,
        Some(Hue::Yellow) => "\u{1b}[33m"@,
        Some(Hue::Cyan) => "\u{1b}[36m"@,
        None => Seq::empty(),
    }
}

/// The escapes that turn a style on: its effects, then its color.
pub open spec fn style_escapes(fg: Option<Hue>, bold: bool, dimmed: bool) -> Seq<char> {
    (if bold {
        "\u{1b}[1m"@
    } else {
        Seq::empty()
    }) + (if dimmed {
        "\u{1b}[2m"@
    } else {
        Seq::empty()
    }) + hue_escape(fg)
}

/// `anstyle::Style::render` of a style with these effects and this color: the escape of each
/// effect that is set, bold before dimmed, then that of the color; nothing for the empty style.
#[verifier::external_body]
pub(crate) fn style_render(fg: Option<Hue>, bold: bool, dimmed: bool) -> (r: String)
    ensures
        r@ == style_escapes(fg, bold, dimmed),
{
    let color = fg.map(|h| match h {
        Hue::Red => anstyle::AnsiColor::Red,
        Hue::Yellow => anstyle::AnsiColor::Yellow,
        Hue::Green => anstyle::AnsiColor::Green,
        Hue::Cyan => anstyle::AnsiColor::Cyan,
    });
    let effects = anstyle::Effects::new()
        .set(anstyle::Effects::BOLD, bold)
        .set(anstyle::Effects::DIMMED, dimmed);
    let style = anstyle::Style::new().fg_color(color.map(anstyle::Color::Ansi)).effects(effects);
    style.render().to_string()
}

/// `anstyle::Style::render_reset` of the same style: the reset escape, or nothing where the
/// style is empty.
#[verifier::external_body]
pub(crate) fn style_reset(fg: Option<Hue>, bold: bool, dimmed: bool) -> (r: String)
    ensures
        r@ == (if fg is Some || bold || dimmed {
            "\u{1b}[0m"@
        } else {
            Seq::empty()
        }),
{
    let color = fg.map(|h| match h {
        Hue::Red => anstyle::AnsiColor::Red,
        Hue::Yellow => anstyle::AnsiColor::Yellow,
        Hue::Green => anstyle::AnsiColor::Green,
        Hue::Cyan => anstyle::AnsiColor::Cyan,
    });
    let effects = anstyle::Effects::new()
        .set(anstyle::Effects::BOLD, bold)
        .set(anstyle::Effects::DIMMED, dimmed);
    let style = anstyle::Style::new().fg_color(color.map(anstyle::Color::Ansi)).effects(effects);
    style.render_reset().to_string()
}

} // verus!
