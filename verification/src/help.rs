//! The part of the help text that lists the default settings.
//!
//! The help text is written with a placeholder wherever a default is named.
//! Filling the placeholders in keeps the text in step with the settings.

use crate::settings::{
    default_values, defaults, ColorMode, Colors, ColumnsChoice, Defaults,
};
use crate::text::{chars_of, push_all, string_of};
use vstd::prelude::*;

verus! {

/// True when `from` stands in the text at index `at`.
pub open spec fn stands_at(text: Seq<char>, from: Seq<char>, at: int) -> bool {
    &&& 0 <= at
    &&& at + from.len() <= text.len()
    &&& text.subrange(at, at + from.len()) == from
}

/// The text from `at` on with every occurrence of `from` replaced by `to`.
/// Occurrences are found from left to right and do not overlap; what was
/// put in is not searched again. An empty `from` occurs nowhere.
pub open spec fn replaced(text: Seq<char>, from: Seq<char>, to: Seq<char>, at: int) -> Seq<char>
    decreases text.len() - at,
{
    if at < 0 || at >= text.len() {
        Seq::empty()
    } else if from.len() > 0 && stands_at(text, from, at) {
        to + replaced(text, from, to, at + from.len())
    } else {
        seq![text[at]] + replaced(text, from, to, at + 1)
    }
}

/// Decides [`stands_at`].
fn found_at(text: &Vec<char>, from: &Vec<char>, at: usize) -> (r: bool)
    requires
        at <= text@.len(),
    ensures
        r == stands_at(text@, from@, at as int),
{
    if from.len() > text.len() - at {
        return false;
    }
    let n = text.len();
    let mut i: usize = 0;
    while i < from.len()
        invariant
            i <= from@.len(),
            n == text@.len(),
            at + from@.len() <= text@.len(),
            text@.subrange(at as int, at + i) =~= from@.subrange(0, i as int),
        decreases from@.len() - i,
    {
        if text[at + i] != from[i] {
            assert(text@.subrange(at as int, at + from@.len())[i as int] != from@[i as int]);
            return false;
        }
        assert(text@.subrange(at as int, at + i + 1) =~= text@.subrange(at as int, at + i).push(
            text@[at + i],
        ));
        assert(from@.subrange(0, i + 1) =~= from@.subrange(0, i as int).push(from@[i as int]));
        i += 1;
    }
    assert(from@.subrange(0, from@.len() as int) =~= from@);
    true
}

/// Replaces every occurrence of `from` in the text by `to`.
pub fn replace(text: &Vec<char>, from: &Vec<char>, to: &Vec<char>) -> (r: Vec<char>)
    ensures
        r@ == replaced(text@, from@, to@, 0),
{
    let mut out: Vec<char> = Vec::new();
    let mut at: usize = 0;
    while at < text.len()
        invariant
            at <= text@.len(),
            replaced(text@, from@, to@, 0) == out@ + replaced(text@, from@, to@, at as int),
        decreases text@.len() - at,
    {
        let ghost before = out@;
        if from.len() > 0 && found_at(text, from, at) {
            push_all(&mut out, to);
            assert(out@ + replaced(text@, from@, to@, at + from@.len()) =~= before + (to@
                + replaced(text@, from@, to@, at + from@.len())));
            at += from.len();
        } else {
            out.push(text[at]);
            assert(out@ + replaced(text@, from@, to@, at + 1) =~= before + (seq![text@[at as int]]
                + replaced(text@, from@, to@, at + 1)));
            at += 1;
        }
    }
    out
}

/// How a switch is written.
pub open spec fn truth(on: bool) -> Seq<char> {
    if on {
        "true"@
    } else {
        "false"@
    }
}

/// How a color is written.
pub open spec fn color_name(color: Colors) -> Seq<char> {
    match color {
        Colors::Black => "black"@,
        Colors::Blue => "blue"@,
        Colors::Green => "green"@,
        Colors::Red => "red"@,
        Colors::Cyan => "cyan"@,
        Colors::Magenta => "magenta"@,
        Colors::Yellow => "yellow"@,
        Colors::White => "white"@,
    }
}

/// How a choice of columns is written.
pub open spec fn columns_name(columns: ColumnsChoice) -> Seq<char> {
    match columns {
        ColumnsChoice::All => "all"@,
        ColumnsChoice::NameOnly => "none"@,
        ColumnsChoice::Version => "version"@,
        ColumnsChoice::Description => "description"@,
    }
}

/// How a color mode is written.
pub open spec fn mode_name(mode: ColorMode) -> Seq<char> {
    match mode {
        ColorMode::Always => "always"@,
        ColorMode::Auto => "auto"@,
        ColorMode::Never => "never"@,
    }
}

/// Computes [`truth`].
pub fn switch_text(on: bool) -> (r: &'static str)
    ensures
        r@ == truth(on),
{
    if on {
        "true"
    } else {
        "false"
    }
}

/// Computes [`color_name`].
pub fn color_text(color: Colors) -> (r: &'static str)
    ensures
        r@ == color_name(color),
{
    match color {
        Colors::Black => "black",
        Colors::Blue => "blue",
        Colors::Green => "green",
        Colors::Red => "red",
        Colors::Cyan => "cyan",
        Colors::Magenta => "magenta",
        Colors::Yellow => "yellow",
        Colors::White => "white",
    }
}

/// Computes [`columns_name`].
pub fn columns_text(columns: ColumnsChoice) -> (r: &'static str)
    ensures
        r@ == columns_name(columns),
{
    match columns {
        ColumnsChoice::All => "all",
        ColumnsChoice::NameOnly => "none",
        ColumnsChoice::Version => "version",
        ColumnsChoice::Description => "description",
    }
}

/// Computes [`mode_name`].
pub fn mode_text(mode: ColorMode) -> (r: &'static str)
    ensures
        r@ == mode_name(mode),
{
    match mode {
        ColorMode::Always => "always",
        ColorMode::Auto => "auto",
        ColorMode::Never => "never",
    }
}

/// The text with the placeholder `key` filled in.
pub open spec fn filled(text: Seq<char>, key: Seq<char>, value: Seq<char>) -> Seq<char> {
    replaced(text, key, value, 0)
}

/// A help text with every placeholder filled in, one after the other, for
/// the settings `d` and the full path of the cache folder.
pub open spec fn help_text_for(template: Seq<char>, d: Defaults, cache_folder: Seq<char>) -> Seq<
    char,
> {
    let text = filled(template, "{DEFAULT_EXPERIMENTAL}"@, truth(d.experimental));
    let text = filled(text, "{DEFAULT_CACHE_FOLDER}"@, cache_folder);
    let text = filled(text, "{DEFAULT_CACHE_FILE}"@, d.cache_file@);
    let text = filled(text, "{DEFAULT_EXPERIMENTAL_CACHE_FILE}"@, d.experimental_cache_file@);
    let text = filled(text, "{DEFAULT_COLOR_MODE}"@, mode_name(d.color_mode));
    let text = filled(text, "{DEFAULT_COLUMNS}"@, columns_name(d.columns));
    let text = filled(text, "{DEFAULT_FLIP}"@, truth(d.flip));
    let text = filled(text, "{DEFAULT_IGNORE_CASE}"@, truth(d.ignore_case));
    let text = filled(text, "{DEFAULT_PRINT_SEPARATOR}"@, truth(d.print_separator));
    let text = filled(text, "{DEFAULT_QUIET}"@, truth(d.quiet));
    let text = filled(text, "{DEFAULT_EXACT_COLOR}"@, color_name(d.exact_color));
    let text = filled(text, "{DEFAULT_DIRECT_COLOR}"@, color_name(d.direct_color));
    filled(text, "{DEFAULT_INDIRECT_COLOR}"@, color_name(d.indirect_color))
}

/// Fills one placeholder in.
fn fill(text: Vec<char>, key: &str, value: &str) -> (r: Vec<char>)
    ensures
        r@ == filled(text@, key@, value@),
{
    replace(&text, &chars_of(key), &chars_of(value))
}

/// Replaces the placeholders of a help text by the default settings.
///
/// `cache_folder` is the full path of the default cache folder, which
/// depends on the user's home directory.
pub fn option_help_text(help_text: &str, cache_folder: &str) -> (r: String)
    ensures
        r@ == help_text_for(help_text@, default_values(), cache_folder@),
{
    let d = defaults();
    let text = chars_of(help_text);
    let text = fill(text, "{DEFAULT_EXPERIMENTAL}", switch_text(d.experimental));
    let text = fill(text, "{DEFAULT_CACHE_FOLDER}", cache_folder);
    let text = fill(text, "{DEFAULT_CACHE_FILE}", d.cache_file);
    let text = fill(text, "{DEFAULT_EXPERIMENTAL_CACHE_FILE}", d.experimental_cache_file);
    let text = fill(text, "{DEFAULT_COLOR_MODE}", mode_text(d.color_mode));
    let text = fill(text, "{DEFAULT_COLUMNS}", columns_text(d.columns));
    let text = fill(text, "{DEFAULT_FLIP}", switch_text(d.flip));
    let text = fill(text, "{DEFAULT_IGNORE_CASE}", switch_text(d.ignore_case));
    let text = fill(text, "{DEFAULT_PRINT_SEPARATOR}", switch_text(d.print_separator));
    let text = fill(text, "{DEFAULT_QUIET}", switch_text(d.quiet));
    let text = fill(text, "{DEFAULT_EXACT_COLOR}", color_text(d.exact_color));
    let text = fill(text, "{DEFAULT_DIRECT_COLOR}", color_text(d.direct_color));
    let text = fill(text, "{DEFAULT_INDIRECT_COLOR}", color_text(d.indirect_color));
    string_of(&text)
}

} // verus!
