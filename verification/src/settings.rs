//! The settings of one search, built once and handed to every stage.

use vstd::prelude::*;

verus! {

/// Which columns a result line shows beside the package name.
#[derive(Clone, Copy, Debug, PartialEq, Eq)]
pub enum ColumnsChoice {
    /// Name, version and description.
    All,
    /// The name only.
    NameOnly,
    /// Name and version.
    Version,
    /// Name and description.
    Description,
}

/// The colors that a match can be shown in.
#[derive(Clone, Copy, Debug, PartialEq, Eq)]
pub enum Colors {
    Black,
    Blue,
    Green,
    Red,
    Cyan,
    Magenta,
    Yellow,
    White,
}

/// When matches are shown in color.
#[derive(Clone, Copy, Debug, PartialEq, Eq)]
pub enum ColorMode {
    /// Always.
    Always,
    /// Only where the output goes to a terminal that knows colors.
    Auto,
    /// Never.
    Never,
}

/// The settings that hold unless the user says otherwise.
#[derive(Clone, Copy, Debug)]
pub struct Defaults {
    /// The folder of the cache, below the home directory.
    pub cache_folder: &'static str,
    /// The file that caches the channel listing.
    pub cache_file: &'static str,
    pub experimental: bool,
    /// The file that caches the flake listing.
    pub experimental_cache_file: &'static str,
    pub color_mode: ColorMode,
    pub columns: ColumnsChoice,
    pub flip: bool,
    pub ignore_case: bool,
    pub print_separator: bool,
    pub quiet: bool,
    pub exact_color: Colors,
    pub direct_color: Colors,
    pub indirect_color: Colors,
}

/// The default settings.
pub open spec fn default_values() -> Defaults {
    Defaults {
        cache_folder: ".nix-package-search",
        cache_file: "nps.cache",
        experimental: false,
        experimental_cache_file: "nps.experimental.cache",
        color_mode: ColorMode::Auto,
        columns: ColumnsChoice::All,
        flip: false,
        ignore_case: true,
        print_separator: true,
        quiet: false,
        exact_color: Colors::Magenta,
        direct_color: Colors::Blue,
        indirect_color: Colors::Green,
    }
}

/// Computes [`default_values`].
pub fn defaults() -> (r: Defaults)
    ensures
        r == default_values(),
{
    Defaults {
        cache_folder: ".nix-package-search",
        cache_file: "nps.cache",
        experimental: false,
        experimental_cache_file: "nps.experimental.cache",
        color_mode: ColorMode::Auto,
        columns: ColumnsChoice::All,
        flip: false,
        ignore_case: true,
        print_separator: true,
        quiet: false,
        exact_color: Colors::Magenta,
        direct_color: Colors::Blue,
        indirect_color: Colors::Green,
    }
}

/// Everything that shapes a search and its output.
#[derive(Debug)]
pub struct Settings {
    /// The text to look for.
    pub search_term: String,
    /// Compare without regard to case.
    pub ignore_case: bool,
    /// The cache lists plain package names. Where this is off, names carry
    /// the prefix of the channel they come from; the term is then looked for
    /// at the beginning of a name and behind the prefix.
    pub experimental: bool,
    /// The columns to show.
    pub columns: ColumnsChoice,
    /// Show the best matches first instead of last.
    pub flip: bool,
    /// Put an empty line between the kinds of matches.
    pub separate: bool,
    /// Color of the term in exact matches.
    pub exact_color: Colors,
    /// Color of the term in direct matches.
    pub direct_color: Colors,
    /// Color of the term in indirect matches.
    pub indirect_color: Colors,
}

impl Clone for Settings {
    fn clone(&self) -> (r: Settings)
        ensures
            r == *self,
    {
        Settings {
            search_term: self.search_term.clone(),
            ignore_case: self.ignore_case,
            experimental: self.experimental,
            columns: self.columns,
            flip: self.flip,
            separate: self.separate,
            exact_color: self.exact_color,
            direct_color: self.direct_color,
            indirect_color: self.indirect_color,
        }
    }
}

impl Settings {
    /// The default settings for a search for `search_term`: case is ignored,
    /// names carry a channel prefix, all columns are shown, the best matches
    /// come last, and the kinds of matches are separated.
    pub fn new(search_term: &str) -> (r: Settings)
        ensures
            r.search_term@ == search_term@,
            r.ignore_case,
            !r.experimental,
            r.columns == ColumnsChoice::All,
            !r.flip,
            r.separate,
            r.exact_color == Colors::Magenta,
            r.direct_color == Colors::Blue,
            r.indirect_color == Colors::Green,
    {
        let d = defaults();
        Settings {
            search_term: search_term.to_owned(),
            ignore_case: d.ignore_case,
            experimental: d.experimental,
            columns: d.columns,
            flip: d.flip,
            separate: d.print_separator,
            exact_color: d.exact_color,
            direct_color: d.direct_color,
            indirect_color: d.indirect_color,
        }
    }
}

} // verus!
