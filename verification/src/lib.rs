//! Search a cached list of packages, rank the matches by relevance and
//! render them as aligned, highlighted columns.
//!
//! The cache is a text with one package per line: name, version and
//! description, separated by whitespace. A search runs in five steps:
//!
//! 1. [`search::get_matches`] picks the lines that match the term;
//! 2. [`columns::sort_and_pad_matches`] splits each line into its fields
//!    ([`record`]), ranks it as an exact, a direct or an indirect match
//!    ([`classify`]) and lays it out in columns that line up across all
//!    three kinds;
//! 3. [`highlight::color_matches`] marks the occurrences of the term in each
//!    kind with the emphasis of that kind;
//! 4. [`assemble::assemble`] puts the three blocks together, best matches
//!    last or, flipped, first ([`flip`] says what flipping does to the lines);
//! 5. the caller prints the result.
//!
//! [`search::search`] does the first four in one call. [`cache`] and
//! [`refresh`] build the cache from the output of a package listing, its
//! lines sorted in the [`order`] of `str`; [`help`] fills the default
//! [`settings`] into the help text.
//!
//! The library reads no file, runs no command and prints nothing: it maps
//! text to text. Three things are left to other crates behind small
//! functions whose contracts are taken on trust: proposing where the term
//! occurs (`grep`), the escape sequences of an emphasis (`termcolor`), and
//! decoding JSON (`serde_json`). So are three functions of the standard
//! library: building a string from characters, lowering the case of a text,
//! and reading bytes as UTF-8. Everything else is proved against its
//! contract.

pub mod assemble;
pub mod cache;
pub mod classify;
pub mod columns;
pub mod flip;
pub mod help;
pub mod highlight;
pub mod order;
pub mod record;
pub mod refresh;
pub mod search;
pub mod settings;
pub mod spans;
pub mod text;
