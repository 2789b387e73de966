//! Rebuilding the cache from a fresh package listing.
//!
//! Running the listing command and replacing the cache file are left to the
//! caller. What to run, whether its output is fit to become the cache, and
//! what the cache then holds is decided here, one step at a time: the caller
//! reports what happened as a [`RefreshEvent`] and carries out the
//! [`RefreshAction`] it gets back.

use crate::cache::{
    decoded_listing, is_outcome, normalize_listing, normalized_text, parse_json_to_lines,
    CacheError,
};
use crate::settings::defaults;
use crate::text::{
    chars_of, lines_of, rows, split_lines, starts_with, string_of, views,
};
use vstd::prelude::*;
use vstd::utf8::{decode_utf8, valid_utf8};

verus! {

/// A listing shorter than this many bytes is taken for a failed run and
/// never becomes the cache.
pub const MINIMUM_LISTING_BYTES: usize = 10_000;

/// Why a refresh ended without a new cache.
#[derive(Debug)]
pub enum RefreshError {
    /// The listing command could not be run.
    Launch,
    /// The listing is not UTF-8.
    ListingNotText,
    /// What the command wrote to its error stream is not UTF-8.
    DiagnosticsNotText,
    /// The listing is shorter than [`MINIMUM_LISTING_BYTES`].
    TooSmall,
    /// The JSON listing could not be turned into cache lines.
    Listing(CacheError),
    /// The new cache could not be written.
    Persist,
    /// The event does not belong to the state it was reported in.
    OutOfTurn,
}

/// The command that lists all packages, program first: the flake search
/// where `experimental`, the channel query otherwise.
pub open spec fn command_line(experimental: bool) -> Seq<Seq<char>> {
    if experimental {
        seq!["nix"@, "search"@, "nixpkgs"@, "^"@, "--json"@]
    } else {
        seq!["nix-env"@, "-qaP"@, "--description"@]
    }
}

/// Computes [`command_line`].
pub fn listing_command(experimental: bool) -> (r: Vec<String>)
    ensures
        views(r@) == command_line(experimental),
{
    let mut command: Vec<String> = Vec::new();
    if experimental {
        command.push("nix".to_owned());
        command.push("search".to_owned());
        command.push("nixpkgs".to_owned());
        command.push("^".to_owned());
        command.push("--json".to_owned());
    } else {
        command.push("nix-env".to_owned());
        command.push("-qaP".to_owned());
        command.push("--description".to_owned());
    }
    assert(views(command@) =~= command_line(experimental));
    command
}

/// The name of the cache file: the two kinds of listing are cached apart.
pub open spec fn cache_file(experimental: bool) -> Seq<char> {
    if experimental {
        "nps.experimental.cache"@
    } else {
        "nps.cache"@
    }
}

/// Computes [`cache_file`].
pub fn cache_file_name(experimental: bool) -> (r: &'static str)
    ensures
        r@ == cache_file(experimental),
{
    let d = defaults();
    if experimental {
        d.experimental_cache_file
    } else {
        d.cache_file
    }
}

/// Reads bytes as text with `str::from_utf8`: `Some` exactly for valid
/// UTF-8, and then the text that the bytes encode.
#[verifier::external_body]
pub(crate) fn text_of_bytes(bytes: &[u8]) -> (r: Option<&str>)
    ensures
        r is Some <==> valid_utf8(bytes@),
        r matches Some(text) ==> text@ == decode_utf8(bytes@),
{
    std::str::from_utf8(bytes).ok()
}

/// True for the lines of the error stream that report routine progress.
pub open spec fn is_progress(line: Seq<char>) -> bool {
    "evaluating"@.is_prefix_of(line)
}

/// The lines of the error stream that deserve the user's attention: all but
/// those that report progress.
pub open spec fn warnings_in(diagnostics: Seq<char>) -> Seq<Seq<char>> {
    lines_of(diagnostics).filter(|line: Seq<char>| !is_progress(line))
}

/// Computes [`warnings_in`].
pub fn warnings(diagnostics: &str) -> (r: Vec<String>)
    ensures
        views(r@) == warnings_in(diagnostics@),
{
    let lines = split_lines(&chars_of(diagnostics));
    let progress = chars_of("evaluating");
    let ghost keep = |line: Seq<char>| !is_progress(line);
    let mut found: Vec<String> = Vec::new();
    let mut i: usize = 0;
    while i < lines.len()
        invariant
            i <= lines@.len(),
            progress@ == "evaluating"@,
            keep == |line: Seq<char>| !is_progress(line),
            views(found@) == rows(lines@).take(i as int).filter(keep),
        decreases lines@.len() - i,
    {
        proof {
            let seen = rows(lines@).take(i as int);
            assert(rows(lines@).take(i + 1) =~= seen.push(lines@[i as int]@));
            seen.lemma_filter_push(lines@[i as int]@, keep);
        }
        if !starts_with(&lines[i], &progress) {
            let ghost before = views(found@);
            found.push(string_of(&lines[i]));
            assert(views(found@) =~= before.push(lines@[i as int]@));
        }
        i += 1;
    }
    assert(rows(lines@).take(lines@.len() as int) =~= rows(lines@));
    found
}

/// What a listing yields, as a relation between the bytes that the command
/// wrote and the result.
pub open spec fn is_cache_of(experimental: bool, listing: Seq<u8>, r: Result<String, RefreshError>) -> bool {
    match r {
        Ok(cache) => {
            &&& valid_utf8(listing)
            &&& listing.len() >= MINIMUM_LISTING_BYTES
            &&& if experimental {
                is_outcome(decoded_listing(decode_utf8(listing)), Ok(cache))
            } else {
                cache@ == normalized_text(decode_utf8(listing), 0)
            }
        },
        Err(RefreshError::ListingNotText) => !valid_utf8(listing),
        Err(RefreshError::TooSmall) => valid_utf8(listing) && listing.len() < MINIMUM_LISTING_BYTES,
        Err(RefreshError::Listing(error)) => {
            &&& valid_utf8(listing)
            &&& listing.len() >= MINIMUM_LISTING_BYTES
            &&& experimental
            &&& is_outcome(decoded_listing(decode_utf8(listing)), Err(error))
        },
        Err(_) => false,
    }
}

/// Turns the bytes of a listing into the text of the cache.
///
/// The listing has to be UTF-8 and at least [`MINIMUM_LISTING_BYTES`] long.
/// A JSON listing (`experimental`) is decoded, a plain one is normalized line
/// by line.
pub fn build_cache(experimental: bool, listing: &[u8]) -> (r: Result<String, RefreshError>)
    ensures
        is_cache_of(experimental, listing@, r),
{
    let text = match text_of_bytes(listing) {
        Some(text) => text,
        None => {
            return Err(RefreshError::ListingNotText);
        },
    };
    if listing.len() < MINIMUM_LISTING_BYTES {
        return Err(RefreshError::TooSmall);
    }
    if experimental {
        match parse_json_to_lines(text) {
            Ok(cache) => Ok(cache),
            Err(error) => Err(RefreshError::Listing(error)),
        }
    } else {
        Ok(normalize_listing(text))
    }
}

/// How far a refresh has come.
#[derive(Clone, Copy, Debug, PartialEq, Eq)]
pub enum RefreshState {
    /// Nothing has been done yet.
    Idle,
    /// The listing command is running.
    Listing,
    /// The new cache is being written.
    Persisting,
    /// The new cache is in place.
    Done,
    /// The refresh was given up. The cache was not touched.
    Failed,
}

/// What the caller reports.
#[derive(Debug)]
pub enum RefreshEvent {
    /// A refresh is wanted.
    Begin,
    /// The listing command could not be run.
    LaunchFailed,
    /// The listing command ran; these are the bytes of its two streams.
    Listed { listing: Vec<u8>, diagnostics: Vec<u8> },
    /// The cache file was replaced.
    Persisted,
    /// The cache file could not be replaced.
    PersistFailed,
}

/// What the caller is asked to do next.
#[derive(Debug)]
pub enum RefreshAction {
    /// Run this command, program first, and report how it went.
    Run { command: Vec<String> },
    /// Replace the cache file by `content` in one step, after showing the
    /// warnings, and report how it went.
    Persist { content: String, packages: usize, warnings: Vec<String> },
    /// Tell the user that the cache is up to date.
    Finish,
    /// Give up, leaving the cache file alone.
    Abort { error: RefreshError, warnings: Vec<String> },
}

/// The number of packages in a cache: the number of its lines.
pub open spec fn package_count(cache: Seq<char>) -> nat {
    lines_of(cache).len()
}

/// The step that the refresh takes on an event: the state it enters and the
/// action it asks for.
pub open spec fn is_step(
    experimental: bool,
    state: RefreshState,
    event: RefreshEvent,
    next: RefreshState,
    action: RefreshAction,
) -> bool {
    match (state, event) {
        (RefreshState::Idle, RefreshEvent::Begin) => {
            &&& next == RefreshState::Listing
            &&& action matches RefreshAction::Run { command }
            &&& views(command@) == command_line(experimental)
        },
        (RefreshState::Listing, RefreshEvent::LaunchFailed) => {
            &&& next == RefreshState::Failed
            &&& action matches RefreshAction::Abort { error: RefreshError::Launch, warnings }
            &&& warnings@.len() == 0
        },
        (RefreshState::Listing, RefreshEvent::Listed { listing, diagnostics }) => {
            if !valid_utf8(listing@) {
                &&& next == RefreshState::Failed
                &&& action matches RefreshAction::Abort {
                    error: RefreshError::ListingNotText,
                    warnings,
                }
                &&& warnings@.len() == 0
            } else if !valid_utf8(diagnostics@) {
                &&& next == RefreshState::Failed
                &&& action matches RefreshAction::Abort {
                    error: RefreshError::DiagnosticsNotText,
                    warnings,
                }
                &&& warnings@.len() == 0
            } else {
                match action {
                    RefreshAction::Persist { content, packages, warnings } => {
                        &&& next == RefreshState::Persisting
                        &&& is_cache_of(experimental, listing@, Ok(content))
                        &&& packages == package_count(content@)
                        &&& views(warnings@) == warnings_in(decode_utf8(diagnostics@))
                    },
                    RefreshAction::Abort { error, warnings } => {
                        &&& next == RefreshState::Failed
                        &&& is_cache_of(experimental, listing@, Err(error))
                        &&& views(warnings@) == warnings_in(decode_utf8(diagnostics@))
                    },
                    _ => false,
                }
            }
        },
        (RefreshState::Persisting, RefreshEvent::Persisted) => {
            &&& next == RefreshState::Done
            &&& action is Finish
        },
        (RefreshState::Persisting, RefreshEvent::PersistFailed) => {
            &&& next == RefreshState::Failed
            &&& action matches RefreshAction::Abort { error: RefreshError::Persist, warnings }
            &&& warnings@.len() == 0
        },
        _ => {
            &&& next == RefreshState::Failed
            &&& action matches RefreshAction::Abort { error: RefreshError::OutOfTurn, warnings }
            &&& warnings@.len() == 0
        },
    }
}

/// The answer to an event that ends the refresh without a new cache.
fn abort(error: RefreshError) -> (r: (RefreshState, RefreshAction))
    ensures
        r.0 == RefreshState::Failed,
        r.1 matches RefreshAction::Abort { error: e, warnings } && e == error && warnings@.len()
            == 0,
{
    (RefreshState::Failed, RefreshAction::Abort { error, warnings: Vec::new() })
}

/// Takes one step of a refresh.
///
/// From `Idle`, `Begin` asks for the listing command to be run. Its outcome
/// decides between writing the new cache and giving up: the cache is written
/// only for a listing that is text, long enough, and well formed. Whatever
/// else happens, the refresh fails and asks for nothing to be written.
pub fn refresh_step(experimental: bool, state: RefreshState, event: RefreshEvent) -> (r: (
    RefreshState,
    RefreshAction,
))
    ensures
        is_step(experimental, state, event, r.0, r.1),
{
    match state {
        RefreshState::Idle => match event {
            RefreshEvent::Begin => (
                RefreshState::Listing,
                RefreshAction::Run { command: listing_command(experimental) },
            ),
            _ => abort(RefreshError::OutOfTurn),
        },
        RefreshState::Listing => match event {
            RefreshEvent::LaunchFailed => abort(RefreshError::Launch),
            RefreshEvent::Listed { listing, diagnostics } => {
                if text_of_bytes(listing.as_slice()).is_none() {
                    return abort(RefreshError::ListingNotText);
                }
                let found = match text_of_bytes(diagnostics.as_slice()) {
                    Some(text) => warnings(text),
                    None => {
                        return abort(RefreshError::DiagnosticsNotText);
                    },
                };
                match build_cache(experimental, listing.as_slice()) {
                    Ok(content) => {
                        let packages = split_lines(&chars_of(content.as_str())).len();
                        (
                            RefreshState::Persisting,
                            RefreshAction::Persist { content, packages, warnings: found },
                        )
                    },
                    Err(error) => (
                        RefreshState::Failed,
                        RefreshAction::Abort { error, warnings: found },
                    ),
                }
            },
            _ => abort(RefreshError::OutOfTurn),
        },
        RefreshState::Persisting => match event {
            RefreshEvent::Persisted => (RefreshState::Done, RefreshAction::Finish),
            RefreshEvent::PersistFailed => abort(RefreshError::Persist),
            _ => abort(RefreshError::OutOfTurn),
        },
        _ => abort(RefreshError::OutOfTurn),
    }
}

/// A refresh asks for the cache to be written in one situation only: the
/// listing command has run, and what it wrote is text, at least
/// [`MINIMUM_LISTING_BYTES`] long, and yields this very content. A command
/// that failed to run, or a listing that is too short, never leads to a
/// write: the cache that was there stays as it is.
pub proof fn lemma_write_only_after_good_listing(
    experimental: bool,
    state: RefreshState,
    event: RefreshEvent,
    next: RefreshState,
    action: RefreshAction,
)
    requires
        is_step(experimental, state, event, next, action),
        action is Persist,
    ensures
        state == RefreshState::Listing,
        next == RefreshState::Persisting,
        event matches RefreshEvent::Listed { listing, diagnostics } && valid_utf8(listing@)
            && listing@.len() >= MINIMUM_LISTING_BYTES && is_cache_of(
            experimental,
            listing@,
            Ok(action->content),
        ),
{
}

} // verus!
