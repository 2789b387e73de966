use nps::cache::CacheError;
use nps::refresh::{
    build_cache, listing_command, refresh_step, warnings, RefreshAction, RefreshError,
    RefreshEvent, RefreshState, MINIMUM_LISTING_BYTES,
};

fn plain_listing(packages: usize) -> String {
    let mut listing = String::new();
    for n in 0..packages {
        listing.push_str(&format!("nixos.package{:05}     1.{}    The package number {}\n", n, n, n));
    }
    listing
}

fn json_listing(packages: usize) -> String {
    let entries: Vec<String> = (0..packages)
        .rev()
        .map(|n| {
            format!(
                "\"legacyPackages.x86_64-linux.package{:05}\": {{\"description\": \"The package number {}\", \"pname\": \"p\", \"version\": \"1.{}\"}}",
                n, n, n
            )
        })
        .collect();
    format!("{{{}}}", entries.join(","))
}

fn listed(listing: &[u8], diagnostics: &[u8]) -> RefreshEvent {
    RefreshEvent::Listed {
        listing: listing.to_vec(),
        diagnostics: diagnostics.to_vec(),
    }
}

#[test]
fn the_threshold_is_ten_thousand_bytes() {
    assert_eq!(MINIMUM_LISTING_BYTES, 10_000);
}

#[test]
fn each_mode_has_its_command() {
    assert_eq!(
        listing_command(true),
        vec!["nix", "search", "nixpkgs", "^", "--json"]
    );
    assert_eq!(listing_command(false), vec!["nix-env", "-qaP", "--description"]);
}

#[test]
fn progress_is_no_warning() {
    let diagnostics = "evaluating derivation 'x'\nwarning: something is off\r\nevaluating more\n\nerror: bad\n Evaluating is no prefix here";
    assert_eq!(
        warnings(diagnostics),
        vec![
            "warning: something is off",
            "",
            "error: bad",
            " Evaluating is no prefix here"
        ]
    );
    assert!(warnings("").is_empty());
    assert!(warnings("evaluating\nevaluating x").is_empty());
}

#[test]
fn short_listing_is_refused() {
    let listing = "a".repeat(9_999);
    assert!(matches!(
        build_cache(false, listing.as_bytes()),
        Err(RefreshError::TooSmall)
    ));
    assert!(matches!(
        build_cache(true, b"{}"),
        Err(RefreshError::TooSmall)
    ));
    assert!(matches!(build_cache(false, b""), Err(RefreshError::TooSmall)));
}

#[test]
fn listing_of_exactly_the_threshold_is_taken() {
    let listing = "a".repeat(10_000);
    assert_eq!(build_cache(false, listing.as_bytes()).unwrap(), listing);
}

#[test]
fn listing_has_to_be_text() {
    let mut listing = plain_listing(500).into_bytes();
    listing[20] = 0xff;
    assert!(matches!(
        build_cache(false, &listing),
        Err(RefreshError::ListingNotText)
    ));
    assert!(matches!(
        build_cache(true, &[0xc3]),
        Err(RefreshError::ListingNotText)
    ));
}

#[test]
fn plain_listing_is_normalized() {
    let listing = plain_listing(300);
    assert!(listing.len() >= 10_000);
    let cache = build_cache(false, listing.as_bytes()).unwrap();
    let lines: Vec<&str> = cache.lines().collect();
    assert_eq!(lines.len(), 300);
    assert_eq!(lines[0], "nixos.package00000 1.0 The package number 0");
    assert_eq!(lines[299], "nixos.package00299 1.299 The package number 299");
    assert!(cache.ends_with('\n'));
}

#[test]
fn json_listing_is_decoded_and_sorted() {
    let listing = json_listing(200);
    assert!(listing.len() >= 10_000);
    let cache = build_cache(true, listing.as_bytes()).unwrap();
    let lines: Vec<&str> = cache.lines().collect();
    assert_eq!(lines.len(), 200);
    assert_eq!(lines[0], "package00000 1.0 The package number 0");
    assert_eq!(lines[199], "package00199 1.199 The package number 199");
    assert!(!cache.ends_with('\n'));
}

#[test]
fn bad_json_listing_is_refused() {
    let listing = format!("{} trailing", json_listing(200));
    assert!(matches!(
        build_cache(true, listing.as_bytes()),
        Err(RefreshError::Listing(CacheError::Malformed(_)))
    ));
    let listing = plain_listing(300);
    assert!(matches!(
        build_cache(true, listing.as_bytes()),
        Err(RefreshError::Listing(CacheError::Malformed(_)))
    ));
}

#[test]
fn refresh_begins_with_the_listing_command() {
    let (state, action) = refresh_step(true, RefreshState::Idle, RefreshEvent::Begin);
    assert_eq!(state, RefreshState::Listing);
    match action {
        RefreshAction::Run { command } => {
            assert_eq!(command, vec!["nix", "search", "nixpkgs", "^", "--json"])
        }
        other => panic!("{:?}", other),
    }
    let (state, action) = refresh_step(false, RefreshState::Idle, RefreshEvent::Begin);
    assert_eq!(state, RefreshState::Listing);
    match action {
        RefreshAction::Run { command } => {
            assert_eq!(command, vec!["nix-env", "-qaP", "--description"])
        }
        other => panic!("{:?}", other),
    }
}

#[test]
fn good_listing_is_written() {
    let listing = plain_listing(300);
    let (state, action) = refresh_step(
        false,
        RefreshState::Listing,
        listed(listing.as_bytes(), b"evaluating x\nwarning: y\n"),
    );
    assert_eq!(state, RefreshState::Persisting);
    match action {
        RefreshAction::Persist {
            content,
            packages,
            warnings,
        } => {
            assert_eq!(packages, 300);
            assert_eq!(warnings, vec!["warning: y"]);
            assert_eq!(content, build_cache(false, listing.as_bytes()).unwrap());
        }
        other => panic!("{:?}", other),
    }
    let (state, action) = refresh_step(false, state, RefreshEvent::Persisted);
    assert_eq!(state, RefreshState::Done);
    assert!(matches!(action, RefreshAction::Finish));
}

#[test]
fn failed_command_writes_nothing() {
    for experimental in [false, true] {
        let (state, action) =
            refresh_step(experimental, RefreshState::Listing, RefreshEvent::LaunchFailed);
        assert_eq!(state, RefreshState::Failed);
        assert!(matches!(
            action,
            RefreshAction::Abort {
                error: RefreshError::Launch,
                ..
            }
        ));
    }
}

#[test]
fn undersized_listing_writes_nothing() {
    for experimental in [false, true] {
        let (state, action) = refresh_step(
            experimental,
            RefreshState::Listing,
            listed(b"nixos.vim 9.0 editor\n", b"warning: no channel\n"),
        );
        assert_eq!(state, RefreshState::Failed);
        match action {
            RefreshAction::Abort { error, warnings } => {
                assert!(matches!(error, RefreshError::TooSmall));
                assert_eq!(warnings, vec!["warning: no channel"]);
            }
            other => panic!("{:?}", other),
        }
    }
}

#[test]
fn streams_that_are_no_text_write_nothing() {
    let listing = plain_listing(300);
    let (state, action) =
        refresh_step(false, RefreshState::Listing, listed(&[0xff, 0xfe], b""));
    assert_eq!(state, RefreshState::Failed);
    assert!(matches!(
        action,
        RefreshAction::Abort {
            error: RefreshError::ListingNotText,
            ..
        }
    ));
    let (state, action) = refresh_step(
        false,
        RefreshState::Listing,
        listed(listing.as_bytes(), &[0xff]),
    );
    assert_eq!(state, RefreshState::Failed);
    assert!(matches!(
        action,
        RefreshAction::Abort {
            error: RefreshError::DiagnosticsNotText,
            ..
        }
    ));
}

#[test]
fn failed_write_ends_the_refresh() {
    let (state, action) =
        refresh_step(false, RefreshState::Persisting, RefreshEvent::PersistFailed);
    assert_eq!(state, RefreshState::Failed);
    assert!(matches!(
        action,
        RefreshAction::Abort {
            error: RefreshError::Persist,
            ..
        }
    ));
}

#[test]
fn events_out_of_turn_end_the_refresh() {
    let listing = plain_listing(300);
    let cases = [
        (RefreshState::Idle, RefreshEvent::Persisted),
        (RefreshState::Idle, listed(listing.as_bytes(), b"")),
        (RefreshState::Listing, RefreshEvent::Begin),
        (RefreshState::Persisting, listed(listing.as_bytes(), b"")),
        (RefreshState::Done, RefreshEvent::Begin),
        (RefreshState::Done, listed(listing.as_bytes(), b"")),
        (RefreshState::Failed, RefreshEvent::Persisted),
        (RefreshState::Failed, listed(listing.as_bytes(), b"")),
    ];
    for (state, event) in cases {
        let (next, action) = refresh_step(false, state, event);
        assert_eq!(next, RefreshState::Failed);
        assert!(matches!(
            action,
            RefreshAction::Abort {
                error: RefreshError::OutOfTurn,
                ..
            }
        ));
    }
}

#[test]
fn only_a_good_listing_leads_to_a_write() {
    let good = plain_listing(300);
    let states = [
        RefreshState::Idle,
        RefreshState::Listing,
        RefreshState::Persisting,
        RefreshState::Done,
        RefreshState::Failed,
    ];
    for state in states {
        let events = vec![
            RefreshEvent::Begin,
            RefreshEvent::LaunchFailed,
            listed(b"too short", b""),
            listed(good.as_bytes(), b""),
            RefreshEvent::Persisted,
            RefreshEvent::PersistFailed,
        ];
        for (n, event) in events.into_iter().enumerate() {
            let (_, action) = refresh_step(false, state, event);
            let writes = matches!(action, RefreshAction::Persist { .. });
            assert_eq!(writes, state == RefreshState::Listing && n == 3);
        }
    }
}
