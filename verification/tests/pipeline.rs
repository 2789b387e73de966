use nps::search::{get_matches, search};
use nps::settings::Settings;
use nps::spans::occurrences;

const EXPERIMENTAL_CACHE: &str = "\
AnotherPackage 0.1 Has nothing to do with the search
MyTestPackageName 1.0.0 Test package description
MyTestPackageName1 1.1.0 Another test package description
MyTestPackageName2 1.0.1 
MyTestPackageName3 1.2.1 More test package description
mytestpackageName3 3.2.1 More test package description, now with MyTestPackageName
MatchMyDescription a.b.c MyTestPackageName appears in my description
MatchMyDescription1 9.8.7 Also here MyTestPackageName appears in my description
MatchMyDescription2 9.8.7 mytestpackageName appears in my description with different capitalization
YetAnotherPackage 0.2 Is not found either
";

fn channel_cache() -> String {
    let mut cache = String::new();
    for channel in ["nixpkgs", "nixos"] {
        for line in EXPERIMENTAL_CACHE.lines() {
            cache.push_str(channel);
            cache.push('.');
            cache.push_str(line);
            cache.push('\n');
        }
    }
    cache
}

fn printed(cli: &Settings, content: &str) -> String {
    format!("{}\n", search(cli, content, false).unwrap())
}

#[test]
fn experimental_output_case_sensitive() {
    let desired_output =
        "MatchMyDescription1  9.8.7  Also here MyTestPackageName appears in my description
MatchMyDescription   a.b.c  MyTestPackageName appears in my description
mytestpackageName3   3.2.1  More test package description, now with MyTestPackageName

MyTestPackageName3   1.2.1  More test package description
MyTestPackageName2   1.0.1  
MyTestPackageName1   1.1.0  Another test package description

MyTestPackageName    1.0.0  Test package description
";
    let mut cli = Settings::new("MyTestPackageName");
    cli.ignore_case = false;
    cli.experimental = true;

    assert_eq!(printed(&cli, EXPERIMENTAL_CACHE), desired_output);
}

#[test]
fn experimental_output() {
    let desired_output = "MatchMyDescription2  9.8.7  mytestpackageName appears in my description with different capitalization
MatchMyDescription1  9.8.7  Also here MyTestPackageName appears in my description
MatchMyDescription   a.b.c  MyTestPackageName appears in my description

mytestpackageName3   3.2.1  More test package description, now with MyTestPackageName
MyTestPackageName3   1.2.1  More test package description
MyTestPackageName2   1.0.1  
MyTestPackageName1   1.1.0  Another test package description

MyTestPackageName    1.0.0  Test package description
";
    let mut cli = Settings::new("MyTestPackageName");
    cli.experimental = true;

    assert_eq!(printed(&cli, EXPERIMENTAL_CACHE), desired_output);
}

#[test]
fn experimental_output_flip_by_command_line_equals() {
    let desired_output = "MyTestPackageName    1.0.0  Test package description

MyTestPackageName1   1.1.0  Another test package description
MyTestPackageName2   1.0.1  
MyTestPackageName3   1.2.1  More test package description

mytestpackageName3   3.2.1  More test package description, now with MyTestPackageName
MatchMyDescription   a.b.c  MyTestPackageName appears in my description
MatchMyDescription1  9.8.7  Also here MyTestPackageName appears in my description
";
    let mut cli = Settings::new("MyTestPackageName");
    cli.ignore_case = false;
    cli.flip = true;
    cli.experimental = true;

    assert_eq!(printed(&cli, EXPERIMENTAL_CACHE), desired_output);
}

#[test]
fn experimental_output_flip_by_command_line_no_equals() {
    let desired_output = "MyTestPackageName    1.0.0  Test package description

MyTestPackageName1   1.1.0  Another test package description
MyTestPackageName2   1.0.1  
MyTestPackageName3   1.2.1  More test package description

mytestpackageName3   3.2.1  More test package description, now with MyTestPackageName
MatchMyDescription   a.b.c  MyTestPackageName appears in my description
MatchMyDescription1  9.8.7  Also here MyTestPackageName appears in my description
";
    let mut cli = Settings::new("MyTestPackageName");
    cli.ignore_case = false;
    cli.flip = true;
    cli.experimental = true;

    assert_eq!(printed(&cli, EXPERIMENTAL_CACHE), desired_output);
}

#[test]
fn experimental_output_flip_by_env_var() {
    let desired_output = "MyTestPackageName    1.0.0  Test package description

MyTestPackageName1   1.1.0  Another test package description
MyTestPackageName2   1.0.1  
MyTestPackageName3   1.2.1  More test package description

mytestpackageName3   3.2.1  More test package description, now with MyTestPackageName
MatchMyDescription   a.b.c  MyTestPackageName appears in my description
MatchMyDescription1  9.8.7  Also here MyTestPackageName appears in my description
";
    let mut cli = Settings::new("MyTestPackageName");
    cli.ignore_case = false;
    cli.experimental = true;
    cli.flip = "true".parse().unwrap();

    assert_eq!(printed(&cli, EXPERIMENTAL_CACHE), desired_output);
}

#[test]
fn output_case_sensitive() {
    let desired_output =
        "nixos.MatchMyDescription1    9.8.7  Also here MyTestPackageName appears in my description
nixos.MatchMyDescription     a.b.c  MyTestPackageName appears in my description
nixos.mytestpackageName3     3.2.1  More test package description, now with MyTestPackageName
nixpkgs.MatchMyDescription1  9.8.7  Also here MyTestPackageName appears in my description
nixpkgs.MatchMyDescription   a.b.c  MyTestPackageName appears in my description
nixpkgs.mytestpackageName3   3.2.1  More test package description, now with MyTestPackageName

nixos.MyTestPackageName3     1.2.1  More test package description
nixos.MyTestPackageName2     1.0.1  
nixos.MyTestPackageName1     1.1.0  Another test package description
nixpkgs.MyTestPackageName3   1.2.1  More test package description
nixpkgs.MyTestPackageName2   1.0.1  
nixpkgs.MyTestPackageName1   1.1.0  Another test package description

nixos.MyTestPackageName      1.0.0  Test package description
nixpkgs.MyTestPackageName    1.0.0  Test package description
";
    let mut cli = Settings::new("MyTestPackageName");
    cli.ignore_case = false;
    cli.experimental = false;

    assert_eq!(printed(&cli, &channel_cache()), desired_output);
}

#[test]
fn output() {
    let desired_output = "nixos.MatchMyDescription2    9.8.7  mytestpackageName appears in my description with different capitalization
nixos.MatchMyDescription1    9.8.7  Also here MyTestPackageName appears in my description
nixos.MatchMyDescription     a.b.c  MyTestPackageName appears in my description
nixpkgs.MatchMyDescription2  9.8.7  mytestpackageName appears in my description with different capitalization
nixpkgs.MatchMyDescription1  9.8.7  Also here MyTestPackageName appears in my description
nixpkgs.MatchMyDescription   a.b.c  MyTestPackageName appears in my description

nixos.mytestpackageName3     3.2.1  More test package description, now with MyTestPackageName
nixos.MyTestPackageName3     1.2.1  More test package description
nixos.MyTestPackageName2     1.0.1  
nixos.MyTestPackageName1     1.1.0  Another test package description
nixpkgs.mytestpackageName3   3.2.1  More test package description, now with MyTestPackageName
nixpkgs.MyTestPackageName3   1.2.1  More test package description
nixpkgs.MyTestPackageName2   1.0.1  
nixpkgs.MyTestPackageName1   1.1.0  Another test package description

nixos.MyTestPackageName      1.0.0  Test package description
nixpkgs.MyTestPackageName    1.0.0  Test package description
";
    let mut cli = Settings::new("MyTestPackageName");
    cli.experimental = false;

    assert_eq!(printed(&cli, &channel_cache()), desired_output);
}

#[test]
fn search_without_a_match_prints_nothing() {
    let mut cli = Settings::new("NoSuchPackage");
    cli.experimental = true;
    assert_eq!(search(&cli, EXPERIMENTAL_CACHE, false).unwrap(), "");
    assert_eq!(search(&cli, EXPERIMENTAL_CACHE, true).unwrap(), "");
    assert_eq!(search(&cli, "", true).unwrap(), "");
}

#[test]
fn search_with_colors_marks_the_term() {
    let mut cli = Settings::new("foo");
    cli.experimental = true;
    let content = "foo 1.0 bar baz\nfoobar 2.0 unrelated\nzfoo 3.0 something foo-ish\nnothing 1 here\n";
    assert_eq!(
        search(&cli, content, true).unwrap(),
        "z\u{1b}[0m\u{1b}[1m\u{1b}[32mfoo\u{1b}[0m    3.0  something \u{1b}[0m\u{1b}[1m\u{1b}[32mfoo\u{1b}[0m-ish\n\
         \n\
         \u{1b}[0m\u{1b}[1m\u{1b}[34mfoo\u{1b}[0mbar  2.0  unrelated\n\
         \n\
         \u{1b}[0m\u{1b}[1m\u{1b}[35mfoo\u{1b}[0m     1.0  bar baz"
    );
}

#[test]
fn flipped_search_equals_search_in_reversed_cache() {
    // With one kind of match only, flipping equals searching the cache
    // with its lines in reverse order.
    let forward = "pkg1 1 a\npkg2 2 b\npkg3 3 c\n";
    let backward = "pkg3 3 c\npkg2 2 b\npkg1 1 a\n";
    let mut cli = Settings::new("pkg");
    cli.experimental = true;
    cli.flip = true;
    let flipped = search(&cli, forward, false).unwrap();
    cli.flip = false;
    assert_eq!(flipped, search(&cli, backward, false).unwrap());
    assert_eq!(flipped, "pkg1  1  a\npkg2  2  b\npkg3  3  c");
}

#[test]
fn match_in_the_version_or_description_is_indirect() {
    let mut cli = Settings::new("42");
    cli.experimental = true;
    let content = "alpha 1.42 text\nbeta 1 the answer is 42\ngamma 2 none\n42 0 itself\n";
    assert_eq!(
        search(&cli, content, false).unwrap(),
        "beta   1     the answer is 42\nalpha  1.42  text\n\n42     0     itself"
    );
}

#[test]
fn empty_term_occurs_nowhere_but_begins_every_name() {
    let content = "alpha 1 plain\nbéta 2 with accents: café\n\nnixos.gamma 3 prefixed\n";
    let mut cli = Settings::new("");
    cli.experimental = true;
    // Every name begins with the empty term; a line without a name has the
    // empty name, which is the term.
    assert_eq!(get_matches(&cli, content).unwrap(), content);
    assert!(occurrences("", true, content).unwrap().is_empty());
    assert!(occurrences("", false, "ascii only").unwrap().is_empty());
    assert_eq!(
        search(&cli, content, true).unwrap(),
        "nixos.gamma  3  prefixed\nbéta         2  with accents: café\nalpha        1  plain"
    );

    cli.experimental = false;
    assert_eq!(get_matches(&cli, content).unwrap(), content);
}

#[test]
fn bare_and_prefixed_names_rank_alike() {
    let content = "foo 1 bare\nnixos.foo 1 prefixed\nfoobar 2 bare\nnixpkgs.foobar 2 prefixed\nother 3 mentions foo\n";
    let cli = Settings::new("foo");
    assert_eq!(
        search(&cli, content, false).unwrap(),
        "other           3  mentions foo\n\n\
         nixpkgs.foobar  2  prefixed\nfoobar          2  bare\n\n\
         nixos.foo       1  prefixed\nfoo             1  bare"
    );
}
