use ps4::commands::{find_updates, is_yes, lock_exists, parse_command, Command, LockDecision};
use ps4::config::{
    get_config_entry, get_sources, load_mirrors, Config, ConfigEntries, ConfigError, RepoEntries,
    RepoNode,
};
use ps4::display::{display_installing_packages, display_removing_packages, list};
use ps4::install::{archive_address, archive_name};
use ps4::ledger::init_database;
use ps4::lists::{split_commas, split_text, string_to_vec, vec_to_string};
use ps4::records::{
    InstallTransaction, InstalledPS4Packages, Ledger, PS4Package, Repo, Source,
};
use ps4::text::{decimal_string, replace_all, starts_with_char, strip, strip_tail};

fn o(text: &str) -> String {
    text.to_string()
}

fn all(items: &[&str]) -> Vec<String> {
    items.iter().map(|i| o(i)).collect()
}

fn package(name: &str, version: &str, upstream: i32) -> PS4Package {
    PS4Package {
        name: o(name),
        version: o(version),
        upstream,
        description: o(""),
        groups: o(""),
        url: o(""),
        license: o(""),
        depends: o(""),
        optional_depends: o(""),
        provides: o(""),
        conflicts: o(""),
        replaces: o(""),
        sha512sum: o(""),
    }
}

fn installed(name: &str, version: &str, upstream: i32, source: &str) -> InstalledPS4Packages {
    InstalledPS4Packages {
        name: o(name),
        groups: vec![],
        source: o(source),
        version: o(version),
        upstream,
        installed_files: vec![],
        provides: vec![],
        conflicts: vec![],
        dependencies: vec![],
    }
}

fn config() -> Config {
    Config {
        architecture: o("\"x86_64\""),
        version: o("\\\"4\\\""),
        codename: o("jaguar"),
        disname: o("\"JaguarLinux\""),
        colour: true,
        progressbar: false,
        repos: vec![
            RepoNode { name: o("core"), active: true, url: None },
            RepoNode { name: o("testing"), active: false, url: None },
            RepoNode { name: o("mine"), active: true, url: Some(o("http://host/mine")) },
        ],
    }
}

#[test]
fn vec_to_string_joins_with_commas() {
    assert_eq!(vec_to_string(&all(&["a", "b", "c"])), o("a,b,c"));
    assert_eq!(vec_to_string(&all(&["only"])), o("only"));
    assert_eq!(vec_to_string(&vec![]), o(""));
    assert_eq!(vec_to_string(&all(&["", ""])), o(","));
}

#[test]
fn string_to_vec_splits_at_commas() {
    assert_eq!(string_to_vec(o("a,b,c")), all(&["a", "b", "c"]));
    assert_eq!(string_to_vec(o("only")), all(&["only"]));
    assert_eq!(string_to_vec(o("")), Vec::<String>::new());
    assert_eq!(string_to_vec(o("a,,b,")), all(&["a", "", "b", ""]));
    assert_eq!(split_commas(&o("")), all(&[""]));
    assert_eq!(split_text("x\ny\n", '\n'), all(&["x", "y", ""]));
    assert_eq!(split_text("h\u{e9}llo w\u{f6}rld", ' '), all(&["h\u{e9}llo", "w\u{f6}rld"]));
}

#[test]
fn stored_list_survives_the_round_trip() {
    for text in ["", "a", "a,b", ",", "a,,b", "libc,zlib,openssl"] {
        assert_eq!(vec_to_string(&string_to_vec(o(text))), o(text));
    }
}

#[test]
fn replace_all_fills_every_token() {
    assert_eq!(replace_all("a/$repo/b/$repo", "$repo", "core"), o("a/core/b/core"));
    assert_eq!(replace_all("$repo", "$repo", ""), o(""));
    assert_eq!(replace_all("aaa", "aa", "b"), o("ba"));
    assert_eq!(replace_all("abc", "", "x"), o("abc"));
    assert_eq!(replace_all("ab", "abc", "x"), o("ab"));
    assert_eq!(replace_all("", "a", "x"), o(""));
    assert_eq!(replace_all("$rep$repo", "$repo", "r"), o("$repr"));
}

#[test]
fn strip_takes_white_space_or_quotes_off_the_ends() {
    assert_eq!(strip("  a b \t\r\n", false), "a b");
    assert_eq!(strip(" \n ", false), "");
    assert_eq!(strip("", false), "");
    assert_eq!(strip("\"x86\\\"", true), "x86");
    assert_eq!(strip(" \"x\" ", true), " \"x\" ");
    assert_eq!(strip_tail("  a \n", false), "  a");
    assert_eq!(strip("\u{b}\u{a0}a\u{2003}b\u{85}\u{c}", false), "a\u{2003}b");
    assert_eq!(strip("\u{200b}a\u{200b}", false), "\u{200b}a\u{200b}");
    for text in [" a ", "\u{1680}x\u{2028}\u{2029}", "\u{202f}\u{205f}", "a\u{3000}", "\u{feff}a"] {
        assert_eq!(strip(text, false), text.trim());
        assert_eq!(strip_tail(text, false), text.trim_end());
    }
    assert!(starts_with_char("#x", '#'));
    assert!(!starts_with_char("", '#'));
    assert!(!starts_with_char(" #", '#'));
}

#[test]
fn decimal_string_writes_every_number() {
    assert_eq!(decimal_string(0), o("0"));
    assert_eq!(decimal_string(7), o("7"));
    assert_eq!(decimal_string(10), o("10"));
    assert_eq!(decimal_string(1234567890), o("1234567890"));
    assert_eq!(decimal_string(-5), o("-5"));
    assert_eq!(decimal_string(i32::MAX), o("2147483647"));
    assert_eq!(decimal_string(i32::MIN), o("-2147483648"));
}

#[test]
fn archive_is_named_by_name_version_and_epoch() {
    let p = package("foo", "1.2.3", 4);
    assert_eq!(archive_name(&p), o("foo-1.2.3-4.tar.gz"));
    assert_eq!(
        archive_address(&o("https://m.example/$repo/x86_64"), &o("core"), &p),
        o("https://m.example/core/x86_64/foo-1.2.3-4.tar.gz")
    );
}

#[test]
fn sources_are_the_active_repositories() {
    assert_eq!(
        get_sources(&config()),
        vec![
            Source { name: o("core"), url: None },
            Source { name: o("mine"), url: Some(o("http://host/mine")) },
        ]
    );
    let mut none = config();
    none.repos.clear();
    assert!(get_sources(&none).is_empty());
}

#[test]
fn config_entries_are_served_as_text() {
    let c = config();
    assert_eq!(get_config_entry(ConfigEntries::Disname, None, None, &c), Ok(o("\"JaguarLinux\"")));
    assert_eq!(get_config_entry(ConfigEntries::Codename, None, None, &c), Ok(o("jaguar")));
    assert_eq!(get_config_entry(ConfigEntries::Version, None, None, &c), Ok(o("\\\"4\\\"")));
    assert_eq!(get_config_entry(ConfigEntries::Architecture, None, None, &c), Ok(o("\"x86_64\"")));
    assert_eq!(get_config_entry(ConfigEntries::_Colour, None, None, &c), Ok(o("true")));
    assert_eq!(get_config_entry(ConfigEntries::_Progressbar, None, None, &c), Ok(o("false")));
    assert_eq!(
        get_config_entry(ConfigEntries::_Repos, Some(o("core")), Some(RepoEntries::_Name), &c),
        Err(ConfigError)
    );
    assert_eq!(
        get_config_entry(ConfigEntries::_Repos, Some(o("core")), Some(RepoEntries::_Active), &c),
        Err(ConfigError)
    );
    assert_eq!(
        get_config_entry(ConfigEntries::_Repos, None, Some(RepoEntries::_Url), &c),
        Err(ConfigError)
    );
    assert_eq!(get_config_entry(ConfigEntries::_Repos, None, None, &c), Err(ConfigError));
    assert_eq!(
        get_config_entry(ConfigEntries::_Repos, Some(o("core")), None, &c),
        Err(ConfigError)
    );
}

#[test]
fn mirror_list_skips_comments_and_fills_tokens() {
    let raw = o("# mirrors\n\nhttps://a.example/$dis_name/$codename/$version/$arch/$repo\n  \n  http://b.example/$repo/$arch  \r\n#http://c.example\n");
    assert_eq!(
        load_mirrors(&raw, &config()),
        all(&["https://a.example/JaguarLinux/jaguar/4/x86_64/$repo", "http://b.example/$repo/x86_64"])
    );
    assert!(load_mirrors(&o(""), &config()).is_empty());
    let spaced = o("\u{a0}\u{b}http://c.example/$repo\u{3000}\u{85}\n\u{2003}\u{c}\n\u{2028}# note");
    assert_eq!(load_mirrors(&spaced, &config()), all(&["http://c.example/$repo"]));
}

#[test]
fn queues_are_shown_on_one_line() {
    let queue = vec![
        InstallTransaction { package: package("foo", "1.0", 0), source: Source { name: o("core"), url: None } },
        InstallTransaction { package: package("bar", "2.1", 3), source: Source { name: o("core"), url: None } },
    ];
    assert_eq!(display_installing_packages(&queue), o("foo<-1.0<-0 bar<-2.1<-3 "));
    assert_eq!(display_installing_packages(&vec![]), o(""));
    let rows = vec![installed("foo", "1.0", 0, "core"), installed("bar", "2.1", -1, "local")];
    assert_eq!(display_removing_packages(&rows), o("foo->1.0->0 bar->2.1->-1 "));
}

#[test]
fn list_shows_name_version_epoch_and_repository() {
    let ledger = Ledger {
        packages: vec![
            installed("foo", "1.0", 2, "core,https://m/core/foo-1.0-2.tar.gz"),
            installed("bar", "0.3", 0, "local"),
        ],
        repos: vec![],
    };
    assert_eq!(list(&ledger), all(&["foo 1.0-2 core", "bar 0.3-0 local"]));
}

#[test]
fn new_ledger_holds_the_package_manager() {
    let ledger = init_database(o("0.4.1"));
    assert!(ledger.repos.is_empty());
    assert_eq!(ledger.packages.len(), 1);
    let me = &ledger.packages[0];
    assert_eq!(me.name, o("ps4"));
    assert_eq!(me.groups, all(&["core"]));
    assert_eq!(me.source, o("core"));
    assert_eq!(me.version, o("0.4.1"));
    assert_eq!(me.upstream, 0);
    assert!(me.installed_files.is_empty());
    assert_eq!(me.provides, all(&["ps4"]));
    assert!(me.conflicts.is_empty());
    assert_eq!(me.dependencies, all(&["curl", "sqlite"]));
}

#[test]
fn updates_follow_epoch_then_version() {
    let repos = vec![
        Repo {
            name: o("core"),
            packages: vec![
                package("same", "1.0", 0),
                package("newer", "1.1", 0),
                package("epoch", "0.1", 1),
                package("behind", "9.0", 0),
                package("manual", "9.0", 9),
            ],
        },
        Repo { name: o("extra"), packages: vec![package("other", "2.0", 0)] },
    ];
    let ledger = Ledger {
        packages: vec![
            installed("same", "1.0", 0, "core"),
            installed("newer", "1.0", 0, "core,https://m/core/newer-1.0-0.tar.gz"),
            installed("epoch", "5.0", 0, "core"),
            installed("behind", "1.0", 1, "core"),
            installed("manual", "1.0", 0, "local"),
            installed("other", "1.0", 0, "core"),
            installed("gone", "1.0", 0, "nowhere"),
        ],
        repos: vec![],
    };
    assert_eq!(find_updates(&ledger, &repos), all(&["newer", "epoch"]));
    assert!(find_updates(&Ledger { packages: vec![], repos: vec![] }, &repos).is_empty());
}

#[test]
fn only_y_and_yes_are_a_yes() {
    for yes in ["y", "Y", "yes", "YES", "Yes", " y\n", "\tyEs \r\n"] {
        assert!(is_yes(yes));
    }
    for no in ["", "n", "no", "No", "NO", "yes please", "ye", "yy", "1", "\n"] {
        assert!(!is_yes(no));
    }
    for space in [
        '\u{9}', '\u{a}', '\u{b}', '\u{c}', '\u{d}', '\u{20}', '\u{85}', '\u{a0}', '\u{1680}',
        '\u{2000}', '\u{2005}', '\u{200a}', '\u{2028}', '\u{2029}', '\u{202f}', '\u{205f}',
        '\u{3000}',
    ] {
        assert!(is_yes(&format!("y{}", space)));
        assert!(is_yes(&format!("{}Yes{}", space, space)));
        assert!(!is_yes(&format!("y{}es", space)));
    }
    for other in ['\u{8}', '\u{e}', '\u{1f}', '\u{200b}', '\u{2060}', '\u{feff}', '\u{180e}'] {
        assert!(!is_yes(&format!("y{}", other)));
        assert!(!is_yes(&format!("{}yes", other)));
    }
    for line in ["", "y", " Yes\n", "y\u{b}", "\u{a0}YES\u{3000}", "No", "no", "n", "y\u{200b}", "yess"] {
        let lowered = line.trim().to_lowercase();
        assert_eq!(is_yes(line), lowered == "y" || lowered == "yes");
    }
}

#[test]
fn lock_marker_is_asked_about_before_it_is_cleared() {
    assert_eq!(lock_exists(false, None), LockDecision::Acquire);
    assert_eq!(lock_exists(false, Some(false)), LockDecision::Acquire);
    assert_eq!(lock_exists(true, None), LockDecision::AskOverride);
    assert_eq!(lock_exists(true, Some(true)), LockDecision::ClearAndAcquire);
    assert_eq!(lock_exists(true, Some(false)), LockDecision::AlreadyRunning);
}

#[test]
fn each_command_word_is_recognised() {
    assert_eq!(parse_command("-h"), Command::Help);
    assert_eq!(parse_command("--help"), Command::Help);
    assert_eq!(parse_command("s"), Command::Sync);
    assert_eq!(parse_command("--sync"), Command::Sync);
    assert_eq!(parse_command("u"), Command::Upgrade);
    assert_eq!(parse_command("--upgrade"), Command::Upgrade);
    assert_eq!(parse_command("i"), Command::Install);
    assert_eq!(parse_command("--install"), Command::Install);
    assert_eq!(parse_command("--local"), Command::LocalInstall);
    assert_eq!(parse_command("gi"), Command::GroupInstall);
    assert_eq!(parse_command("--groupinstall"), Command::GroupInstall);
    assert_eq!(parse_command("remove"), Command::Remove);
    assert_eq!(parse_command("--uninstall"), Command::Remove);
    assert_eq!(parse_command("--list"), Command::List);
    assert_eq!(parse_command("-U"), Command::Invalid);
    assert_eq!(parse_command(""), Command::Invalid);
    assert_eq!(parse_command("install"), Command::Invalid);
}

#[test]
fn answer_agrees_with_trimming_and_lower_casing_for_every_character() {
    for c in '\u{0}'..=char::MAX {
        let alone = c.to_string();
        let lowered = alone.trim().to_lowercase();
        assert_eq!(is_yes(&alone), lowered == "y" || lowered == "yes");
        let behind = format!("y{}", c);
        let lowered = behind.trim().to_lowercase();
        assert_eq!(is_yes(&behind), lowered == "y" || lowered == "yes");
        for word in [format!("{}es", c), format!("y{}s", c), format!("ye{}", c)] {
            let lowered = word.trim().to_lowercase();
            assert_eq!(is_yes(&word), lowered == "y" || lowered == "yes");
        }
    }
}

#[test]
fn strip_agrees_with_trimming_for_every_character() {
    for c in '\u{0}'..=char::MAX {
        let text = format!("{}a{}", c, c);
        assert_eq!(strip(&text, false), text.trim());
    }
}
