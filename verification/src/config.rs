//! The configuration: distribution values, repositories and the mirror
//! list with its substitution tokens.

use vstd::prelude::*;
use vstd::string::*;
use crate::lists::{pieces, split_text, views};
use crate::records::Source;
use crate::text::{replace_all, replaced, starts_with_char, strip, stripped};

verus! {

/// The requested config entry was not found.
#[derive(Debug, PartialEq, Eq)]
pub struct ConfigError;

/// All possible config entries.
pub enum ConfigEntries {
    Disname,
    Codename,
    Version,
    Architecture,
    _Colour,
    _Progressbar,
    _Repos,
}

/// All possible repo config entries.
pub enum RepoEntries {
    _Name,
    _Active,
    _Url,
}

/// The configuration file's content.
pub struct Config {
    pub architecture: String,
    pub version: String,
    pub codename: String,
    pub disname: String,
    pub colour: bool,
    pub progressbar: bool,
    pub repos: Vec<RepoNode>,
}

/// One repository of the configuration.
pub struct RepoNode {
    pub name: String,
    pub active: bool,
    pub url: Option<String>,
}

/// How a flag is written.
pub open spec fn flag_text(flag: bool) -> Seq<char> {
    if flag {
        "true"@
    } else {
        "false"@
    }
}

fn flag_string(flag: bool) -> (r: String)
    ensures
        r@ == flag_text(flag),
{
    if flag {
        String::from_str("true")
    } else {
        String::from_str("false")
    }
}

/// The text of a config entry. A request for the repositories fails,
/// whatever repository and repository entry it names: the repositories are
/// had through `get_sources`.
pub fn get_config_entry(
    entry: ConfigEntries,
    repo: Option<String>,
    repo_entry: Option<RepoEntries>,
    config: &Config,
) -> (r: Result<String, ConfigError>)
    ensures
        r is Err <==> entry is _Repos,
        r is Ok ==> r->Ok_0@ == match entry {
            ConfigEntries::Disname => config.disname@,
            ConfigEntries::Codename => config.codename@,
            ConfigEntries::Version => config.version@,
            ConfigEntries::Architecture => config.architecture@,
            ConfigEntries::_Colour => flag_text(config.colour),
            ConfigEntries::_Progressbar => flag_text(config.progressbar),
            ConfigEntries::_Repos => Seq::<char>::empty(),
        },
{
    match entry {
        ConfigEntries::Disname => Ok(config.disname.clone()),
        ConfigEntries::Codename => Ok(config.codename.clone()),
        ConfigEntries::Version => Ok(config.version.clone()),
        ConfigEntries::Architecture => Ok(config.architecture.clone()),
        ConfigEntries::_Colour => Ok(flag_string(config.colour)),
        ConfigEntries::_Progressbar => Ok(flag_string(config.progressbar)),
        ConfigEntries::_Repos => Err(ConfigError),
    }
}

/// The source that a repository of the configuration stands for.
pub open spec fn source_of(node: RepoNode) -> Source {
    Source { name: node.name, url: node.url }
}

/// The sources of the active repositories, in configuration order.
pub open spec fn active_sources(repos: Seq<RepoNode>) -> Seq<Source>
    decreases repos.len(),
{
    if repos.len() == 0 {
        Seq::<Source>::empty()
    } else {
        let rest = active_sources(repos.drop_last());
        if repos.last().active {
            rest.push(source_of(repos.last()))
        } else {
            rest
        }
    }
}

/// Return sources in config: the active repositories, in their order.
pub fn get_sources(config: &Config) -> (r: Vec<Source>)
    ensures
        r@ == active_sources(config.repos@),
{
    let mut sources: Vec<Source> = Vec::new();
    let n = config.repos.len();
    let mut i: usize = 0;
    assert(config.repos@.take(0) =~= Seq::<RepoNode>::empty());
    while i < n
        invariant
            n == config.repos.len(),
            i <= n,
            sources@ == active_sources(config.repos@.take(i as int)),
        decreases n - i,
    {
        proof {
            assert(config.repos@.take(i + 1).drop_last() =~= config.repos@.take(i as int));
        }
        let node = &config.repos[i];
        if node.active {
            let url = match &node.url {
                Some(u) => Some(u.clone()),
                None => None,
            };
            sources.push(Source { name: node.name.clone(), url });
        }
        i = i + 1;
    }
    assert(config.repos@.take(n as int) =~= config.repos@);
    sources
}

/// A line of the mirror list names a mirror: white space at its ends aside,
/// it is not empty and does not start with `#`.
pub open spec fn is_mirror_line(line: Seq<char>) -> bool {
    let t = stripped(line, false);
    t.len() > 0 && t[0] != '#'
}

/// A mirror line with the tokens for architecture, distribution name,
/// codename and version filled in from the configuration, whose values are
/// taken without quotes and backslashes at their ends. `$repo` stays.
pub open spec fn filled(line: Seq<char>, config: Config) -> Seq<char> {
    replaced(
        replaced(
            replaced(
                replaced(stripped(line, false), "$arch"@, stripped(config.architecture@, true)),
                "$dis_name"@,
                stripped(config.disname@, true),
            ),
            "$codename"@,
            stripped(config.codename@, true),
        ),
        "$version"@,
        stripped(config.version@, true),
    )
}

/// The mirrors that a sequence of lines names, in order.
pub open spec fn mirrors_of(lines: Seq<Seq<char>>, config: Config) -> Seq<Seq<char>>
    decreases lines.len(),
{
    if lines.len() == 0 {
        Seq::<Seq<char>>::empty()
    } else {
        let rest = mirrors_of(lines.drop_last(), config);
        if is_mirror_line(lines.last()) {
            rest.push(filled(lines.last(), config))
        } else {
            rest
        }
    }
}

/// Load mirrors for repos from the text of the mirror list.
pub fn load_mirrors(raw_mirrors: &String, config: &Config) -> (r: Vec<String>)
    ensures
        views(r@) == mirrors_of(pieces(raw_mirrors@, '\n'), *config),
{
    let mut mirrors: Vec<String> = Vec::new();
    let lines = split_text(raw_mirrors.as_str(), '\n');
    let arch = strip(config.architecture.as_str(), true);
    let dis_name = strip(config.disname.as_str(), true);
    let codename = strip(config.codename.as_str(), true);
    let version = strip(config.version.as_str(), true);
    let n = lines.len();
    let mut i: usize = 0;
    assert(views(lines@).take(0) =~= Seq::<Seq<char>>::empty());
    assert(views(mirrors@) =~= Seq::<Seq<char>>::empty());
    while i < n
        invariant
            n == lines.len(),
            i <= n,
            arch@ == stripped(config.architecture@, true),
            dis_name@ == stripped(config.disname@, true),
            codename@ == stripped(config.codename@, true),
            version@ == stripped(config.version@, true),
            views(mirrors@) == mirrors_of(views(lines@).take(i as int), *config),
        decreases n - i,
    {
        proof {
            assert(views(lines@).take(i + 1).drop_last() =~= views(lines@).take(i as int));
        }
        let line = strip(lines[i].as_str(), false);
        let ghost before = views(mirrors@);
        if line.unicode_len() > 0 && !starts_with_char(line, '#') {
            let a = replace_all(line, "$arch", arch);
            let b = replace_all(a.as_str(), "$dis_name", dis_name);
            let c = replace_all(b.as_str(), "$codename", codename);
            let d = replace_all(c.as_str(), "$version", version);
            mirrors.push(d);
            assert(views(mirrors@) =~= before.push(filled(lines@[i as int]@, *config)));
        }
        i = i + 1;
    }
    assert(views(lines@).take(n as int) =~= views(lines@));
    mirrors
}

} // verus!
