//! The configured blocklist sources: where they live, what they hold, and
//! which of them a load reads.

use vstd::prelude::*;
use crate::domains::{domain_entries, parse_domains};
use crate::text::views;

verus! {

/// The blocklist part of the daemon's configuration.
pub struct BlocklistConfig {
    /// The list that the dashboard adds domains to and removes them from.
    pub custom_list: String,
    /// Further local list files.
    pub local_lists: Vec<String>,
    /// Remote list URLs; their download is cached next to the custom list.
    pub remote_lists: Vec<String>,
}

/// The parts of the daemon's configuration that the blocklist sources and
/// the dashboard read.
pub struct Config {
    pub blocklist: BlocklistConfig,
}

/// Name of what `Path::parent` returns for the path written `path`, written
/// back as text.
pub uninterp spec fn path_parent(path: Seq<char>) -> Option<Seq<char>>;

/// Name of what `Path::join` returns for `base` joined with `name`, written
/// back as text.
pub uninterp spec fn path_join(base: Seq<char>, name: Seq<char>) -> Seq<char>;

/// Calls `std::path::Path::parent` on the path written `path`.
/// Claims: the result is `path_parent(path)`; the empty path has no parent,
/// and a relative path of one component (non-empty, without `/`) has the
/// empty parent, as the documentation of `Path::parent` says.
#[verifier::external_body]
fn parent_of(path: &str) -> (res: Option<String>)
    ensures
        match res {
            Some(p) => path_parent(path@) == Some(p@),
            None => path_parent(path@) == None::<Seq<char>>,
        },
        path@.len() == 0 ==> res is None,
        path@.len() > 0 && !path@.contains('/') ==> res is Some && res->0@ == Seq::<char>::empty(),
{
    match std::path::Path::new(path).parent() {
        Some(p) => Some(p.to_string_lossy().into_owned()),
        None => None,
    }
}

/// Calls `std::path::Path::join` on `base` and `name`.
/// Claims: the result is `path_join(base, name)`, and an absolute `name`
/// replaces `base`, as the documentation of `PathBuf::push` says. Where a
/// separator goes between the two is shown there only by examples and is
/// left unsaid.
#[verifier::external_body]
fn join_path(base: &str, name: &str) -> (res: String)
    ensures
        res@ == path_join(base@, name@),
        name@.len() > 0 && name@[0] == '/' ==> res@ == name@,
{
    std::path::Path::new(base).join(name).to_string_lossy().into_owned()
}

/// The text of an optional string.
pub open spec fn opt_view(o: Option<String>) -> Option<Seq<char>> {
    match o {
        Some(s) => Some(s@),
        None => None,
    }
}

/// The directory that holds the remote cache, given the parent directory of
/// the custom list: that parent, or `/tmp` where the custom list has none.
pub open spec fn cache_dir(parent: Option<Seq<char>>) -> Seq<char> {
    match parent {
        Some(p) => p,
        None => "/tmp"@,
    }
}

/// Where the downloaded remote lists are cached, for a custom list at
/// `custom`.
pub open spec fn cache_path_for(custom: Seq<char>) -> Seq<char> {
    path_join(cache_dir(path_parent(custom)), "remote-blocklist-cache.txt"@)
}

/// The directory of the remote cache, given what `Path::parent` gave for
/// the custom list.
pub fn cache_dir_or_default(parent: Option<String>) -> (dir: String)
    ensures
        dir@ == cache_dir(opt_view(parent)),
{
    match parent {
        Some(p) => p,
        None => String::from_str("/tmp"),
    }
}

/// Path of the cache file where downloaded remote lists are stored (same
/// directory as the custom list).
pub fn remote_cache_path(config: &Config) -> (path: String)
    ensures
        path@ == cache_path_for(config.blocklist.custom_list@),
        config.blocklist.custom_list@.len() == 0 ==> path@ == path_join(
            "/tmp"@,
            "remote-blocklist-cache.txt"@,
        ),
        config.blocklist.custom_list@.len() > 0 && !config.blocklist.custom_list@.contains('/')
            ==> path@ == path_join(Seq::<char>::empty(), "remote-blocklist-cache.txt"@),
{
    let parent = parent_of(config.blocklist.custom_list.as_str());
    let dir = cache_dir_or_default(parent);
    join_path(dir.as_str(), "remote-blocklist-cache.txt")
}

/// The kind of a blocklist source.
#[derive(Clone, Copy, Debug, PartialEq, Eq, Structural)]
pub enum SourceLabel {
    Custom,
    Local,
    RemoteCache,
}

/// The text that names a kind of source on the dashboard.
pub open spec fn label_text(l: SourceLabel) -> Seq<char> {
    match l {
        SourceLabel::Custom => "custom"@,
        SourceLabel::Local => "local"@,
        SourceLabel::RemoteCache => "remote cache"@,
    }
}

impl SourceLabel {
    /// The text that names this kind of source on the dashboard.
    pub fn as_str(&self) -> (s: &'static str)
        ensures
            s@ == label_text(*self),
    {
        match self {
            SourceLabel::Custom => "custom",
            SourceLabel::Local => "local",
            SourceLabel::RemoteCache => "remote cache",
        }
    }
}

/// How many sources a configuration has: the custom list, each local list,
/// and the remote cache.
pub open spec fn source_count(cfg: Config) -> int {
    cfg.blocklist.local_lists@.len() + 2int
}

/// The `i`-th source of a configuration: the custom list first, then the
/// local lists in their order, then the remote cache.
pub open spec fn source_at(cfg: Config, i: int) -> (SourceLabel, Seq<char>) {
    if i == 0 {
        (SourceLabel::Custom, cfg.blocklist.custom_list@)
    } else if i <= cfg.blocklist.local_lists@.len() {
        (SourceLabel::Local, cfg.blocklist.local_lists@[i - 1]@)
    } else {
        (SourceLabel::RemoteCache, cache_path_for(cfg.blocklist.custom_list@))
    }
}

/// All configured sources, each with its path, in the order in which they
/// are summarized and loaded.
pub fn source_paths(config: &Config) -> (res: Vec<(SourceLabel, String)>)
    ensures
        res@.len() == source_count(*config),
        forall|i: int|
            0 <= i < res@.len() ==> (#[trigger] res@[i]).0 == source_at(*config, i).0 && res@[i].1@
                == source_at(*config, i).1,
{
    let mut res: Vec<(SourceLabel, String)> = Vec::new();
    res.push((SourceLabel::Custom, config.blocklist.custom_list.clone()));
    let locals = &config.blocklist.local_lists;
    let mut k: usize = 0;
    while k < locals.len()
        invariant
            k <= locals@.len(),
            locals == config.blocklist.local_lists,
            res@.len() == k + 1,
            forall|i: int|
                0 <= i < res@.len() ==> (#[trigger] res@[i]).0 == source_at(*config, i).0
                    && res@[i].1@ == source_at(*config, i).1,
        decreases locals@.len() - k,
    {
        res.push((SourceLabel::Local, locals[k].clone()));
        k = k + 1;
    }
    res.push((SourceLabel::RemoteCache, remote_cache_path(config)));
    res
}

/// A blocklist source that was inspected on disk.
#[derive(Debug, Clone)]
pub struct SourceSummary {
    pub label: SourceLabel,
    pub path: String,
    /// Number of domain entries, or None if the file is missing
    pub domains: Option<usize>,
}

/// The entry count of the `i`-th source, given the texts read from the
/// sources (`None` where a file was missing or could not be read).
pub open spec fn count_at(contents: Seq<Option<String>>, i: int) -> Option<usize> {
    if 0 <= i < contents.len() {
        match contents[i] {
            Some(c) => Some(domain_entries(c@).len() as usize),
            None => None,
        }
    } else {
        None
    }
}

/// Summaries of all configured sources, given the text read from each (in
/// the order of `source_paths`; `None`, or no entry, where the file is
/// missing or unreadable).
pub fn summarize_sources(config: &Config, contents: &Vec<Option<String>>) -> (res: Vec<
    SourceSummary,
>)
    ensures
        res@.len() == source_count(*config),
        forall|i: int|
            0 <= i < res@.len() ==> {
                &&& (#[trigger] res@[i]).label == source_at(*config, i).0
                &&& res@[i].path@ == source_at(*config, i).1
                &&& res@[i].domains == count_at(contents@, i)
            },
        forall|i: int|
            0 <= i < res@.len() && i < contents@.len() && (#[trigger] contents@[i]) is Some
                ==> res@[i].domains == Some(domain_entries(contents@[i]->0@).len() as usize),
        forall|i: int|
            0 <= i < res@.len() && (i >= contents@.len() || contents@[i] is None)
                ==> (#[trigger] res@[i]).domains is None,
{
    let paths = source_paths(config);
    let mut res: Vec<SourceSummary> = Vec::new();
    let mut k: usize = 0;
    while k < paths.len()
        invariant
            k <= paths@.len(),
            paths@.len() == source_count(*config),
            forall|i: int|
                0 <= i < paths@.len() ==> (#[trigger] paths@[i]).0 == source_at(*config, i).0
                    && paths@[i].1@ == source_at(*config, i).1,
            res@.len() == k,
            forall|i: int|
                0 <= i < k ==> {
                    &&& (#[trigger] res@[i]).label == source_at(*config, i).0
                    &&& res@[i].path@ == source_at(*config, i).1
                    &&& res@[i].domains == count_at(contents@, i)
                },
        decreases paths@.len() - k,
    {
        let domains = if k < contents.len() {
            match &contents[k] {
                Some(c) => {
                    let entries = parse_domains(c.as_str());
                    proof {
                        assert(views(entries@).len() == entries@.len());
                    }
                    Some(entries.len())
                },
                None => None,
            }
        } else {
            None
        };
        let (label, path) = (paths[k].0, paths[k].1.clone());
        res.push(SourceSummary { label, path, domains });
        k = k + 1;
    }
    res
}

/// What loading does with one summarized source.
#[derive(Debug, Clone)]
pub enum LoadStep {
    /// Read the file at this path and load its domains.
    Load(String),
    /// The custom list is missing: warn, with its path.
    MissingCustom(String),
    /// A local list is missing: warn, with its path.
    MissingLocal(String),
    /// A missing remote cache: nothing to do.
    Skip,
}

/// The step for one source: load it where it was found, warn where the
/// custom list or a local list is missing, and pass over a missing cache.
pub open spec fn step_for(s: SourceSummary) -> LoadStep {
    match s.domains {
        Some(_) => LoadStep::Load(s.path),
        None => match s.label {
            SourceLabel::Custom => LoadStep::MissingCustom(s.path),
            SourceLabel::Local => LoadStep::MissingLocal(s.path),
            SourceLabel::RemoteCache => LoadStep::Skip,
        },
    }
}

/// The steps of loading the summarized sources, one per source, in order.
pub fn load_plan(sources: &Vec<SourceSummary>) -> (plan: Vec<LoadStep>)
    ensures
        plan@.len() == sources@.len(),
        forall|i: int| 0 <= i < plan@.len() ==> #[trigger] plan@[i] == step_for(sources@[i]),
        forall|i: int|
            0 <= i < plan@.len() && (#[trigger] sources@[i]).domains is Some ==> plan@[i]
                == LoadStep::Load(sources@[i].path),
        forall|i: int|
            0 <= i < plan@.len() && (#[trigger] sources@[i]).domains is None ==> plan@[i] == (
            match sources@[i].label {
                SourceLabel::Custom => LoadStep::MissingCustom(sources@[i].path),
                SourceLabel::Local => LoadStep::MissingLocal(sources@[i].path),
                SourceLabel::RemoteCache => LoadStep::Skip,
            }),
{
    let mut plan: Vec<LoadStep> = Vec::new();
    let mut k: usize = 0;
    while k < sources.len()
        invariant
            k <= sources@.len(),
            plan@.len() == k,
            forall|i: int| 0 <= i < k ==> #[trigger] plan@[i] == step_for(sources@[i]),
        decreases sources@.len() - k,
    {
        let s = &sources[k];
        let step = match s.domains {
            Some(_) => LoadStep::Load(s.path.clone()),
            None => match s.label {
                SourceLabel::Custom => LoadStep::MissingCustom(s.path.clone()),
                SourceLabel::Local => LoadStep::MissingLocal(s.path.clone()),
                SourceLabel::RemoteCache => LoadStep::Skip,
            },
        };
        plan.push(step);
        k = k + 1;
    }
    plan
}

/// A source whose file was found is loaded from its path, whatever its
/// kind; a missing custom or local list is warned about with its path, and
/// a missing cache is passed over.
pub proof fn lemma_found_sources_load(s: SourceSummary)
    ensures
        s.domains is Some ==> step_for(s) == LoadStep::Load(s.path),
        s.domains is None && s.label == SourceLabel::Custom ==> step_for(s)
            == LoadStep::MissingCustom(s.path),
        s.domains is None && s.label == SourceLabel::Local ==> step_for(s) == LoadStep::MissingLocal(
            s.path,
        ),
        s.domains is None && s.label == SourceLabel::RemoteCache ==> step_for(s) == LoadStep::Skip,
{
}

/// The count reported for a source that was read is the number of domains
/// that parsing its text yields; a source that was not read has none.
pub proof fn lemma_count_is_parsed_length(contents: Seq<Option<String>>, i: int)
    ensures
        0 <= i < contents.len() && contents[i] is Some ==> count_at(contents, i) == Some(
            domain_entries(contents[i]->0@).len() as usize,
        ),
        !(0 <= i < contents.len() && contents[i] is Some) ==> count_at(contents, i) is None,
{
}

} // verus!
