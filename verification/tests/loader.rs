use skypier_blackhole::loader::{
    cache_dir_or_default, load_plan, remote_cache_path, source_paths, summarize_sources,
    BlocklistConfig, Config, LoadStep, SourceLabel, SourceSummary,
};

fn config(custom: &str, locals: &[&str]) -> Config {
    Config {
        blocklist: BlocklistConfig {
            custom_list: custom.to_string(),
            local_lists: locals.iter().map(|s| s.to_string()).collect(),
            remote_lists: vec!["https://example.org/list.txt".to_string()],
        },
    }
}

#[test]
fn remote_cache_sits_next_to_custom_list() {
    let cfg = config("/etc/skypier/custom.txt", &[]);
    assert_eq!(remote_cache_path(&cfg), "/etc/skypier/remote-blocklist-cache.txt");
}

#[test]
fn remote_cache_for_bare_file_name_is_relative() {
    let cfg = config("custom.txt", &[]);
    assert_eq!(remote_cache_path(&cfg), "remote-blocklist-cache.txt");
}

#[test]
fn remote_cache_without_parent_goes_to_tmp() {
    let cfg = config("", &[]);
    assert_eq!(remote_cache_path(&cfg), "/tmp/remote-blocklist-cache.txt");
    let cfg = config("/", &[]);
    assert_eq!(remote_cache_path(&cfg), "/tmp/remote-blocklist-cache.txt");
}

#[test]
fn cache_dir_defaults_to_tmp() {
    assert_eq!(cache_dir_or_default(None), "/tmp");
    assert_eq!(cache_dir_or_default(Some("/var/lib".to_string())), "/var/lib");
}

#[test]
fn labels_read_as_on_the_dashboard() {
    assert_eq!(SourceLabel::Custom.as_str(), "custom");
    assert_eq!(SourceLabel::Local.as_str(), "local");
    assert_eq!(SourceLabel::RemoteCache.as_str(), "remote cache");
}

#[test]
fn sources_are_custom_then_locals_then_cache() {
    let cfg = config("/etc/b/custom.txt", &["/etc/b/a.txt", "/etc/b/b.txt"]);
    let paths = source_paths(&cfg);
    assert_eq!(
        paths,
        vec![
            (SourceLabel::Custom, "/etc/b/custom.txt".to_string()),
            (SourceLabel::Local, "/etc/b/a.txt".to_string()),
            (SourceLabel::Local, "/etc/b/b.txt".to_string()),
            (SourceLabel::RemoteCache, "/etc/b/remote-blocklist-cache.txt".to_string()),
        ]
    );
}

#[test]
fn summaries_count_the_domains_read() {
    let cfg = config("/etc/b/custom.txt", &["/etc/b/a.txt", "/etc/b/b.txt"]);
    let contents = vec![
        Some("a.com\nb.com\n".to_string()),
        None,
        Some("# header\n\nc.com\n".to_string()),
        Some(String::new()),
    ];
    let sums = summarize_sources(&cfg, &contents);
    assert_eq!(sums.len(), 4);
    let counts: Vec<Option<usize>> = sums.iter().map(|s| s.domains).collect();
    assert_eq!(counts, vec![Some(2), None, Some(1), Some(0)]);
    assert_eq!(sums[0].label, SourceLabel::Custom);
    assert_eq!(sums[3].label, SourceLabel::RemoteCache);
    assert_eq!(sums[3].path, "/etc/b/remote-blocklist-cache.txt");
}

#[test]
fn summaries_without_contents_are_missing() {
    let cfg = config("/etc/b/custom.txt", &["/etc/b/a.txt"]);
    let sums = summarize_sources(&cfg, &Vec::new());
    assert_eq!(sums.len(), 3);
    assert!(sums.iter().all(|s| s.domains.is_none()));
}

fn summary(label: SourceLabel, path: &str, domains: Option<usize>) -> SourceSummary {
    SourceSummary { label, path: path.to_string(), domains }
}

#[test]
fn plan_loads_found_files_and_warns_for_missing_lists() {
    let sums = vec![
        summary(SourceLabel::Custom, "/c", None),
        summary(SourceLabel::Local, "/l1", Some(3)),
        summary(SourceLabel::Local, "/l2", None),
        summary(SourceLabel::RemoteCache, "/r", None),
        summary(SourceLabel::RemoteCache, "/r2", Some(0)),
    ];
    let plan = load_plan(&sums);
    let rendered: Vec<String> = plan
        .iter()
        .map(|s| match s {
            LoadStep::Load(p) => format!("load {}", p),
            LoadStep::MissingCustom(p) => format!("missing custom {}", p),
            LoadStep::MissingLocal(p) => format!("missing local {}", p),
            LoadStep::Skip => "skip".to_string(),
        })
        .collect();
    assert_eq!(
        rendered,
        vec!["missing custom /c", "load /l1", "missing local /l2", "skip", "load /r2"]
    );
}
