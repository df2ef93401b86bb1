use sortfs::config::{parse_max_depth, pool_size, worker_count, Options, WalkConfig, MAX_WORKERS};
use sortfs::entry::{resolve_timestamp, Entry, FileKind, TimeAttribute, TimedEntry};
use sortfs::render::{needs_trailing_slash, plain_line};

fn options() -> Options {
    Options {
        dirs_only: false,
        full_path: false,
        color: false,
        prefix_target: false,
        max_depth: None,
        sort_by: TimeAttribute::Modified,
    }
}

fn timed(path: &str, kind: FileKind, depth: usize, timestamp: u128) -> TimedEntry {
    TimedEntry::new(Entry::new(path.as_bytes().to_vec(), kind, depth), timestamp)
}

fn config(target: &str, fragment: &str, options: Options) -> WalkConfig {
    WalkConfig::new(&target.as_bytes().to_vec(), None, fragment.as_bytes().to_vec(), options)
        .unwrap()
}

fn output(cfg: &WalkConfig, found: Vec<TimedEntry>) -> Vec<String> {
    let listing = cfg.collect(found);
    cfg.render(&listing).into_iter().map(|l| String::from_utf8(l).unwrap()).collect()
}

fn sample_tree() -> Vec<TimedEntry> {
    vec![
        timed("root", FileKind::Dir, 0, 300),
        timed("root/x.txt", FileKind::File, 1, 100),
        timed("root/y", FileKind::Dir, 1, 200),
        timed("root/y/z.txt", FileKind::File, 2, 50),
    ]
}

#[test]
fn default_listing_is_newest_first() {
    let cfg = config("root", "", options());
    assert_eq!(output(&cfg, sample_tree()), vec!["y/\n", "x.txt\n", "y/z.txt\n"]);
}

#[test]
fn trailing_separators_of_target_are_ignored() {
    let cfg = config("root//", "", options());
    assert_eq!(cfg.target, b"root".to_vec());
    assert_eq!(output(&cfg, sample_tree()), vec!["y/\n", "x.txt\n", "y/z.txt\n"]);
}

#[test]
fn dirs_only_lists_directories() {
    let mut o = options();
    o.dirs_only = true;
    let cfg = config("root", "", o);
    assert_eq!(output(&cfg, sample_tree()), vec!["y/\n"]);
}

#[test]
fn full_path_shows_canonical_paths() {
    let mut o = options();
    o.full_path = true;
    let cfg = WalkConfig::new(&b"root".to_vec(), Some(b"/srv/root".to_vec()), Vec::new(), o)
        .unwrap();
    let found = vec![
        timed("/srv/root", FileKind::Dir, 0, 10),
        timed("/srv/root/sub", FileKind::Dir, 1, 20),
        timed("/srv/root/sub/file", FileKind::File, 2, 30),
    ];
    assert_eq!(output(&cfg, found), vec!["/srv/root/sub/file\n", "/srv/root/sub/\n", "/srv/root/\n"]);
}

#[test]
fn full_path_without_canonical_form_is_refused() {
    let mut o = options();
    o.full_path = true;
    assert!(WalkConfig::new(&b"root".to_vec(), None, Vec::new(), o).is_none());
}

#[test]
fn full_path_wins_over_prefix_target() {
    let mut o = options();
    o.full_path = true;
    o.prefix_target = true;
    let cfg = WalkConfig::new(&b"r".to_vec(), Some(b"/a/r".to_vec()), Vec::new(), o).unwrap();
    assert!(!cfg.prefix_target);
    assert_eq!(output(&cfg, vec![timed("/a/r/f", FileKind::File, 1, 1)]), vec!["/a/r/f\n"]);
}

#[test]
fn prefix_target_keeps_the_walk_path() {
    let mut o = options();
    o.prefix_target = true;
    let cfg = config("foo/", "", o);
    let found = vec![timed("foo", FileKind::Dir, 0, 5), timed("foo/a", FileKind::File, 1, 1)];
    assert_eq!(output(&cfg, found), vec!["foo/\n", "foo/a\n"]);
}

#[test]
fn git_components_are_never_listed() {
    let cfg = config("root", "", options());
    let found = vec![
        timed("root/.git", FileKind::Dir, 1, 9),
        timed("root/.git/config", FileKind::File, 2, 8),
        timed("root/a/.git", FileKind::File, 2, 7),
        timed("root/.github", FileKind::Dir, 1, 6),
        timed("root/x.git", FileKind::File, 1, 5),
    ];
    assert_eq!(output(&cfg, found), vec![".github/\n", "x.git\n"]);
}

#[test]
fn depth_cutoff_leaves_out_deeper_entries() {
    let mut o = options();
    o.max_depth = Some(1);
    let cfg = config("root", "", o);
    assert_eq!(output(&cfg, sample_tree()), vec!["y/\n", "x.txt\n"]);
}

#[test]
fn completion_fragment_filters_by_prefix() {
    let cfg = config("/a/b", "c", options());
    assert_eq!(cfg.leftover, b"/a/b/c".to_vec());
    let found = vec![
        timed("/a/b", FileKind::Dir, 0, 50),
        timed("/a/b/cat", FileKind::File, 1, 40),
        timed("/a/b/cx", FileKind::Dir, 1, 30),
        timed("/a/b/cx/inner", FileKind::File, 2, 20),
        timed("/a/b/dog", FileKind::File, 1, 10),
    ];
    let listing = cfg.collect(found);
    let paths: Vec<Vec<u8>> = listing.iter().map(|e| e.entry.path.clone()).collect();
    assert_eq!(paths, vec![b"/a/b/cat".to_vec(), b"/a/b/cx".to_vec(), b"/a/b/cx/inner".to_vec()]);
    assert_eq!(cfg.render(&listing).len(), 3);
}

#[test]
fn root_is_dropped_in_completion_mode() {
    let cfg = config("/a/b", "c", options());
    assert!(!cfg.accept(&Entry::new(b"/a/b".to_vec(), FileKind::Dir, 0)));
    assert!(cfg.accept(&Entry::new(b"/a/b/c".to_vec(), FileKind::Dir, 1)));
}

#[test]
fn entries_outside_the_tree_are_rejected() {
    let cfg = config("root", "", options());
    assert!(cfg.accept(&Entry::new(b"root".to_vec(), FileKind::Dir, 0)));
    assert!(!cfg.accept(&Entry::new(b"rootless/a".to_vec(), FileKind::File, 1)));
    assert!(!cfg.accept(&Entry::new(b"other/a".to_vec(), FileKind::File, 1)));
}

#[test]
fn equal_times_sort_by_path() {
    let cfg = config("r", "", options());
    let found = vec![
        timed("r/b", FileKind::File, 1, 7),
        timed("r/a", FileKind::File, 1, 7),
        timed("r/ab", FileKind::File, 1, 7),
        timed("r/z", FileKind::File, 1, 9),
    ];
    assert_eq!(output(&cfg, found), vec!["z\n", "a\n", "ab\n", "b\n"]);
}

#[test]
fn order_of_arrival_does_not_matter() {
    let cfg = config("root", "", options());
    let mut reversed = sample_tree();
    reversed.reverse();
    assert_eq!(output(&cfg, sample_tree()), output(&cfg, reversed));
}

#[test]
fn large_listing_is_sorted() {
    let cfg = config("d", "", options());
    let mut found = Vec::new();
    for i in 0..500u128 {
        let t = (i * 7919) % 503;
        found.push(timed(&format!("d/f{}", i), FileKind::File, 1, t));
    }
    let listing = cfg.collect(found);
    assert_eq!(listing.len(), 500);
    for w in listing.windows(2) {
        assert!(w[0].timestamp > w[1].timestamp
            || (w[0].timestamp == w[1].timestamp && w[0].entry.path <= w[1].entry.path));
    }
}

#[test]
fn trailing_slash_rules() {
    assert!(needs_trailing_slash(&b"dir".to_vec(), true));
    assert!(!needs_trailing_slash(&b"file".to_vec(), false));
    assert!(!needs_trailing_slash(&b"/".to_vec(), true));
    assert_eq!(plain_line(&b"/".to_vec(), true), b"/\n".to_vec());
    assert_eq!(plain_line(&b"d".to_vec(), true), b"d/\n".to_vec());
    assert_eq!(plain_line(&b"f".to_vec(), false), b"f\n".to_vec());
}

#[test]
fn depth_text_parsing() {
    assert_eq!(parse_max_depth(&b"3".to_vec()), Some(3));
    assert_eq!(parse_max_depth(&b"+12".to_vec()), Some(12));
    assert_eq!(parse_max_depth(&b"0".to_vec()), Some(0));
    assert_eq!(parse_max_depth(&b"".to_vec()), None);
    assert_eq!(parse_max_depth(&b"+".to_vec()), None);
    assert_eq!(parse_max_depth(&b"-1".to_vec()), None);
    assert_eq!(parse_max_depth(&b"4x".to_vec()), None);
    assert_eq!(parse_max_depth(&usize::MAX.to_string().into_bytes()), Some(usize::MAX));
    assert_eq!(parse_max_depth(&b"99999999999999999999999".to_vec()), None);
}

#[test]
fn pool_is_bounded() {
    assert_eq!(pool_size(0), 1);
    assert_eq!(pool_size(8), 8);
    assert_eq!(pool_size(MAX_WORKERS + 1), MAX_WORKERS);
    let n = worker_count();
    assert!(n >= 1 && n <= MAX_WORKERS);
}

#[test]
fn fallback_timestamp_is_the_epoch() {
    assert_eq!(resolve_timestamp(TimeAttribute::Modified, Some(5), Some(9)), 5);
    assert_eq!(resolve_timestamp(TimeAttribute::Created, Some(5), Some(9)), 9);
    assert_eq!(resolve_timestamp(TimeAttribute::Created, Some(5), None), 0);
    assert_eq!(resolve_timestamp(TimeAttribute::Modified, None, Some(9)), 0);
}
