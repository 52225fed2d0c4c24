use nomino::natural::SortOrder;
use nomino::rename::{Action, RenameOptions, Renamer};
use nomino::source::{
    map_file_bytes, match_entry, read_source, sequence_pairs, traversal_depths, Order, Source,
};
use nomino::template::Formatter;
use std::collections::BTreeMap;

const INPUTS: [&str; 5] = [
    "Nomino (2020) S1.E1.1080p.mkv",
    "Nomino (2020) S1.E2.1080p.mkv",
    "Nomino (2020) S1.E3.1080p.mkv",
    "Nomino (2020) S1.E4.1080p.mkv",
    "Nomino (2020) S1.E5.1080p.mkv",
];

fn files(names: &[&str]) -> BTreeMap<String, u32> {
    names
        .iter()
        .enumerate()
        .map(|(i, n)| (n.to_string(), i as u32))
        .collect()
}

fn options(dry_run: bool, overwrite: bool) -> RenameOptions {
    RenameOptions {
        dry_run,
        overwrite,
        mkdir: true,
        need_map: true,
    }
}

/// Drives the planner against an in-memory filesystem.
fn simulate(
    fs: &mut BTreeMap<String, u32>,
    pairs: Vec<(String, String)>,
    options: RenameOptions,
) -> (Option<Vec<(String, String)>>, bool) {
    let mut renamer = Renamer::new(options);
    for (input, output) in pairs {
        let mut action = renamer.start(input, output);
        loop {
            match action {
                Action::Probe(p) => {
                    let exists = fs.contains_key(&p);
                    action = renamer.probed(exists);
                }
                Action::Apply {
                    input,
                    target,
                    perform,
                    ..
                } => {
                    let ok = if perform {
                        match fs.remove(&input) {
                            Some(id) => {
                                fs.insert(target, id);
                                true
                            }
                            None => false,
                        }
                    } else {
                        true
                    };
                    renamer.applied(ok);
                    break;
                }
                Action::Missing(_) | Action::Done => break,
            }
        }
    }
    renamer.finish()
}

fn pattern_pairs(
    pattern: &str,
    template: &str,
    depth: Option<usize>,
    max_depth: Option<usize>,
    paths: &[(&str, usize)],
) -> Vec<(String, String)> {
    let source = Source::new_regex(pattern, depth, max_depth).unwrap();
    let formatter = Formatter::new(template).unwrap();
    match source {
        Source::Regex(p, d, m) => {
            let (min, max) = traversal_depths(d, m);
            paths
                .iter()
                .filter(|(_, level)| *level >= min && *level <= max)
                .filter_map(|(path, _)| match_entry(&p, &formatter, path, false))
                .collect()
        }
        _ => panic!("not a pattern source"),
    }
}

fn sorted_names(fs: &BTreeMap<String, u32>) -> Vec<String> {
    fs.keys().cloned().collect()
}

fn subdir_paths() -> Vec<(String, usize)> {
    let mut v: Vec<(String, usize)> = vec![
        ("s1".to_string(), 1),
        ("s2".to_string(), 1),
        ("a".to_string(), 1),
    ];
    let dirs = ["s1", "s1", "s2", "s2", "a"];
    for (d, f) in dirs.iter().zip(INPUTS.iter()) {
        v.push((format!("{}/{}", d, f), 2));
    }
    v
}

#[test]
fn test_default() {
    let mut fs = files(&INPUTS);
    let paths: Vec<(&str, usize)> = INPUTS.iter().map(|n| (*n, 1)).collect();
    let pairs = pattern_pairs(r".*E(\d+).*", "{:2}.mkv", None, None, &paths);
    let (_, with_err) = simulate(&mut fs, pairs, options(false, false));
    assert!(!with_err);
    assert_eq!(
        sorted_names(&fs),
        vec!["01.mkv", "02.mkv", "03.mkv", "04.mkv", "05.mkv"]
    );
}

#[test]
fn test_default_not_overwrite() {
    let mut fs = files(&INPUTS);
    let paths: Vec<(&str, usize)> = INPUTS.iter().map(|n| (*n, 1)).collect();
    let pairs = pattern_pairs(r".*E(\d+).*", "1.mkv", None, None, &paths);
    let (map, with_err) = simulate(&mut fs, pairs, options(false, false));
    assert!(!with_err);
    let mut expected = vec!["1.mkv", "_1.mkv", "__1.mkv", "___1.mkv", "____1.mkv"];
    expected.sort();
    assert_eq!(sorted_names(&fs), expected);
    let map = map.unwrap();
    assert_eq!(map[0].0, "1.mkv");
    assert_eq!(map[4].0, "____1.mkv");
}

#[test]
fn test_default_overwrite() {
    let mut fs = files(&INPUTS);
    let paths: Vec<(&str, usize)> = INPUTS.iter().map(|n| (*n, 1)).collect();
    let pairs = pattern_pairs(r".*E(\d+).*", "1.mkv", None, None, &paths);
    let (_, with_err) = simulate(&mut fs, pairs, options(false, true));
    assert!(!with_err);
    assert_eq!(sorted_names(&fs), vec!["1.mkv"]);
    assert_eq!(fs["1.mkv"], 4);
}

fn run_subdir(template: &str, depth: Option<usize>, max_depth: Option<usize>) -> Vec<(String, String)> {
    let owned = subdir_paths();
    let paths: Vec<(&str, usize)> = owned.iter().map(|(p, l)| (p.as_str(), *l)).collect();
    pattern_pairs(r"s(\d+)/.*E(\d+).*", template, depth, max_depth, &paths)
}

#[test]
fn test_default_subdir() {
    let pairs = run_subdir("{:2}/{:2}.mkv", None, None);
    let outputs: Vec<&str> = pairs.iter().map(|p| p.1.as_str()).collect();
    assert_eq!(outputs, vec!["01/01.mkv", "01/02.mkv", "02/03.mkv", "02/04.mkv"]);
}

#[test]
fn test_default_subdir_depth() {
    let pairs = run_subdir("{:2}/{:2}.mkv", Some(2), None);
    assert_eq!(pairs.len(), 4);
    assert_eq!(pairs[2].1, "02/03.mkv");
}

#[test]
fn test_default_subdir_max_depth() {
    let pairs = run_subdir("{:2}/{:2}.mkv", Some(3), Some(2));
    assert_eq!(pairs.len(), 4);
    assert_eq!(pairs[3].1, "02/04.mkv");
    assert_eq!(traversal_depths(3, Some(2)), (2, 2));
}

#[test]
fn test_default_subdir_not_overwrite() {
    let owned = subdir_paths();
    let mut fs: BTreeMap<String, u32> = owned
        .iter()
        .enumerate()
        .map(|(i, (p, _))| (p.clone(), i as u32))
        .collect();
    let pairs = run_subdir("{:2}/1.mkv", None, None);
    let (_, with_err) = simulate(&mut fs, pairs, options(false, false));
    assert!(!with_err);
    for name in ["01/1.mkv", "01/_1.mkv", "02/1.mkv", "02/_1.mkv"] {
        assert!(fs.contains_key(name), "{}", name);
    }
}

#[test]
fn test_default_subdir_overwrite() {
    let owned = subdir_paths();
    let mut fs: BTreeMap<String, u32> = owned
        .iter()
        .enumerate()
        .map(|(i, (p, _))| (p.clone(), i as u32))
        .collect();
    let pairs = run_subdir("{:2}/1.mkv", None, None);
    let (_, with_err) = simulate(&mut fs, pairs, options(false, true));
    assert!(!with_err);
    assert!(fs.contains_key("01/1.mkv"));
    assert!(!fs.contains_key("01/_1.mkv"));
    assert!(fs.contains_key("02/1.mkv"));
}

#[test]
fn test_sort() {
    let scrambled: Vec<String> = [4, 1, 3, 0, 2].iter().map(|&i| INPUTS[i].to_string()).collect();
    let formatter = Formatter::new("{:3}.mkv").unwrap();
    let pairs = sequence_pairs(scrambled, SortOrder::Asc, &formatter, false);
    let expected: Vec<(String, String)> = INPUTS
        .iter()
        .enumerate()
        .map(|(i, n)| (n.to_string(), format!("{:03}.mkv", i + 1)))
        .collect();
    assert_eq!(pairs, expected);
    let mut fs = files(&INPUTS);
    let (_, with_err) = simulate(&mut fs, pairs, options(false, false));
    assert!(!with_err);
    assert_eq!(
        sorted_names(&fs),
        vec!["001.mkv", "002.mkv", "003.mkv", "004.mkv", "005.mkv"]
    );
}

#[test]
fn sort_is_natural_not_lexical() {
    let names = vec!["file10.txt".to_string(), "file2.txt".to_string(), "file1.txt".to_string()];
    let formatter = Formatter::new("{1}-{0}").unwrap();
    let asc = sequence_pairs(names.clone(), SortOrder::Asc, &formatter, true);
    assert_eq!(asc[0], ("file1.txt".to_string(), "1-file1.txt.txt".to_string()));
    assert_eq!(asc[1].0, "file2.txt");
    assert_eq!(asc[2].0, "file10.txt");
    let desc = sequence_pairs(names, SortOrder::Desc, &formatter, false);
    assert_eq!(desc[0], ("file10.txt".to_string(), "1-file10.txt".to_string()));
    assert_eq!(desc[2].1, "3-file1.txt");
}

#[test]
fn test_map() {
    let text = r#"{
        "Nomino (2020) S1.E1.1080p.mkv": "01.mkv",
        "Nomino (2020) S1.E2.1080p.mkv": "02.mkv",
        "Nomino (2020) S1.E3.1080p.mkv": "03.mkv",
        "Nomino (2020) S1.E4.1080p.mkv": "04.mkv",
        "Nomino (2020) S1.E5.1080p.mkv": "05.mkv"
    }"#;
    let mut fs = files(&INPUTS);
    let original = fs.clone();
    let pairs = match read_source(None, None, Some(text)).unwrap() {
        Source::MapFile(v) => v,
        _ => panic!("not a map source"),
    };
    assert_eq!(pairs[0].0, INPUTS[0]);
    assert_eq!(pairs[4].1, "05.mkv");
    let (map, with_err) = simulate(&mut fs, pairs, options(false, false));
    assert!(!with_err);
    assert_eq!(
        sorted_names(&fs),
        vec!["01.mkv", "02.mkv", "03.mkv", "04.mkv", "05.mkv"]
    );
    let (_, with_err) = simulate(&mut fs, map.unwrap(), options(false, false));
    assert!(!with_err);
    assert_eq!(fs, original);
}

#[test]
fn map_file_keeps_the_order_of_the_text() {
    let pairs = match Source::new_map(r#"{"b": "1", "a": "2", "c": "3"}"#).unwrap() {
        Source::MapFile(v) => v,
        _ => panic!("not a map source"),
    };
    let keys: Vec<&str> = pairs.iter().map(|p| p.0.as_str()).collect();
    assert_eq!(keys, vec!["b", "a", "c"]);
    assert!(Source::new_map(r#"{"a": 1}"#).is_err());
    assert!(Source::new_map("[1, 2]").is_err());
}

#[test]
fn dry_run_keeps_files_and_map() {
    let mut live = files(&INPUTS);
    let mut dry = files(&INPUTS);
    let paths: Vec<(&str, usize)> = INPUTS.iter().map(|n| (*n, 1)).collect();
    let pairs = pattern_pairs(r".*E(\d+).*", "ep{1}.mkv", None, None, &paths);
    let (live_map, _) = simulate(&mut live, pairs.clone(), options(false, false));
    let (dry_map, _) = simulate(&mut dry, pairs, options(true, false));
    assert_eq!(dry, files(&INPUTS));
    assert_eq!(live_map, dry_map);
}

#[test]
fn noop_pairs_are_recorded_only() {
    let mut fs = files(&["a.txt"]);
    let (map, with_err) = simulate(
        &mut fs,
        vec![("a.txt".to_string(), "a.txt".to_string())],
        options(false, false),
    );
    assert!(!with_err);
    assert_eq!(map.unwrap(), vec![("a.txt".to_string(), "a.txt".to_string())]);
}

#[test]
fn failed_rename_is_reported_and_skipped() {
    let mut fs = files(&["a.txt"]);
    let (map, with_err) = simulate(
        &mut fs,
        vec![
            ("missing".to_string(), "x".to_string()),
            ("a.txt".to_string(), "b.txt".to_string()),
        ],
        options(false, false),
    );
    assert!(with_err);
    assert_eq!(map.unwrap(), vec![("b.txt".to_string(), "a.txt".to_string())]);
}

#[test]
fn planner_actions_follow_the_options() {
    let mut r = Renamer::new(RenameOptions {
        dry_run: true,
        overwrite: false,
        mkdir: true,
        need_map: false,
    });
    assert_eq!(r.start("a".to_string(), "d/b".to_string()), Action::Probe("d/b".to_string()));
    assert_eq!(r.probed(true), Action::Probe("d/_b".to_string()));
    assert_eq!(r.probed(false), Action::Probe("a".to_string()));
    assert_eq!(
        r.probed(true),
        Action::Apply {
            input: "a".to_string(),
            target: "d/_b".to_string(),
            create_parent: false,
            perform: false
        }
    );
    r.applied(true);
    assert_eq!(r.finish(), (None, false));
}

#[test]
fn depth_is_inferred_from_separators() {
    match Source::new_regex("abc", None, None).unwrap() {
        Source::Regex(_, d, m) => {
            assert_eq!(d, 1);
            assert_eq!(m, None);
        }
        _ => panic!("not a pattern source"),
    }
    match Source::new_regex("a/b", None, Some(5)).unwrap() {
        Source::Regex(p, d, m) => {
            assert_eq!(p.as_str(), "a/b");
            assert_eq!(d, 2);
            assert_eq!(m, Some(5));
        }
        _ => panic!("not a pattern source"),
    }
    match Source::new_regex("a/b/c", Some(7), None).unwrap() {
        Source::Regex(_, d, _) => assert_eq!(d, 7),
        _ => panic!("not a pattern source"),
    }
    assert_eq!(traversal_depths(2, None), (2, 2));
    assert_eq!(traversal_depths(1, Some(4)), (1, 4));
}

#[test]
fn source_errors() {
    assert!(Source::new_regex("(", None, None).is_err());
    let err = read_source(None, None, None).err().unwrap();
    assert_eq!(
        err.message(),
        "one of 'regex', 'sort', 'map' or 'SOURCE' options must be set."
    );
    assert!(matches!(read_source(None, Some(Order::Desc), None), Ok(Source::Sort(SortOrder::Desc))));
    let s = Source::new_sort(Order::Asc).unwrap();
    assert!(s.checked_formatter(None).is_err());
}

#[test]
fn named_groups_resolve_in_pattern_mode() {
    let source = Source::new_regex(r"(?P<show>\w+)-(?P<ep>\d+)(x)?", None, None).unwrap();
    let p = match source {
        Source::Regex(p, _, _) => p,
        _ => panic!("not a pattern source"),
    };
    let f = Formatter::new("{ep:3} {show}[{3}]").unwrap();
    let pair = match_entry(&p, &f, "lost-7.avi", true).unwrap();
    assert_eq!(pair, ("lost-7.avi".to_string(), "007 lost[].avi".to_string()));
    assert_eq!(match_entry(&p, &f, "...", false), None);
}

#[test]
fn generated_map_file_replays_as_undo() {
    let map = vec![
        ("02.mkv".to_string(), "b.mkv".to_string()),
        ("01.mkv".to_string(), "a.mkv".to_string()),
    ];
    let bytes = map_file_bytes(&map).unwrap();
    let text = String::from_utf8(bytes).unwrap();
    assert!(text.contains("\"02.mkv\": \"b.mkv\""));
    let pairs = match Source::new_map(text.as_str()).unwrap() {
        Source::MapFile(v) => v,
        _ => panic!("not a map source"),
    };
    assert_eq!(pairs, map);
}

#[test]
fn dry_run_sees_its_own_renames() {
    let paths: Vec<(&str, usize)> = INPUTS.iter().map(|n| (*n, 1)).collect();
    let pairs = pattern_pairs(r".*E(\d+).*", "1.mkv", None, None, &paths);
    let mut live = files(&INPUTS);
    let mut dry = files(&INPUTS);
    let (live_map, live_err) = simulate(&mut live, pairs.clone(), options(false, false));
    let (dry_map, dry_err) = simulate(&mut dry, pairs, options(true, false));
    assert_eq!(dry, files(&INPUTS));
    assert_eq!(live_map, dry_map);
    assert_eq!(live_err, dry_err);
    assert_eq!(dry_map.unwrap()[2].0, "__1.mkv");
}

#[test]
fn dry_run_reports_vanished_inputs_like_a_live_run() {
    let pairs = vec![
        ("a".to_string(), "b".to_string()),
        ("a".to_string(), "c".to_string()),
    ];
    let mut live = files(&["a"]);
    let mut dry = files(&["a"]);
    let live_out = simulate(&mut live, pairs.clone(), options(false, false));
    let dry_out = simulate(&mut dry, pairs, options(true, false));
    assert_eq!(live_out, dry_out);
    assert!(dry_out.1);
    assert_eq!(dry, files(&["a"]));
}
