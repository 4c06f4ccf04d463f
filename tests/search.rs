use grepr::lines::{find_lines, select_lines, split_lines};
use grepr::matcher::Matcher;
use grepr::output::{error_line, is_single_source, render, render_source, Config};
use grepr::resolve::{
    find_files, is_stdin, probe_request, probes_answer, resolve_path, walk_files, Probe,
    Request, WalkItem,
};

fn strings(v: &[&str]) -> Vec<String> {
    v.iter().map(|s| s.to_string()).collect()
}

fn inputs_walk(root: &str) -> Probe {
    let mut items = vec![WalkItem::Directory];
    for name in ["fox.txt", "bustle.txt", "nobody.txt", "empty.txt"] {
        items.push(WalkItem::File(format!("{}/{}", root, name)));
    }
    Probe::Walk(items)
}

fn matcher(pattern: &str, case_insensitive: bool) -> Matcher {
    match Matcher::new(pattern, case_insensitive) {
        Some(m) => m,
        None => panic!("pattern does not compile"),
    }
}

fn config(pattern: &str, files: &[&str], count: bool) -> Config {
    match Config::new(pattern, false, strings(files), false, count, false) {
        Ok(c) => c,
        Err(e) => panic!("{}", e),
    }
}

#[test]
fn test_find_files() {
    // Verify that the function treats dash as a file
    let files = find_files(&strings(&["-"]), false, &vec![Probe::Unprobed]);
    assert_eq!(files.len(), 1);
    assert_eq!(files[0].as_ref().unwrap(), "-");

    // Verify that the function finds a file known to exist
    let files = find_files(
        &strings(&["./tests/inputs/fox.txt"]),
        false,
        &vec![Probe::Metadata(Ok(false))],
    );
    assert_eq!(files.len(), 1);
    assert_eq!(files[0].as_ref().unwrap(), "./tests/inputs/fox.txt");

    // The function should reject a directory without the recursive option
    let files = find_files(&strings(&["./tests/inputs"]), false, &vec![Probe::Metadata(Ok(true))]);
    assert_eq!(files.len(), 1);
    if let Err(e) = &files[0] {
        assert_eq!(e.to_string(), "./tests/inputs is a directory");
    }

    // Verify the function recurses to find four files in the directory
    let res = find_files(&strings(&["./tests/inputs"]), true, &vec![inputs_walk("./tests/inputs")]);
    let mut files: Vec<String> = res.iter().map(|r| r.as_ref().unwrap().replace("\\", "/")).collect();
    files.sort();
    assert_eq!(files.len(), 4);
    assert_eq!(
        files,
        vec![
            "./tests/inputs/bustle.txt",
            "./tests/inputs/empty.txt",
            "./tests/inputs/fox.txt",
            "./tests/inputs/nobody.txt",
        ]
    );

    // Verify the function finds the file and recurses to find four files in the directory
    let res = find_files(
        &strings(&["./tests/cli.rs", "./tests/inputs"]),
        true,
        &vec![
            Probe::Walk(vec![WalkItem::File("./tests/cli.rs".to_string())]),
            inputs_walk("./tests/inputs"),
        ],
    );
    let mut files: Vec<String> = res.iter().map(|r| r.as_ref().unwrap().replace("\\", "/")).collect();
    files.sort();
    assert_eq!(files.len(), 5);
    assert_eq!(
        files,
        vec![
            "./tests/cli.rs",
            "./tests/inputs/bustle.txt",
            "./tests/inputs/empty.txt",
            "./tests/inputs/fox.txt",
            "./tests/inputs/nobody.txt",
        ]
    );

    // A nonexistent file: its metadata cannot be read
    let bad = "Xq7Zr2k".to_string();
    let files = find_files(
        &vec![bad],
        false,
        &vec![Probe::Metadata(Err("No such file or directory (os error 2)".to_string()))],
    );
    assert_eq!(files.len(), 1);
    assert!(files[0].is_err());
}

#[test]
fn test_find_lines() {
    let text = "Lorem\nIpsum\r\nDOLOR";

    // The pattern _or_ should match the one line "Lorem"
    let re1 = matcher("or", false);
    let matches = find_lines(text, &re1, false);
    assert_eq!(matches.len(), 1);

    // When inverted, the function should match the other two lines
    let matches = find_lines(text, &re1, true);
    assert_eq!(matches.len(), 2);

    // This regex will be case-insensitive
    let re2 = matcher("or", true);

    // The two lines "Lorem" and "DOLOR" should match
    let matches = find_lines(text, &re2, false);
    assert_eq!(matches.len(), 2);

    // When inverted, the one remaining line should match
    let matches = find_lines(text, &re2, true);
    assert_eq!(matches.len(), 1);
}

#[test]
fn stdin_sentinel_resolves_to_itself() {
    assert!(is_stdin("-"));
    assert!(!is_stdin("--"));
    assert!(!is_stdin(""));
    assert_eq!(probe_request(&"-".to_string(), false), Request::Nothing);
    assert_eq!(probe_request(&"-".to_string(), true), Request::Nothing);
    assert_eq!(probe_request(&"a.txt".to_string(), false), Request::Metadata);
    assert_eq!(probe_request(&"a".to_string(), true), Request::Walk);
    let files = find_files(&strings(&["-"]), true, &vec![Probe::Unprobed]);
    assert_eq!(files, vec![Ok("-".to_string())]);
}

#[test]
fn recursive_walk_skips_directories_and_keeps_order() {
    let items = vec![
        WalkItem::Directory,
        WalkItem::File("d/a".to_string()),
        WalkItem::Directory,
        WalkItem::File("d/sub/b".to_string()),
        WalkItem::Failed("d/locked: Permission denied".to_string()),
        WalkItem::File("d/c".to_string()),
    ];
    let entries = walk_files(&items);
    assert_eq!(
        entries,
        vec![
            Ok("d/a".to_string()),
            Ok("d/sub/b".to_string()),
            Err("d/locked: Permission denied".to_string()),
            Ok("d/c".to_string()),
        ]
    );
    let again = find_files(&strings(&["d"]), true, &vec![Probe::Walk(items)]);
    assert_eq!(again, entries);
}

#[test]
fn missing_path_is_an_error_and_others_go_on() {
    let paths = strings(&["missing.txt", "fox.txt", "-"]);
    let probes = vec![
        Probe::Metadata(Err("No such file or directory (os error 2)".to_string())),
        Probe::Metadata(Ok(false)),
        Probe::Unprobed,
    ];
    assert!(probes_answer(&paths, false, &probes));
    let entries = find_files(&paths, false, &probes);
    assert_eq!(
        entries,
        vec![
            Err("No such file or directory (os error 2)".to_string()),
            Ok("fox.txt".to_string()),
            Ok("-".to_string()),
        ]
    );
    assert!(!is_single_source(&entries));
    let c = config("fox", &["missing.txt", "fox.txt"], false);
    let out = render_source(&c, &"fox.txt".to_string(), false, "The quick brown fox\nno\n");
    assert_eq!(out, vec!["fox.txt: The quick brown fox".to_string()]);
}

#[test]
fn probes_must_answer_their_request() {
    let paths = strings(&["-", "dir"]);
    assert!(!probes_answer(&paths, false, &vec![Probe::Unprobed]));
    assert!(!probes_answer(&paths, false, &vec![Probe::Unprobed, Probe::Walk(vec![])]));
    assert!(probes_answer(&paths, true, &vec![Probe::Unprobed, Probe::Walk(vec![])]));
    assert!(!probes_answer(&paths, true, &vec![Probe::Metadata(Ok(true)), Probe::Walk(vec![])]));
}

#[test]
fn directory_without_recursion_is_rejected() {
    let entries = resolve_path(&"src".to_string(), &Probe::Metadata(Ok(true)));
    assert_eq!(entries, vec![Err("src is a directory".to_string())]);
    let entries = resolve_path(&"-".to_string(), &Probe::Unprobed);
    assert_eq!(entries, vec![Ok("-".to_string())]);
}

#[test]
fn lines_keep_their_terminators() {
    assert_eq!(split_lines("Lorem\nIpsum\r\nDOLOR"), strings(&["Lorem\n", "Ipsum\r\n", "DOLOR"]));
    assert_eq!(split_lines(""), Vec::<String>::new());
    assert_eq!(split_lines("\n\nx\n"), strings(&["\n", "\n", "x\n"]));
    assert_eq!(split_lines("éa\nü"), strings(&["éa\n", "ü"]));
}

#[test]
fn case_sensitive_and_insensitive_lines() {
    let text = "Lorem\nIpsum\r\nDOLOR";
    assert_eq!(find_lines(text, &matcher("or", false), false), strings(&["Lorem\n"]));
    assert_eq!(find_lines(text, &matcher("or", false), true), strings(&["Ipsum\r\n", "DOLOR"]));
    assert_eq!(find_lines(text, &matcher("or", true), false), strings(&["Lorem\n", "DOLOR"]));
    assert_eq!(find_lines(text, &matcher("or", true), true), strings(&["Ipsum\r\n"]));
}

#[test]
fn normal_and_inverted_scans_split_the_lines() {
    let lines = strings(&["a1\n", "\n", "b\n", "a2"]);
    let m = matcher("a", false);
    let kept = select_lines(&lines, &m, false);
    let dropped = select_lines(&lines, &m, true);
    assert_eq!(kept, strings(&["a1\n", "a2"]));
    assert_eq!(dropped, strings(&["\n", "b\n"]));
    assert_eq!(kept.len() + dropped.len(), lines.len());
    assert!(m.is_match("xax"));
    assert!(!m.is_match("xyz"));
}

#[test]
fn empty_lines_take_part_in_matching() {
    let m = matcher("^$", false);
    assert_eq!(find_lines("a\n\nb", &m, false), Vec::<String>::new());
    let m = matcher("^\n$", false);
    assert_eq!(find_lines("a\n\nb", &m, false), strings(&["\n"]));
}

#[test]
fn invalid_pattern_is_reported() {
    assert!(Matcher::new("(", false).is_none());
    match Config::new("(", true, vec![], false, false, false) {
        Ok(_) => panic!("pattern should not compile"),
        Err(e) => assert_eq!(e, "Invalid pattern \"(\""),
    }
}

#[test]
fn config_defaults_to_standard_input() {
    let c = config("x", &[], true);
    assert_eq!(c.files, strings(&["-"]));
    assert!(c.count);
    assert!(!c.recursive);
    let c = config("x", &["a", "b"], false);
    assert_eq!(c.files, strings(&["a", "b"]));
}

#[test]
fn count_is_prefixed_only_with_several_sources() {
    let lines = strings(&["a\n"; 12]);
    assert_eq!(render(&"one.txt".to_string(), &lines, false, true), strings(&["one.txt: 12"]));
    assert_eq!(render(&"one.txt".to_string(), &lines, true, true), strings(&["12"]));
    assert_eq!(render(&"-".to_string(), &lines, false, true), strings(&["12"]));
    assert_eq!(render(&"e.txt".to_string(), &vec![], false, true), strings(&["e.txt: 0"]));
}

#[test]
fn lines_are_trimmed_and_prefixed() {
    let lines = strings(&["  Lorem \r\n", "DOLOR"]);
    assert_eq!(render(&"f".to_string(), &lines, false, false), strings(&["f: Lorem", "f: DOLOR"]));
    assert_eq!(render(&"f".to_string(), &lines, true, false), strings(&["Lorem", "DOLOR"]));
    assert_eq!(render(&"-".to_string(), &lines, false, false), strings(&["Lorem", "DOLOR"]));
}

#[test]
fn two_sources_in_count_mode() {
    let c = config("or", &["a.txt", "b.txt"], true);
    let entries = find_files(
        &c.files,
        false,
        &vec![Probe::Metadata(Ok(false)), Probe::Metadata(Ok(false))],
    );
    let single = is_single_source(&entries);
    assert!(!single);
    let out_a = render_source(&c, &"a.txt".to_string(), single, "Lorem\nIpsum\r\nDOLOR");
    let out_b = render_source(&c, &"b.txt".to_string(), single, "for\nor\nfor");
    assert_eq!(out_a, strings(&["a.txt: 1"]));
    assert_eq!(out_b, strings(&["b.txt: 3"]));
    let out = render_source(&c, &"a.txt".to_string(), true, "Lorem\nIpsum\r\nDOLOR");
    assert_eq!(out, strings(&["1"]));
}

#[test]
fn error_lines_name_the_source() {
    assert_eq!(error_line("a.txt", "Permission denied (os error 13)"), "a.txt: Permission denied (os error 13)");
    assert!(is_single_source(&vec![Err("x".to_string())]));
}
