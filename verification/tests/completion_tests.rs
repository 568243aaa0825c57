use rsh::completion::{candidates, completion_target, current_word, Candidate, DirEntry};

fn entry(name: &str, is_dir: bool) -> DirEntry {
    DirEntry { name: name.to_string(), is_dir }
}

fn texts(found: &[Candidate]) -> Vec<String> {
    found.iter().map(|c| c.display.clone()).collect()
}

#[test]
fn word_starts_after_the_nearest_space() {
    assert_eq!(current_word("cd foo", 6), (3, "foo"));
    assert_eq!(current_word("cd foo", 5), (3, "fo"));
    assert_eq!(current_word("ls -l /usr/lo", 13), (6, "/usr/lo"));
}

#[test]
fn word_starts_at_zero_without_a_space() {
    assert_eq!(current_word("foo", 3), (0, "foo"));
    assert_eq!(current_word("foo", 2), (0, "fo"));
    assert_eq!(current_word("foo", 0), (0, ""));
    assert_eq!(current_word("", 0), (0, ""));
}

#[test]
fn word_is_empty_right_after_a_space() {
    assert_eq!(current_word("cd ", 3), (3, ""));
    assert_eq!(current_word("cd  x", 4), (4, ""));
}

#[test]
fn word_offsets_count_bytes() {
    let line = "cd é/ü x";
    assert_eq!(current_word(line, 8), (3, "é/ü"));
    assert_eq!(current_word(line, 5), (3, "é"));
    assert_eq!(current_word(line, line.len()), (9, "x"));
}

#[test]
fn directory_is_listed_itself() {
    let target = completion_target("/usr/local", true);
    assert_eq!(target.dir, "/usr/local");
    assert_eq!(target.prefix, "");
}

#[test]
fn other_path_is_split_after_its_last_slash() {
    let target = completion_target("/usr/lo", false);
    assert_eq!(target.dir, "/usr/");
    assert_eq!(target.prefix, "lo");
    let target = completion_target("/us", false);
    assert_eq!(target.dir, "/");
    assert_eq!(target.prefix, "us");
    let target = completion_target("a/b/", false);
    assert_eq!(target.dir, "a/b/");
    assert_eq!(target.prefix, "");
}

#[test]
fn path_without_slash_is_looked_up_in_the_current_directory() {
    let target = completion_target("fo", false);
    assert_eq!(target.dir, ".");
    assert_eq!(target.prefix, "fo");
    let target = completion_target("", false);
    assert_eq!(target.dir, ".");
    assert_eq!(target.prefix, "");
}

#[test]
fn only_directories_are_offered() {
    let entries = vec![entry("foo", true), entry("bar.txt", false)];
    assert_eq!(texts(&candidates(&entries, "f")), vec!["foo/"]);
    assert_eq!(texts(&candidates(&entries, "")), vec!["foo/"]);
    assert_eq!(texts(&candidates(&entries, "b")), Vec::<String>::new());
}

#[test]
fn candidates_are_sorted() {
    let entries = vec![entry("zeta", true), entry("alpha", true), entry("mid", true)];
    assert_eq!(texts(&candidates(&entries, "")), vec!["alpha/", "mid/", "zeta/"]);
}

#[test]
fn candidates_are_sorted_like_the_standard_library_sorts() {
    let names = ["b", "a", "ab", "B", "é", "z", "a b", "_x", "10", "9", "aa", "Z"];
    let entries: Vec<DirEntry> = names.iter().map(|n| entry(n, true)).collect();
    let mut expected: Vec<String> = names.iter().map(|n| format!("{}/", n)).collect();
    expected.sort();
    assert_eq!(texts(&candidates(&entries, "")), expected);
}

#[test]
fn candidates_begin_with_the_prefix() {
    let entries = vec![
        entry("src", true),
        entry("scripts", true),
        entry("target", true),
        entry("s", true),
        entry("setup.py", false),
    ];
    assert_eq!(texts(&candidates(&entries, "s")), vec!["s/", "scripts/", "src/"]);
    assert_eq!(texts(&candidates(&entries, "sr")), vec!["src/"]);
    assert_eq!(texts(&candidates(&entries, "x")), Vec::<String>::new());
}

#[test]
fn candidate_replaces_with_what_it_shows() {
    let entries = vec![entry("docs", true), entry("data", true)];
    let found = candidates(&entries, "d");
    assert_eq!(found.len(), 2);
    for candidate in &found {
        assert_eq!(candidate.display, candidate.replacement);
        assert!(candidate.display.ends_with('/'));
    }
    assert_eq!(
        found[0],
        Candidate { display: "data/".to_string(), replacement: "data/".to_string() }
    );
}

#[test]
fn no_entries_give_no_candidates() {
    assert_eq!(candidates(&Vec::new(), ""), Vec::<Candidate>::new());
}

#[test]
fn word_is_what_the_standard_library_finds_after_the_last_space() {
    let lines =
        ["", "cd", "cd ", "cd  a b", "ls /usr/lo", " x", "é ü/ö", "a\tb c", "trailing  "];
    for line in lines {
        for pos in 0..=line.len() {
            if !line.is_char_boundary(pos) {
                continue;
            }
            let head = &line[..pos];
            let start = match head.rfind(' ') {
                Some(index) => index + 1,
                None => 0,
            };
            let expected = (start, &line[start..pos]);
            assert_eq!(current_word(line, pos), expected, "{:?} at {}", line, pos);
        }
    }
}

#[test]
fn candidates_keep_equal_names() {
    let entries = vec![entry("same", true), entry("same", true), entry("other", true)];
    assert_eq!(texts(&candidates(&entries, "")), vec!["other/", "same/", "same/"]);
}
