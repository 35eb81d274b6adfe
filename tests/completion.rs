use rshell::completion::{
    completion_candidates, is_executable, listing_candidates, needs_path_search, search_location,
    DirEntryInfo,
};

fn file(name: &str, mode: u32) -> DirEntryInfo {
    DirEntryInfo { name: name.to_string(), is_dir: false, is_file: true, mode }
}

fn dir(name: &str) -> DirEntryInfo {
    DirEntryInfo { name: name.to_string(), is_dir: true, is_file: false, mode: 0o755 }
}

#[test]
fn sr_completes_to_src_and_srv() {
    let listing = vec![file("srv.txt", 0o644), dir("target"), dir("src"), file("Cargo.toml", 0o644)];
    let r = completion_candidates("sr", &listing, &Vec::new());
    assert_eq!(r, vec!["src/".to_string(), "srv.txt".to_string()]);
}

#[test]
fn empty_buffer_has_no_candidates() {
    let listing = vec![dir("src")];
    let path = vec![file("ls", 0o755)];
    assert!(completion_candidates("", &listing, &path).is_empty());
}

#[test]
fn candidates_are_sorted_and_unique() {
    let listing = vec![file("zeta", 0o644), file("alpha", 0o644), dir("beta"), file("Alpha", 0o644)];
    let r = completion_candidates("", &listing, &Vec::new());
    assert!(r.is_empty());
    let listing2 = vec![file("ab", 0o644), file("aa", 0o644), dir("ac"), file("a", 0o644)];
    let r2 = completion_candidates("a", &listing2, &Vec::new());
    assert_eq!(r2, vec!["a".to_string(), "aa".to_string(), "ab".to_string(), "ac/".to_string()]);
    for w in r2.windows(2) {
        assert!(w[0] < w[1]);
    }
}

#[test]
fn byte_order_puts_upper_case_first() {
    let listing = vec![file("bz", 0o644), file("bA", 0o644), file("ba", 0o644)];
    let r = completion_candidates("b", &listing, &Vec::new());
    assert_eq!(r, vec!["bA".to_string(), "ba".to_string(), "bz".to_string()]);
}

#[test]
fn path_fallback_lists_executables_only() {
    let listing = vec![file("notes.txt", 0o644)];
    let path = vec![file("grep", 0o755), file("gresource", 0o644), dir("gr"), file("git", 0o100)];
    assert!(needs_path_search("gr", &listing));
    let r = completion_candidates("gr", &listing, &path);
    assert_eq!(r, vec!["grep".to_string()]);
}

#[test]
fn no_path_fallback_with_a_slash() {
    let listing = vec![file("notes.txt", 0o644)];
    let path = vec![file("grep", 0o755)];
    assert!(!needs_path_search("./gr", &listing));
    assert!(completion_candidates("./gr", &listing, &path).is_empty());
}

#[test]
fn no_path_fallback_when_directory_matches() {
    let listing = vec![file("grammar.txt", 0o644)];
    let path = vec![file("grep", 0o755)];
    assert!(!needs_path_search("gr", &listing));
    assert_eq!(completion_candidates("gr", &listing, &path), vec!["grammar.txt".to_string()]);
}

#[test]
fn search_location_splits_at_last_slash() {
    assert_eq!(search_location("src/ma"), ("src/".to_string(), "ma".to_string()));
    assert_eq!(search_location("a/b/c"), ("a/b/".to_string(), "c".to_string()));
    assert_eq!(search_location("src/"), ("src/".to_string(), "".to_string()));
    assert_eq!(search_location("main"), (".".to_string(), "main".to_string()));
}

#[test]
fn completes_inside_a_directory() {
    let listing = vec![file("main.rs", 0o644), file("lib.rs", 0o644), dir("macros")];
    let r = completion_candidates("src/ma", &listing, &Vec::new());
    assert_eq!(r, vec!["macros/".to_string(), "main.rs".to_string()]);
}

#[test]
fn listing_candidates_keep_listing_order() {
    let listing = vec![file("sb", 0o644), dir("sa"), file("x", 0o644)];
    assert_eq!(listing_candidates("s", &listing), vec!["sb".to_string(), "sa/".to_string()]);
}

#[test]
fn executable_bits() {
    assert!(is_executable(&file("a", 0o100)));
    assert!(is_executable(&file("a", 0o010)));
    assert!(is_executable(&file("a", 0o001)));
    assert!(!is_executable(&file("a", 0o644)));
    assert!(!is_executable(&dir("a")));
}

#[test]
fn same_program_in_two_path_directories_is_offered_once() {
    // entries of /bin followed by those of /usr/bin
    let path = vec![file("ls", 0o755), file("lsblk", 0o755), file("ls", 0o755), file("less", 0o755)];
    let r = completion_candidates("l", &Vec::new(), &path);
    assert_eq!(r, vec!["less".to_string(), "ls".to_string(), "lsblk".to_string()]);
    let r2 = completion_candidates("ls", &vec![file("notes.txt", 0o644)], &path);
    assert_eq!(r2, vec!["ls".to_string(), "lsblk".to_string()]);
    for w in r.windows(2) {
        assert!(w[0] < w[1]);
    }
}
