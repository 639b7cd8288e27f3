use shell_core::is_executable;
use shell_core::resolver::builtin_names;
use shell_core::resolver::contains_str;
use shell_core::resolver::first_match;
use shell_core::resolver::join_path;
use shell_core::resolver::resolve_candidates;
use shell_core::resolver::split_search_path;
use shell_core::resolver::with_builtins;

fn strings(words: &[&str]) -> Vec<String> {
    words.iter().map(|w| w.to_string()).collect()
}

#[test]
fn execute_bits_qualify_a_regular_file() {
    assert!(is_executable(true, 0o755));
    assert!(is_executable(true, 0o100));
    assert!(is_executable(true, 0o010));
    assert!(is_executable(true, 0o001));
    assert!(!is_executable(true, 0o644));
    assert!(!is_executable(false, 0o755));
}

#[test]
fn search_path_splits_on_colons() {
    assert_eq!(split_search_path("/bin:/usr/bin"), strings(&["/bin", "/usr/bin"]));
    assert_eq!(split_search_path(""), strings(&[""]));
    assert_eq!(split_search_path("a::b"), strings(&["a", "", "b"]));
    assert_eq!(split_search_path("/bin:"), strings(&["/bin", ""]));
}

#[test]
fn joining_inserts_one_separator() {
    assert_eq!(join_path("/bin", "ls"), "/bin/ls");
    assert_eq!(join_path("/bin/", "ls"), "/bin/ls");
    assert_eq!(join_path("", "ls"), "ls");
}

#[test]
fn candidates_follow_search_order() {
    assert_eq!(
        resolve_candidates("/bin:/usr/bin", "ls"),
        strings(&["/bin/ls", "/usr/bin/ls"])
    );
}

#[test]
fn first_qualifying_candidate_wins() {
    let cands = strings(&["/a/x", "/b/x", "/c/x"]);
    assert_eq!(first_match(&cands, &vec![false, true, true]), Some("/b/x".to_string()));
    assert_eq!(first_match(&cands, &vec![true, false, false]), Some("/a/x".to_string()));
    assert_eq!(first_match(&cands, &vec![false, false, false]), None);
    assert_eq!(first_match(&strings(&[]), &vec![]), None);
}

#[test]
fn membership_is_by_exact_text() {
    let v = strings(&["ls", "echo"]);
    assert!(contains_str(&v, "ls"));
    assert!(!contains_str(&v, "l"));
    assert!(!contains_str(&v, "grep"));
}

#[test]
fn builtin_names_in_order() {
    assert_eq!(builtin_names(), strings(&["echo", "exit", "type", "pwd", "cd"]));
}

#[test]
fn builtins_appended_once() {
    let all = with_builtins(strings(&["ls", "echo", "cd"]));
    assert_eq!(all, strings(&["ls", "echo", "cd", "exit", "type", "pwd"]));
}

#[test]
fn builtins_appended_to_empty_list() {
    assert_eq!(with_builtins(vec![]), strings(&["echo", "exit", "type", "pwd", "cd"]));
}
