use shell_core::complete::completion_candidates;
use shell_core::complete::completion_replacement;
use shell_core::complete::word_start;

fn strings(words: &[&str]) -> Vec<String> {
    words.iter().map(|w| w.to_string()).collect()
}

#[test]
fn word_starts_after_last_whitespace() {
    assert_eq!(word_start("type ec", 7), 5);
    assert_eq!(word_start("abc", 3), 0);
    assert_eq!(word_start("", 0), 0);
    assert_eq!(word_start("a b c", 3), 2);
    assert_eq!(word_start("ab ", 3), 3);
}

#[test]
fn cursor_may_stand_mid_word() {
    assert_eq!(word_start("type echo", 7), 5);
}

#[test]
fn candidates_match_the_prefix_sorted() {
    let cmds = strings(&["type", "exit", "echo", "pwd"]);
    assert_eq!(completion_candidates(&cmds, "e"), strings(&["echo", "exit"]));
    assert_eq!(completion_candidates(&cmds, "ec"), strings(&["echo"]));
    assert_eq!(completion_candidates(&cmds, "z"), Vec::<String>::new());
}

#[test]
fn empty_prefix_lists_everything_sorted() {
    let cmds = strings(&["type", "echo", "pwd"]);
    assert_eq!(completion_candidates(&cmds, ""), strings(&["echo", "pwd", "type"]));
}

#[test]
fn duplicates_survive_completion() {
    let cmds = strings(&["ls", "ls"]);
    assert_eq!(completion_candidates(&cmds, "l"), strings(&["ls", "ls"]));
}

#[test]
fn replacement_appends_one_space() {
    assert_eq!(completion_replacement("echo"), "echo ");
}
