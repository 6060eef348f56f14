use h7cad::command_line::{any_within_visible_window, visible_entries, CommandLine, EntryKind, VISIBLE_LINES};

fn texts(cl: &CommandLine) -> Vec<String> {
    cl.history.iter().map(|e| e.text.clone()).collect()
}

#[test]
fn new_greets_twice() {
    let cl = CommandLine::new();
    assert_eq!(
        texts(&cl),
        vec![
            "Open CAD Studio ready.".to_string(),
            "Type a command or use the ribbon. Open OBJ: INSERT tab.".to_string()
        ]
    );
    assert!(cl.history.iter().all(|e| e.kind == EntryKind::Info));
    assert!(cl.has_visible_history());
}

#[test]
fn submit_uppercases_trims_and_records() {
    let mut cl = CommandLine::new();
    cl.input = "  line  ".to_string();
    assert_eq!(cl.submit(), Some("LINE".to_string()));
    assert_eq!(cl.input, "");
    assert_eq!(cl.cmd_recall, vec!["line".to_string()]);
    assert_eq!(cl.history.last().unwrap().text, "Command:   line  ");
    assert_eq!(cl.history.last().unwrap().kind, EntryKind::Command);
}

#[test]
fn blank_submit_does_nothing() {
    let mut cl = CommandLine::new();
    cl.input = " \t ".to_string();
    assert_eq!(cl.submit(), None);
    assert_eq!(cl.input, " \t ");
    assert_eq!(cl.history.len(), 2);
    assert!(cl.cmd_recall.is_empty());
}

#[test]
fn repeated_command_is_recalled_once() {
    let mut cl = CommandLine::default();
    for _ in 0..3 {
        cl.input = "circle".to_string();
        cl.submit();
    }
    assert_eq!(cl.cmd_recall, vec!["circle".to_string()]);
    assert_eq!(cl.history.len(), 3);
}

#[test]
fn recall_keeps_fifty() {
    let mut cl = CommandLine::default();
    for i in 0..60 {
        cl.input = format!("c{i}");
        cl.submit();
    }
    assert_eq!(cl.cmd_recall.len(), 50);
    assert_eq!(cl.cmd_recall[0], "c10");
    assert_eq!(cl.cmd_recall[49], "c59");
}

#[test]
fn history_keeps_sixty_four() {
    let mut cl = CommandLine::default();
    for i in 0..70 {
        cl.push_output(&format!("o{i}"));
    }
    assert_eq!(cl.history.len(), 64);
    assert_eq!(cl.history[0].text, "o6");
    assert_eq!(cl.history[63].text, "o69");
}

#[test]
fn prev_and_next_walk_the_recall() {
    let mut cl = CommandLine::default();
    for c in ["a", "b", "c"] {
        cl.input = c.to_string();
        cl.submit();
    }
    cl.input = "draft".to_string();
    cl.history_prev();
    assert_eq!(cl.input, "c");
    cl.history_prev();
    assert_eq!(cl.input, "b");
    cl.history_prev();
    assert_eq!(cl.input, "a");
    cl.history_prev();
    assert_eq!(cl.input, "a");
    cl.history_next();
    assert_eq!(cl.input, "b");
    cl.history_next();
    assert_eq!(cl.input, "c");
    cl.history_next();
    assert_eq!(cl.input, "draft");
    cl.history_next();
    assert_eq!(cl.input, "draft");
}

#[test]
fn prev_on_empty_recall_keeps_input() {
    let mut cl = CommandLine::default();
    cl.input = "x".to_string();
    cl.history_prev();
    assert_eq!(cl.input, "x");
}

#[test]
fn prev_right_after_submit_recalls_it() {
    let mut cl = CommandLine::default();
    cl.input = " move ".to_string();
    cl.submit();
    cl.history_prev();
    assert_eq!(cl.input, "move");
}

#[test]
fn push_kinds_format_their_text() {
    let mut cl = CommandLine::default();
    cl.push_command("LINE");
    cl.push_output("done");
    cl.push_error("bad");
    cl.push_info("note");
    assert_eq!(texts(&cl), vec!["Command: LINE", "done", "*Invalid*  bad", "note"]);
    let kinds: Vec<EntryKind> = cl.history.iter().map(|e| e.kind).collect();
    assert_eq!(kinds, vec![EntryKind::Command, EntryKind::Output, EntryKind::Error, EntryKind::Info]);
}

#[test]
fn empty_history_is_not_visible() {
    assert!(!CommandLine::default().has_visible_history());
}

#[test]
fn visible_window_is_three_seconds() {
    assert!(any_within_visible_window(&[5000, 2999]));
    assert!(!any_within_visible_window(&[3000, 4000]));
    assert!(!any_within_visible_window(&[]));
}

#[test]
fn uppercase_is_unicode() {
    let mut cl = CommandLine::default();
    cl.input = "straße".to_string();
    assert_eq!(cl.submit(), Some("STRASSE".to_string()));
}

#[test]
fn next_past_a_shrunken_recall_restores_the_draft() {
    let mut cl = CommandLine::default();
    for c in ["a", "b", "c"] {
        cl.input = c.to_string();
        cl.submit();
    }
    cl.input = "draft".to_string();
    cl.history_prev();
    assert_eq!(cl.input, "c");
    cl.cmd_recall.clear();
    cl.history_next();
    assert_eq!(cl.input, "draft");
    cl.history_next();
    assert_eq!(cl.input, "draft");
}

#[test]
fn k_steps_up_then_down_come_back_to_the_draft() {
    let mut cl = CommandLine::default();
    for c in ["a", "b", "c", "d"] {
        cl.input = c.to_string();
        cl.submit();
    }
    cl.input = "draft".to_string();
    for _ in 0..6 {
        cl.history_prev();
    }
    assert_eq!(cl.input, "a");
    let mut seen = Vec::new();
    for _ in 0..5 {
        cl.history_next();
        seen.push(cl.input.clone());
    }
    assert_eq!(seen, vec!["b", "c", "d", "draft", "draft"]);
}

#[test]
fn history_ages_has_one_age_per_entry() {
    let mut cl = CommandLine::default();
    let n = cl.history.len();
    assert_eq!(cl.history_ages().len(), n);
    cl.push_info("x");
    cl.push_error("y");
    assert_eq!(cl.history_ages().len(), n + 2);
    assert!(cl.has_visible_history());
}

#[test]
fn visible_entries_are_the_newest_four_young_ones() {
    assert_eq!(VISIBLE_LINES, 4);
    assert_eq!(visible_entries(&[]), Vec::<usize>::new());
    assert_eq!(visible_entries(&[5000, 100, 3000, 2999]), vec![1, 3]);
    assert_eq!(visible_entries(&[0, 1, 2, 9000, 3, 4, 5]), vec![2, 4, 5, 6]);
    assert_eq!(visible_entries(&[3000, 4000]), Vec::<usize>::new());
}

#[test]
fn prev_past_a_shrunken_recall_moves_to_the_last_entry() {
    let mut cl = CommandLine::default();
    for c in ["a", "b", "c"] {
        cl.input = c.to_string();
        cl.submit();
    }
    cl.history_prev();
    assert_eq!(cl.input, "c");
    cl.cmd_recall.pop();
    cl.history_prev();
    assert_eq!(cl.input, "b");
    cl.cmd_recall.clear();
    cl.history_prev();
    assert_eq!(cl.input, "b");
}
