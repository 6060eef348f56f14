use h7cad::recent::{recent_files_from, recent_limit_from, recents_body};
use h7cad::studio::{OpenCADStudio, RECENT_DEFAULT, RECENT_MAX, RECENT_MIN};

fn names(app: &OpenCADStudio) -> Vec<&str> {
    app.recent_files.iter().map(|s| s.as_str()).collect()
}

#[test]
fn push_recent_puts_newest_first() {
    let mut app = OpenCADStudio::new_for_test();
    app.push_recent("a.dwg".to_string());
    app.push_recent("b.dwg".to_string());
    assert_eq!(names(&app), vec!["b.dwg", "a.dwg"]);
}

#[test]
fn push_recent_moves_an_existing_path_to_the_top() {
    let mut app = OpenCADStudio::new_for_test();
    app.push_recent("a.dwg".to_string());
    app.push_recent("b.dwg".to_string());
    app.push_recent("a.dwg".to_string());
    assert_eq!(names(&app), vec!["a.dwg", "b.dwg"]);
}

#[test]
fn push_recent_keeps_at_most_the_limit() {
    let mut app = OpenCADStudio::new_for_test();
    app.set_recent_limit(RECENT_MIN);
    for i in 0..8 {
        app.push_recent(format!("f{i}.dxf"));
    }
    assert_eq!(names(&app), vec!["f7.dxf", "f6.dxf", "f5.dxf", "f4.dxf", "f3.dxf"]);
}

#[test]
fn remove_recent_drops_every_entry_for_the_path() {
    let mut app = OpenCADStudio::new_for_test();
    app.recent_files = vec!["x".to_string(), "y".to_string(), "x".to_string()];
    app.remove_recent("x");
    assert_eq!(names(&app), vec!["y"]);
    app.remove_recent("missing");
    assert_eq!(names(&app), vec!["y"]);
}

#[test]
fn set_recent_limit_clamps_and_trims() {
    let mut app = OpenCADStudio::new_for_test();
    app.set_recent_limit(2);
    assert_eq!(app.recent_limit, RECENT_MIN);
    app.set_recent_limit(1000);
    assert_eq!(app.recent_limit, RECENT_MAX);
    app.set_recent_limit(7);
    assert_eq!(app.recent_limit, 7);
    app.recent_files = (0..10).map(|i| format!("p{i}")).collect();
    app.set_recent_limit(6);
    assert_eq!(app.recent_files.len(), 6);
    assert_eq!(app.recent_files[0], "p0");
}

#[test]
fn limit_file_text_is_parsed_and_clamped() {
    assert_eq!(recent_limit_from(Some(" 42 \n")), 42);
    assert_eq!(recent_limit_from(Some("3")), RECENT_MIN);
    assert_eq!(recent_limit_from(Some("250")), RECENT_MAX);
    assert_eq!(recent_limit_from(Some("many")), RECENT_DEFAULT);
    assert_eq!(recent_limit_from(Some("")), RECENT_DEFAULT);
    assert_eq!(recent_limit_from(None), RECENT_DEFAULT);
}

#[test]
fn recents_file_lines_are_read_without_blanks() {
    let got = recent_files_from("a.dwg\n\n   \nb.dxf\r\nc.dwg\n", 20);
    assert_eq!(got, vec!["a.dwg".to_string(), "b.dxf".to_string(), "c.dwg".to_string()]);
    let capped = recent_files_from("a\nb\nc\n", 2);
    assert_eq!(capped, vec!["a".to_string(), "b".to_string()]);
}

#[test]
fn recents_body_joins_lines() {
    let list = vec!["one.dwg".to_string(), "two.dwg".to_string()];
    assert_eq!(recents_body(&list), "one.dwg\ntwo.dwg");
    assert_eq!(recents_body(&[]), "");
}

#[test]
fn recents_survive_a_save_and_load() {
    let list = vec!["C:\\d\\one.dwg".to_string(), "/home/u/two.dxf".to_string()];
    let body = recents_body(&list);
    assert_eq!(recent_files_from(&body, RECENT_DEFAULT), list);
}
