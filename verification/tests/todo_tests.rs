use todo::{IndexOutcome, Status, Task, TodoList};

#[test]
fn test_taskdata_display() {
    let note = "test note";
    let task = Task::new(note);
    assert_eq!(note, task.note());
}

#[test]
fn render_todo_and_done() {
    let t = Task::new("write spec");
    assert_eq!(t.render(), "- [ ] write spec");
    let d = t.check();
    assert_eq!(d.render(), "- [x] write spec");
}

#[test]
fn parse_render_round_trip() {
    let todo = Task::new("alpha");
    let back = Task::parse(&todo.render()).unwrap();
    assert_eq!(back.status(), Status::Todo);
    assert_eq!(back.note(), "alpha");

    let done = Task::new("beta").check();
    let back = Task::parse(&done.render()).unwrap();
    assert_eq!(back.status(), Status::Done);
    assert_eq!(back.note(), "beta");
}

#[test]
fn parse_accepts_empty_note() {
    let t = Task::parse("- [ ] ").unwrap();
    assert_eq!(t.status(), Status::Todo);
    assert_eq!(t.note(), "");
}

#[test]
fn parse_rejects_bad_lines() {
    assert!(Task::parse("").is_err());
    assert!(Task::parse("- [y] note").is_err());
    assert!(Task::parse("-[x] note").is_err());
    assert!(Task::parse("- [x]note").is_err());
    assert!(Task::parse("- [x]").is_err());
    assert!(Task::parse("* [x] note").is_err());
}

#[test]
fn parse_rejects_embedded_line_break() {
    assert!(Task::parse("- [ ] a\nb").is_err());
    assert!(Task::parse("- [x] a\n").is_err());
    assert!(Task::parse("- [ ] \n").is_err());
}

#[test]
fn check_is_idempotent() {
    let once = Task::new("a").check();
    let twice = Task::new("a").check().check();
    assert_eq!(once.status(), twice.status());
    assert_eq!(once.note(), twice.note());
    assert_eq!(twice.status(), Status::Done);
}

#[test]
fn undo_is_idempotent() {
    let once = Task::new("a").check().undo();
    let twice = Task::new("a").check().undo().undo();
    assert_eq!(once.status(), twice.status());
    assert_eq!(once.note(), twice.note());
    assert_eq!(twice.status(), Status::Todo);
}

#[test]
fn undo_inverts_check_from_todo() {
    let t = Task::new("a");
    assert_eq!(t.status(), Status::Todo);
    let back = t.check().undo();
    assert_eq!(back.status(), Status::Todo);
    assert_eq!(back.note(), "a");
}

#[test]
fn check_inverts_undo_from_done() {
    let d = Task::new("a").check();
    assert_eq!(d.status(), Status::Done);
    let back = d.undo().check();
    assert_eq!(back.status(), Status::Done);
    assert_eq!(back.note(), "a");
}

#[test]
fn undo_after_check_loses_done_status() {
    let d = Task::new("a").check();
    assert_eq!(d.status(), Status::Done);
    let back = d.check().undo();
    assert_eq!(back.status(), Status::Todo);
}

#[test]
fn check_after_undo_loses_todo_status() {
    let t = Task::new("a");
    assert_eq!(t.status(), Status::Todo);
    let back = t.undo().check();
    assert_eq!(back.status(), Status::Done);
}

#[test]
fn add_then_reload_keeps_task() {
    let mut list = TodoList::load("").unwrap();
    list.add("buy milk");
    let content = list.save();
    let reloaded = TodoList::load(&content).unwrap();
    assert_eq!(reloaded.len(), 1);
    let last = reloaded.get(reloaded.len() - 1);
    assert_eq!(last.status(), Status::Todo);
    assert_eq!(last.note(), "buy milk");
}

#[test]
fn reload_keeps_every_task_and_order() {
    let mut list = TodoList::load("").unwrap();
    list.add("a");
    list.add("b");
    list.add("c");
    assert_eq!(list.check(2), IndexOutcome::Applied);
    let content = list.save();
    let reloaded = TodoList::load(&content).unwrap();
    assert_eq!(reloaded.len(), 3);
    assert_eq!(reloaded.get(0).note(), "a");
    assert_eq!(reloaded.get(0).status(), Status::Todo);
    assert_eq!(reloaded.get(1).note(), "b");
    assert_eq!(reloaded.get(1).status(), Status::Done);
    assert_eq!(reloaded.get(2).note(), "c");
    assert_eq!(reloaded.get(2).status(), Status::Todo);
}

#[test]
fn cleanup_preserves_order_of_todos() {
    let mut list = TodoList::load("").unwrap();
    list.add("a");
    list.add("b");
    list.add("c");
    list.add("d");
    assert_eq!(list.check(2), IndexOutcome::Applied);
    assert_eq!(list.check(4), IndexOutcome::Applied);
    list.cleanup();
    assert_eq!(list.len(), 2);
    assert_eq!(list.get(0).note(), "a");
    assert_eq!(list.get(0).status(), Status::Todo);
    assert_eq!(list.get(1).note(), "c");
    assert_eq!(list.get(1).status(), Status::Todo);
}

#[test]
fn out_of_range_check_changes_nothing() {
    let mut list = TodoList::load("- [ ] a\n- [x] b\n").unwrap();
    let before = list.save();
    assert_eq!(list.check(0), IndexOutcome::OutOfRange);
    assert_eq!(list.save(), before);
    assert_eq!(list.check(3), IndexOutcome::OutOfRange);
    assert_eq!(list.save(), before);
    assert_eq!(list.undo(0), IndexOutcome::OutOfRange);
    assert_eq!(list.save(), before);
    assert_eq!(list.undo(3), IndexOutcome::OutOfRange);
    assert_eq!(list.save(), before);
    assert_eq!(list.remove(0), IndexOutcome::OutOfRange);
    assert_eq!(list.save(), before);
    assert_eq!(list.remove(3), IndexOutcome::OutOfRange);
    assert_eq!(list.save(), before);
}

#[test]
fn end_to_end_scenario() {
    let mut list = TodoList::load("").unwrap();
    list.add("write spec");
    assert_eq!(list.save(), "- [ ] write spec\n");
    assert_eq!(list.check(1), IndexOutcome::Applied);
    assert_eq!(list.save(), "- [x] write spec\n");
    list.cleanup();
    assert_eq!(list.save(), "");
    assert!(list.print_unchecked().is_empty());
}

#[test]
fn listing_keeps_full_list_indices() {
    let mut list = TodoList::load("").unwrap();
    list.add("a");
    list.add("b");
    list.add("c");
    assert_eq!(list.check(2), IndexOutcome::Applied);
    let lines = list.print_unchecked();
    assert_eq!(lines.len(), 2);
    assert_eq!(lines[0], " \u{1b}[2m1.\u{1b}[0m \u{1b}[31m✖\u{1b}[0m a");
    assert_eq!(lines[1], " \u{1b}[2m3.\u{1b}[0m \u{1b}[31m✖\u{1b}[0m c");
}

#[test]
fn listing_all_shows_done_tasks() {
    let mut list = TodoList::load("").unwrap();
    list.add("a");
    list.add("b");
    assert_eq!(list.check(2), IndexOutcome::Applied);
    let lines = list.print_all();
    assert_eq!(lines.len(), 2);
    assert_eq!(lines[0], " \u{1b}[2m1.\u{1b}[0m \u{1b}[31m✖\u{1b}[0m a");
    assert_eq!(lines[1], " \u{1b}[2m2.\u{1b}[0m \u{1b}[32m✓\u{1b}[0m b");
}

#[test]
fn listing_renders_two_digit_indices() {
    let mut list = TodoList::load("").unwrap();
    for i in 0..10 {
        list.add(&format!("task {}", i));
    }
    let lines = list.print_unchecked();
    assert_eq!(lines.len(), 10);
    assert_eq!(lines[9], " \u{1b}[2m10.\u{1b}[0m \u{1b}[31m✖\u{1b}[0m task 9");
}

#[test]
fn load_reports_first_bad_line() {
    let err = TodoList::load("garbage\n").unwrap_err();
    assert_eq!(err.line, 1);
    let err = TodoList::load("- [ ] a\nbad\n- [x] b\n").unwrap_err();
    assert_eq!(err.line, 2);
}

#[test]
fn load_skips_blank_lines() {
    let list = TodoList::load("- [ ] a\n\n- [x] b\n\n").unwrap();
    assert_eq!(list.len(), 2);
    assert_eq!(list.get(0).note(), "a");
    assert_eq!(list.get(1).note(), "b");
}

#[test]
fn load_accepts_missing_final_line_break() {
    let list = TodoList::load("- [ ] a").unwrap();
    assert_eq!(list.len(), 1);
    assert_eq!(list.get(0).note(), "a");
}

#[test]
fn remove_shifts_later_tasks_down() {
    let mut list = TodoList::load("- [ ] a\n- [x] b\n- [ ] c\n").unwrap();
    assert_eq!(list.remove(2), IndexOutcome::Applied);
    assert_eq!(list.len(), 2);
    assert_eq!(list.get(0).note(), "a");
    assert_eq!(list.get(1).note(), "c");
    assert_eq!(list.save(), "- [ ] a\n- [ ] c\n");
}

#[test]
fn check_and_undo_on_list() {
    let mut list = TodoList::load("- [ ] a\n- [ ] b\n").unwrap();
    assert_eq!(list.check(1), IndexOutcome::Applied);
    assert_eq!(list.get(0).status(), Status::Done);
    assert_eq!(list.get(1).status(), Status::Todo);
    assert_eq!(list.undo(1), IndexOutcome::Applied);
    assert_eq!(list.get(0).status(), Status::Todo);
    assert_eq!(list.save(), "- [ ] a\n- [ ] b\n");
}

#[test]
fn clear_removes_everything() {
    let mut list = TodoList::load("- [ ] a\n- [x] b\n").unwrap();
    list.clear();
    assert_eq!(list.len(), 0);
    assert_eq!(list.save(), "");
}

#[test]
fn cleanup_saves_even_when_nothing_changes() {
    let mut list = TodoList::load("- [ ] a\n").unwrap();
    list.cleanup();
    assert_eq!(list.len(), 1);
    assert_eq!(list.save(), "- [ ] a\n");
}
