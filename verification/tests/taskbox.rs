use todor::cli::Routine;
use todor::clock::{get_today, get_tomorrow, today_date};
use todor::date::Date;
use todor::taskbox::{import_tasks, TaskBox};

fn boxed(name: &str, doc: &str, today: &Date) -> TaskBox {
    let mut tb = TaskBox::new(name.to_string(), false);
    tb.load(doc, today);
    tb
}

fn empty_box(name: &str, today: &Date) -> TaskBox {
    let doc = format!("# {}\n\n", name);
    boxed(name, &doc, today)
}

fn reload(tb: &mut TaskBox, today: &Date) {
    let text = tb.dump();
    tb.load(&text, today);
}

#[test]
fn test_taskbox_new() {
    let tb = TaskBox::new("test".to_string(), false);
    assert_eq!(tb.name, "test");
    assert_eq!(tb.alias, None);
    assert_eq!(tb.records.len(), 0);
}

#[test]
fn test_add_and_list() {
    let today = today_date();
    let mut tb = empty_box("test", &today);
    tb.add("Test task".to_string(), None, false, "", &today);
    tb.add("Test task with date".to_string(), None, true, "", &today);

    reload(&mut tb, &today);
    assert_eq!(tb.records.len(), 2);
    assert!(tb.records.iter().any(|r| r.text == "Test task" && !r.completed));
    assert!(tb.records.iter().any(|r| r.text.starts_with("Test task with date")));
}

#[test]
fn test_mark() {
    let today = today_date();
    let mut tb = empty_box("test", &today);
    tb.add("Task 1".to_string(), None, false, "", &today);
    tb.add("Task 2".to_string(), None, false, "", &today);
    tb.add("Task 3".to_string(), None, false, "", &today);

    tb.mark(vec!["Task 1".to_string(), "Task 3".to_string()], false);
    reload(&mut tb, &today);
    assert_eq!(tb.records.iter().filter(|r| r.completed).count(), 2);
    assert_eq!(tb.records.iter().filter(|r| !r.completed).count(), 1);
}

#[test]
fn test_mark_and_delete() {
    let today = today_date();
    let mut tb = empty_box("test", &today);
    tb.add("Task 1".to_string(), None, false, "", &today);
    tb.add("Task 2".to_string(), None, false, "", &today);
    tb.add("Task 3".to_string(), None, false, "", &today);

    tb.mark(vec!["Task 1".to_string(), "Task 3".to_string()], true);
    reload(&mut tb, &today);
    assert_eq!(tb.records.iter().filter(|r| r.completed).count(), 0);
    assert_eq!(tb.records.iter().filter(|r| !r.completed).count(), 1);
}

#[test]
fn test_purge() {
    let today = today_date();
    let mut tb = empty_box("test", &today);
    tb.add("Task 1".to_string(), None, false, "", &today);
    tb.add("Task 1".to_string(), None, false, "", &today);
    tb.add("Task 3".to_string(), None, false, "", &today);

    tb.purge(false);
    reload(&mut tb, &today);
    assert_eq!(tb.records.len(), 2);
}

#[test]
fn test_collect_from_basic() {
    let today = today_date();
    let test1_input = "# test1\n\n- [ ] Task to move\n- [x] Task not to move\n- [ ] Task2 to move\n";
    let mut tb1 = boxed("test1", test1_input, &today);
    let mut tb2 = empty_box("test2", &today);
    assert_eq!(tb1.records.len(), 3);

    tb2.collect_from(&mut tb1, &today);

    reload(&mut tb2, &today);
    assert_eq!(tb2.records.len(), 2);
    assert_eq!(tb2.records[0].text, "Task to move");
    assert_eq!(tb2.records[1].text, "Task2 to move");

    reload(&mut tb1, &today);
    assert_eq!(tb1.records.len(), 1);
    assert_eq!(tb1.records[0].text, "Task not to move");
    assert!(tb1.records[0].completed);
}

#[test]
fn test_collect_from_with_warn_msg() {
    let today = today_date();
    let mut tb1 = empty_box("test1", &today);
    let mut tb2 = empty_box("test2", &today);

    tb1.add("Task to move".to_string(), None, false, "", &today);
    tb1.add("Daily routine".to_string(), Some(Routine::Daily), false, "", &today);
    reload(&mut tb1, &today);
    assert_eq!(tb1.records.len(), 2);

    tb2.collect_from(&mut tb1, &today);
    reload(&mut tb2, &today);
    assert_eq!(tb2.records.len(), 2);
    assert_eq!(tb2.records[0].text, "Task to move");
    assert!(tb2.records[1].text.starts_with("{\u{f00ef}:d "));
    assert!(tb2.records[1].text.ends_with("} Daily routine"));

    reload(&mut tb1, &today);
    assert_eq!(tb1.records.len(), 0);
}

#[test]
fn test_collect_from_with_sub() {
    let today = today_date();
    let test1_input = "# test1\n\n- [ ] Task to move\n  - [ ] SubTask1 to move\n";
    let test1_output = "# test1\n\n";
    let test2_output = "# test2\n\n- [ ] Task to move\n  - [ ] SubTask1 to move\n";

    let mut tb1 = boxed("test1", test1_input, &today);
    let mut tb2 = empty_box("test2", &today);
    assert_eq!(tb1.records.len(), 2);

    tb2.collect_from(&mut tb1, &today);

    let test1_actual = tb1.dump();
    assert_eq!(test1_output, test1_actual);

    let test2_actual = tb2.dump();
    assert_eq!(test2_output, test2_actual);
}

#[test]
fn test_collect_from_with_sub_done() {
    let today = today_date();
    let test1_input = "# test1\n\n- [ ] Task to move but keep with \"done\" status\n  - [x] SubTask1 NOT move\n- [ ] Task2 to move\n- [ ] Task3 to move but keep with \"done\" status\n  - [ ] SubTask1 to move\n  - [x] SubTask2 NOT move\n- [x] Task4 NOT move\n  - [x] SubTask1 NOT move\n- [x] Task5 to move with warning icon\n  - [ ] SubTask1 to move\n  - [x] SubTask2 NOT move\n  - [ ] SubTask3 to move\n";
    let test1_output = "# test1\n\n- [x] Task to move but keep with \"done\" status\n  - [x] SubTask1 NOT move\n- [x] Task3 to move but keep with \"done\" status\n  - [x] SubTask2 NOT move\n- [x] Task4 NOT move\n  - [x] SubTask1 NOT move\n- [x] Task5 to move with warning icon\n  - [x] SubTask2 NOT move\n";
    let test2_output = "# test2\n\n- [ ] Task to move but keep with \"done\" status\n- [ ] Task2 to move\n- [ ] Task3 to move but keep with \"done\" status\n  - [ ] SubTask1 to move\n- [ ] \u{f0f08} Task5 to move with warning icon\n  - [ ] SubTask1 to move\n  - [ ] SubTask3 to move\n";

    let mut tb1 = boxed("test1", test1_input, &today);
    let mut tb2 = empty_box("test2", &today);

    tb2.collect_from(&mut tb1, &today);

    let test1_actual = tb1.dump();
    assert_eq!(test1_output, test1_actual);

    let test2_actual = tb2.dump();
    assert_eq!(test2_output, test2_actual);
}

#[test]
fn test_add_routine() {
    let today = today_date();
    let mut tb = empty_box("test", &today);
    tb.add("Daily routine".to_string(), Some(Routine::Daily), false, &get_today(), &today);

    reload(&mut tb, &today);
    assert_eq!(tb.records.len(), 1);
    assert!(tb.records[0].text.starts_with("{\u{f00ef}:d "));
    assert!(tb.records[0].text.ends_with("} Daily routine"));
}

#[test]
fn test_checkout() {
    let today = today_date();
    let mut tb = empty_box("test", &today);
    let mut today_box = empty_box(&get_today(), &today);
    let mut routine = empty_box("ROUTINES", &today);

    routine.add("Daily routine".to_string(), Some(Routine::Daily), false, &get_today(), &today);
    // two reminders
    routine.add("reminder today".to_string(), Some(Routine::Once), false, &get_today(), &today);
    routine.add(
        "reminder tomorrow".to_string(),
        Some(Routine::Once),
        false,
        &get_tomorrow(),
        &today,
    );
    routine.add("ignore not routine".to_string(), None, false, "", &today);

    reload(&mut routine, &today);
    assert_eq!(routine.records.len(), 4);
    assert!(routine.records[0].text.starts_with("{\u{f00ef}:d "));
    assert!(routine.records[0].text.ends_with("} Daily routine"));
    assert!(routine.records[1].text.starts_with("{\u{f00ef}:1 "));
    assert!(routine.records[1].text.ends_with("} reminder today"));
    assert!(routine.records[2].text.starts_with("{\u{f00ef}:1 "));
    assert!(routine.records[2].text.ends_with("} reminder tomorrow"));

    today_box.collect_from(&mut routine, &today);

    reload(&mut today_box, &today);
    assert_eq!(today_box.records.len(), 2);
    assert!(today_box.records[0].text.starts_with("{\u{f00ef}:daily} "));
    assert!(today_box.records[0].text.contains("} Daily routine"));
    assert!(today_box.records[0].text.contains(" [\u{f0d39} "));
    assert!(today_box.records[1].text.starts_with("{\u{f00ef}:reminder} "));
    assert!(today_box.records[1].text.contains("} reminder today"));
    assert!(today_box.records[1].text.contains(" [\u{f0d39} "));

    tb.collect_from(&mut routine, &today);
    reload(&mut tb, &today);
    assert_eq!(tb.records.len(), 0);

    reload(&mut routine, &today);
    assert_eq!(routine.records.len(), 3);
}

#[test]
fn test_pool_today_to_inbox() {
    let today = today_date();
    let today_input = format!("# {}\n\n- [ ] Task to move\n", get_today());

    let mut today_box = boxed(&get_today(), &today_input, &today);
    let mut routine = empty_box("ROUTINES", &today);
    let mut inbox = empty_box("INBOX", &today);

    today_box.add("Wrong daily routine".to_string(), Some(Routine::Daily), false, &get_today(), &today);
    inbox.add("old task".to_string(), None, false, "", &today);
    routine.add("Daily routine".to_string(), Some(Routine::Daily), false, &get_today(), &today);

    reload(&mut today_box, &today);
    reload(&mut inbox, &today);
    reload(&mut routine, &today);
    assert_eq!(today_box.records.len(), 2);
    assert_eq!(inbox.records.len(), 1);
    assert_eq!(routine.records.len(), 1);

    // check out
    today_box.collect_from(&mut routine, &today);

    reload(&mut today_box, &today);
    reload(&mut inbox, &today);
    reload(&mut routine, &today);
    assert_eq!(today_box.records.len(), 3);
    assert_eq!(inbox.records.len(), 1);
    assert_eq!(routine.records.len(), 1);

    // pool
    inbox.collect_from(&mut today_box, &today);

    reload(&mut today_box, &today);
    reload(&mut inbox, &today);
    assert_eq!(today_box.records.len(), 1);
    assert_eq!(inbox.records.len(), 3);
}

#[test]
fn test_import_somefile_to_inbox() {
    let today = today_date();
    let md_input = "# free style file\n\n- [ ] Task to import\n        - [ ] Task to import with blank\n## below one is a duplicated, will ingore\n- [ ] Task to import\n- [ ] Task2 to import\n- [ ] {\u{f00ef}:d 2024-10-01Tue \u{f0cdf}} one daily to import\n- [ ] {\u{f00ef}:m 2024-10-31Mon \u{f0cdf}} one montly to import\n";

    let mut inbox = empty_box("INBOX", &today);
    let mut routine = empty_box("ROUTINES", &today);

    inbox.add("old task".to_string(), None, false, "", &today);
    routine.add("old Daily routine".to_string(), Some(Routine::Daily), false, "", &today);
    reload(&mut inbox, &today);
    reload(&mut routine, &today);
    assert_eq!(inbox.records.len(), 1);
    assert_eq!(routine.records.len(), 1);

    let (newt, newr) = import_tasks(md_input);
    inbox.add_tasks(newt);
    routine.add_tasks(newr);
    reload(&mut inbox, &today);
    reload(&mut routine, &today);
    assert_eq!(inbox.records.len(), 4);
    assert_eq!(routine.records.len(), 3);
}

#[test]
fn test_basic_move_scenario() {
    // An open major moves, a done major stays, order is preserved.
    let today = Date { year: 2024, month: 10, day: 5 };
    let src_doc = "# src\n\n- [ ] Task to move\n- [x] Task not to move\n- [ ] Task2 to move\n";
    let mut src = boxed("src", src_doc, &today);
    let mut dst = empty_box("dst", &today);

    dst.collect_from(&mut src, &today);

    let open: Vec<&str> = dst.records.iter().filter(|r| !r.completed).map(|r| r.text.as_str()).collect();
    assert_eq!(open, vec!["Task to move", "Task2 to move"]);
    assert_eq!(src.records.len(), 1);
    assert_eq!(src.records[0].text, "Task not to move");
    assert!(src.records[0].completed);
}

#[test]
fn test_hierarchy_open_child_scenario() {
    // A major with an open sub moves whole; the source block empties.
    let today = Date { year: 2024, month: 10, day: 5 };
    let src_doc = "# src\n\n- [ ] Task to move\n  - [ ] SubTask1 to move\n";
    let mut src = boxed("src", src_doc, &today);
    let mut dst = empty_box("dst", &today);

    dst.collect_from(&mut src, &today);

    assert_eq!(src.records.len(), 0);
    assert_eq!(dst.records.len(), 2);
    assert_eq!(dst.records[0].text, "Task to move");
    assert!(!dst.records[0].completed);
    assert_eq!(dst.records[1].text, "SubTask1 to move");
    assert!(!dst.records[1].completed);
}

#[test]
fn test_hierarchy_done_child_archival_scenario() {
    // A major whose block shows a completed sub survives in the source
    // flipped to completed, beside its done sub; the done sub never moves.
    let today = Date { year: 2024, month: 10, day: 5 };
    let src_doc = "# src\n\n- [ ] Task to move but keep with done status\n  - [x] SubTask1 NOT move\n";
    let mut src = boxed("src", src_doc, &today);
    let mut dst = empty_box("dst", &today);

    dst.collect_from(&mut src, &today);

    assert_eq!(src.records.len(), 2);
    assert_eq!(src.records[0].text, "Task to move but keep with done status");
    assert!(src.records[0].completed);
    assert_eq!(src.records[1].text, "SubTask1 NOT move");
    assert!(src.records[1].completed);
    // The moved item itself still lands in the destination as open text.
    assert!(dst.records.iter().all(|r| r.text != "SubTask1 NOT move"));
}

#[test]
fn test_routine_catch_up_scenario() {
    // A daily routine anchored five days back fires exactly once.
    let target = Date { year: 2024, month: 10, day: 6 };
    let routine_doc = "# ROUTINES\n\n- [ ] {\u{f00ef}:d 2024-10-01Tue \u{f0cdf}} Daily routine\n";
    let mut routine = boxed("ROUTINES", routine_doc, &target);
    let mut day_box = empty_box("2024-10-06", &target);
    assert_eq!(day_box.alias, Some(todor::taskbox::Alias::Today));

    day_box.collect_from(&mut routine, &target);

    assert_eq!(day_box.records.len(), 1);
    assert_eq!(
        day_box.records[0].text,
        "{\u{f00ef}:daily} Daily routine [\u{f0d39} 2024-10-06]",
    );
    // The template entry stays for future periods.
    assert_eq!(routine.records.len(), 1);
}

#[test]
fn test_once_consumed_scenario() {
    // A one-shot routine fires on its exact anchor date and is gone from
    // the template afterwards; a later checkout finds nothing.
    let anchor_day = Date { year: 2024, month: 10, day: 6 };
    let routine_doc = "# ROUTINES\n\n- [ ] {\u{f00ef}:1 2024-10-06Sun \u{f0cdf}} pay the rent\n";
    let mut routine = boxed("ROUTINES", routine_doc, &anchor_day);
    let mut day_box = empty_box("2024-10-06", &anchor_day);

    day_box.collect_from(&mut routine, &anchor_day);

    assert_eq!(day_box.records.len(), 1);
    assert_eq!(
        day_box.records[0].text,
        "{\u{f00ef}:reminder} pay the rent [\u{f0d39} 2024-10-06]",
    );
    assert_eq!(routine.records.len(), 0);

    // Checking out again on a later date neither fires nor reappears.
    let later = Date { year: 2024, month: 10, day: 7 };
    let mut text = routine.dump();
    let mut routine2 = TaskBox::new("ROUTINES".to_string(), false);
    routine2.load(&text, &later);
    let mut later_box = empty_box("2024-10-07", &later);
    later_box.collect_from(&mut routine2, &later);
    assert_eq!(later_box.records.len(), 0);
    assert_eq!(routine2.records.len(), 0);
    text = routine2.dump();
    assert_eq!(text, "# ROUTINES\n\n");
}

#[test]
fn test_empty_selection_is_noop() {
    let today = Date { year: 2024, month: 10, day: 5 };
    let src_doc = "# src\n\n- [ ] Task one\n- [ ] Task two\n";
    let mut src = boxed("src", src_doc, &today);
    src.selected = Some(Vec::new());
    let mut dst = empty_box("dst", &today);

    dst.collect_from(&mut src, &today);

    assert_eq!(src.records.len(), 2);
    assert_eq!(dst.records.len(), 0);
}

#[test]
fn test_selection_restricts_move() {
    let today = Date { year: 2024, month: 10, day: 5 };
    let src_doc = "# src\n\n- [ ] Task one\n- [ ] Task two\n";
    let mut src = boxed("src", src_doc, &today);
    src.selected = Some(vec!["Task two".to_string()]);
    let mut dst = empty_box("dst", &today);

    dst.collect_from(&mut src, &today);

    assert_eq!(src.records.len(), 1);
    assert_eq!(src.records[0].text, "Task one");
    assert_eq!(dst.records.len(), 1);
    assert_eq!(dst.records[0].text, "Task two");
}

#[test]
fn test_checked_out_routine_not_pooled_into_inbox() {
    let today = Date { year: 2024, month: 10, day: 5 };
    let src_doc =
        "# 2024-10-05\n\n- [ ] plain task\n- [ ] {\u{f00ef}:daily} Daily routine [\u{f0d39} 2024-10-05]\n";
    let mut src = boxed("2024-10-05", src_doc, &today);
    let mut inbox = empty_box("INBOX", &today);

    inbox.collect_from(&mut src, &today);

    assert_eq!(inbox.records.len(), 1);
    assert_eq!(inbox.records[0].text, "plain task");
    assert_eq!(src.records.len(), 1);
    assert!(src.records[0].text.starts_with("{\u{f00ef}:daily} "));
}

#[test]
fn test_warning_item_for_done_major_with_open_sub() {
    let today = Date { year: 2024, month: 10, day: 5 };
    let doc = "# b\n\n- [x] Closed major\n  - [ ] open child\n- [x] Finished major\n  - [x] finished child\n";
    let tb = boxed("b", doc, &today);

    let (open, done) = tb.get_all_todos();
    assert_eq!(open.len(), 2);
    assert_eq!(open[0], "\u{f0f08} Closed major");
    assert_eq!(open[1], " \u{f17a9} open child");
    assert_eq!(done.len(), 3);
    // No warning for the fully finished block.
    assert!(done.iter().all(|t| !t.starts_with("\u{f0f08}")));
}

#[test]
fn test_purge_open_dominates_and_sort() {
    let today = Date { year: 2024, month: 10, day: 5 };
    let doc = "# b\n\n- [x] alpha\n- [ ] beta\n- [ ] alpha\n- [x] beta\n- [x] gamma\n";
    let mut tb = boxed("b", doc, &today);

    tb.purge(true);
    let texts: Vec<&str> = tb.records.iter().map(|r| r.text.as_str()).collect();
    // Duplicates collapse to first occurrences; "alpha" had an open
    // duplicate so it survives open; completed records sort first.
    assert_eq!(texts, vec!["gamma", "alpha", "beta"]);
    assert!(tb.records[0].completed);
    assert!(!tb.records[1].completed);
    assert!(!tb.records[2].completed);
}

#[test]
fn test_count_open_records() {
    let today = Date { year: 2024, month: 10, day: 5 };
    let doc = "# b\n\n- [ ] one\n- [x] two\n  - [ ] three\n";
    let tb = boxed("b", doc, &today);
    assert_eq!(tb.count(), 2);
}

#[test]
fn test_load_is_idempotent() {
    let today = Date { year: 2024, month: 10, day: 5 };
    let mut tb = boxed("b", "# b\n\n- [ ] one\n", &today);
    assert_eq!(tb.records.len(), 1);

    // A second load must not re-read: different text, no effect.
    tb.load("# b\n\n- [ ] one\n- [ ] two\n", &today);
    assert_eq!(tb.records.len(), 1);
}
