use todor::codec::{parse, serialize, Level, TaskRecord};

fn rec(text: &str, completed: bool, level: Level) -> TaskRecord {
    TaskRecord { text: text.to_string(), completed, level }
}

#[test]
fn test_parse_titles_and_checkboxes() {
    let doc = "# my box\n\nprose is dropped\n- [ ] open major\n- [x] done major\n  - [ ] open sub\n\t- [X] done sub\n- [?] bad mark dropped\n";
    let (title, records) = parse(doc);
    assert_eq!(title, "my box");
    let got: Vec<(&str, bool, bool)> = records
        .iter()
        .map(|r| (r.text.as_str(), r.completed, matches!(r.level, Level::Sub)))
        .collect();
    assert_eq!(
        got,
        vec![
            ("open major", false, false),
            ("done major", true, false),
            ("open sub", false, true),
            ("done sub", true, true),
        ],
    );
}

#[test]
fn test_serialize_layout() {
    let records = vec![
        rec("one", false, Level::Major),
        rec("two", true, Level::Major),
        rec("child", false, Level::Sub),
    ];
    let text = serialize("box", &records);
    assert_eq!(text, "# box\n\n- [ ] one\n- [x] two\n  - [ ] child\n");
}

#[test]
fn test_round_trip() {
    let records = vec![
        rec("alpha", false, Level::Major),
        rec("beta", true, Level::Major),
        rec("gamma", false, Level::Sub),
        rec("delta", true, Level::Sub),
        rec("epsilon", false, Level::Major),
    ];
    let text = serialize("box", &records);
    let (title, back) = parse(&text);
    assert_eq!(title, "box");
    assert_eq!(back.len(), records.len());
    for (a, b) in back.iter().zip(records.iter()) {
        assert_eq!(a.text, b.text);
        assert_eq!(a.completed, b.completed);
        assert_eq!(matches!(a.level, Level::Sub), matches!(b.level, Level::Sub));
    }
}

#[test]
fn test_duplicate_open_majors_get_padding() {
    // Identically-texted open majors are disambiguated with invisible
    // trailing padding, so text-equality operations keep them apart.
    let doc = "# b\n\n- [ ] Task\n- [ ] Task\n- [ ] Task\n- [x] Task\n";
    let (_, records) = parse(doc);
    assert_eq!(records[0].text, "Task");
    assert_eq!(records[1].text, "Task ");
    assert_eq!(records[2].text, "Task  ");
    // Done records are left alone.
    assert_eq!(records[3].text, "Task");
    // The padding is reintroduced on a round trip: it never reaches disk.
    let text = serialize("b", &records);
    assert_eq!(text, doc);
}

#[test]
fn test_title_hand_edits_are_trimmed() {
    let (title, _) = parse("# # doubled\n");
    assert_eq!(title, "doubled");
    let (title2, records2) = parse("");
    assert_eq!(title2, "");
    assert_eq!(records2.len(), 0);
}
