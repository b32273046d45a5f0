use format_date_for_irs::Watcher;

#[test]
fn unchanged_content_is_ignored() {
    // Content equal to the baseline is a no-op tick, even when it would
    // parse as a date.
    let mut w = Watcher::new(String::from("01/02/21"));
    assert_eq!(w.observe(String::from("01/02/21")), None);
}

#[test]
fn changed_date_is_written_back() {
    let mut w = Watcher::new(String::from("hello"));
    let written = w.observe(String::from("01/02/21"));
    assert_eq!(written, Some(String::from("01/02/2021")));
}

#[test]
fn changed_non_date_is_left_alone() {
    let mut w = Watcher::new(String::from("hello"));
    assert_eq!(w.observe(String::from("notadate")), None);
    assert_eq!(w.observe(String::from("13/32/22")), None);
}

#[test]
fn baseline_follows_every_change() {
    let mut w = Watcher::new(String::from("hello"));
    assert_eq!(w.observe(String::from("notadate")), None);
    // The non-date became the baseline: seeing it again is a no-op tick.
    assert_eq!(w.observe(String::from("notadate")), None);
}

#[test]
fn write_back_causes_no_second_transformation() {
    let mut w = Watcher::new(String::from("hello"));
    let written = w.observe(String::from(" 12/31/23 ")).unwrap();
    assert_eq!(written, "12/31/2023");
    // The next poll sees the formatted text the loop just wrote. It differs
    // from the baseline (the pre-transform value), but the four-digit year
    // does not re-parse, so nothing further is written.
    assert_eq!(w.observe(written), None);
}

#[test]
fn trimmed_change_is_transformed() {
    let mut w = Watcher::new(String::from(""));
    let written = w.observe(String::from(" 01/02/21 "));
    assert_eq!(written, Some(String::from("01/02/2021")));
}
