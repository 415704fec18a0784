//! The table fitted to a width.

use notcron::ui::table::{header, optional, plan, row, Cells, Col, NAME_MAX};

fn cells() -> Cells {
    Cells {
        name: "notcron-backup.timer".into(),
        last: "exit 2".into(),
        next: "in 1h 49m".into(),
        state: "failed".into(),
        schedule: "*-*-* 03:00:00".into(),
        enabled: "enabled".into(),
        kind: "timer".into(),
    }
}

/// The bounds test that matters: nothing the table renders may ever be
/// wider than the space it was given, at any width at all.
#[test]
fn no_plan_or_row_ever_exceeds_its_width() {
    for w in 0..=250usize {
        let p = plan(w);
        assert!(p.total() <= w, "plan for {w} totals {}", p.total());
        assert!(p.has(Col::Name), "{w}: the name column is not optional");
        for (c, cw) in &p.cols {
            assert!(*cw <= w, "{w}: {c:?} is {cw} wide");
        }
        let r = row(&p, '>', &cells());
        assert!(r.chars().count() <= w, "row for {w}: {:?}", r);
        let h = header(&p);
        assert!(h.chars().count() <= w, "header for {w}: {:?}", h);
    }
}

/// A cell longer than its column is truncated, never wrapped, and never
/// pushes the columns after it out of alignment.
#[test]
fn overlong_cells_are_truncated_in_place() {
    let p = plan(120);
    let c = Cells {
        name: "a".repeat(300),
        last: "b".repeat(300),
        next: "c".repeat(300),
        state: "d".repeat(300),
        schedule: "e".repeat(300),
        enabled: "f".repeat(300),
        kind: "g".repeat(300),
    };
    let r = row(&p, '>', &c);
    // Every column is full, so the row fills its width exactly.
    assert_eq!(r.chars().count(), p.total());
    assert!(!r.contains('\n'));
    // A short value in the final column simply leaves the tail blank.
    let short = row(&p, '>', &cells());
    assert!(short.chars().count() <= p.total());
}

/// Empty cells still hold their columns open, so a row with nothing to
/// say lines up with the rows around it.
#[test]
fn empty_cells_keep_the_columns_aligned() {
    let p = plan(120);
    let mut short = cells();
    short.name = "a".into();
    let a = row(&p, '>', &cells());
    let b = row(&p, '>', &short);
    // "exit 2" is in the Last column in both, at the same offset.
    assert_eq!(a.find("exit 2"), b.find("exit 2"));
    assert!(a.find("exit 2").is_some());
    // A row whose cells are all empty is pure padding, then nothing.
    assert_eq!(row(&p, ' ', &Cells::default()).trim(), "");
}

#[test]
fn columns_are_dropped_in_reverse_priority_as_the_terminal_narrows() {
    // Wide: everything.
    let wide = plan(160);
    for c in optional() {
        assert!(wide.has(c), "{c:?} missing at 160");
    }
    // 80 columns: the health columns survive, which is the requirement.
    let eighty = plan(80);
    assert!(eighty.has(Col::Last) && eighty.has(Col::Next));
    assert!(eighty.has(Col::State));
    // Narrow: the health columns are the last to go.
    let sixty = plan(60);
    assert!(sixty.has(Col::Last) && sixty.has(Col::Next));
    assert!(!sixty.has(Col::Schedule), "{:?}", sixty.cols);
    let forty = plan(40);
    assert!(forty.has(Col::Last));
    assert!(!forty.has(Col::State), "{:?}", forty.cols);
    // Very narrow: the name, and at most the last-run outcome.
    assert!(plan(20).cols.len() <= 2, "{:?}", plan(20).cols);
    assert_eq!(plan(12).cols.len(), 1, "{:?}", plan(12).cols);
}

/// Narrowing the terminal must only ever remove columns, never add one --
/// otherwise the layout flickers as it is resized.
#[test]
fn column_sets_only_shrink_as_the_width_shrinks() {
    let mut previous: Vec<Col> = plan(250).cols.iter().map(|(c, _)| *c).collect();
    for w in (0..=250usize).rev() {
        let now: Vec<Col> = plan(w).cols.iter().map(|(c, _)| *c).collect();
        for c in &now {
            assert!(previous.contains(c), "{w}: {c:?} appeared as it narrowed");
        }
        previous = now;
    }
}

#[test]
fn the_name_column_takes_the_slack_on_a_wide_terminal() {
    assert!(plan(200).width_of(Col::Name) >= 40);
    // ...but not without limit; the schedule gets the rest.
    assert_eq!(plan(250).width_of(Col::Name), NAME_MAX);
    assert!(plan(250).width_of(Col::Schedule) > Col::Schedule.min_width());
}

#[test]
fn every_column_has_a_title_that_fits_its_minimum() {
    for c in optional().iter().chain(std::iter::once(&Col::Name)) {
        assert!(
            c.title().len() <= c.min_width(),
            "{c:?}: {:?} does not fit {}",
            c.title(),
            c.min_width()
        );
    }
}

#[test]
fn the_marker_column_shows_the_selection() {
    let p = plan(100);
    assert!(row(&p, '>', &cells()).starts_with(" > "));
    assert!(row(&p, ' ', &cells()).starts_with("   "));
}

#[test]
fn degenerate_widths_do_not_panic() {
    for w in [0usize, 1, 2, 3, 4] {
        let p = plan(w);
        assert!(p.total() <= w);
        assert!(row(&p, '>', &cells()).chars().count() <= w);
    }
}

#[test]
fn the_header_names_exactly_the_columns_that_are_shown() {
    let p = plan(160);
    let h = header(&p);
    for (c, _) in &p.cols {
        assert!(h.contains(c.title()), "{:?} missing from {h:?}", c);
    }
    let narrow = header(&plan(45));
    assert!(!narrow.contains("SCHEDULE"), "{narrow}");
}
