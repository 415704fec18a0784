//! The mount option menu.

use notcron::fieldhelp::Entry;
use notcron::ui::optmenu::{
    check_value, label, menu_rect, summary, value_hint, Menu, Row, State,
};
use notcron::ui::term::{Key, KeyCode, Rect};
use notcron::ui::wrap::wrap;
use notcron::unit::model::MountPreset;
use notcron::unit::mountopts;
use notcron::unit::mountopts::{Family, Kind};

/// A help document with an entry for every option on offer.
fn doc() -> Vec<Entry> {
    let mut out: Vec<Entry> = Vec::new();
    for f in [Family::Generic, Family::Nfs, Family::Cifs, Family::Bind] {
        for s in mountopts::offered(f) {
            let example = if s.kind == Kind::Value {
                format!("{}=600", s.key)
            } else {
                s.key.to_string()
            };
            out.push(Entry {
                key: s.help.to_string(),
                label: s.key.to_string(),
                summary: format!("What {} does.", s.key),
                detail: String::new(),
                examples: example,
            });
        }
    }
    out
}

fn state(options: &str, fstype: &str) -> State {
    State::new(options, fstype)
}

#[test]
fn the_menu_lists_the_generic_set_plus_the_family_extras() {
    let st = state("", "nfs");
    let keys: Vec<&str> = st
        .rows
        .iter()
        .filter_map(|r| match r {
            Row::Opt(s) => Some(s.key),
            _ => None,
        })
        .collect();
    assert_eq!(keys.len(), mountopts::generic().len() + mountopts::nfs().len());
    assert!(keys.starts_with(&["ro", "rw"]));
    assert!(keys.contains(&"soft") && keys.contains(&"retrans"));
    assert!(!keys.contains(&"credentials"));

    // A plain block device gets no extras block at all.
    let st = state("", "ext4");
    assert_eq!(
        st.rows
            .iter()
            .filter(|r| matches!(r, Row::Heading(_)))
            .count(),
        2,
        "generic + 'anything else' only"
    );
}

#[test]
fn every_menu_always_offers_the_free_text_entry_and_the_automount_note() {
    for p in MountPreset::all() {
        let st = state(p.options(), p.fstype());
        assert!(st.rows.contains(&Row::Extras), "{}", p.label());
        assert!(
            st.rows
                .iter()
                .any(|r| matches!(r, Row::Note(n) if n.contains("automount"))),
            "{}",
            p.label()
        );
    }
}

#[test]
fn labels_show_state_values_and_placeholders() {
    let st = state("rw,vers=4.2,x-systemd.automount", "nfs");
    let find = |key: &str| {
        st.rows
            .iter()
            .find(|r| matches!(r, Row::Opt(s) if s.key == key))
            .map(|r| label(&st.set, r))
            .expect(key)
    };
    assert_eq!(find("rw"), "[x] rw");
    assert_eq!(find("ro"), "[ ] ro");
    assert_eq!(find("vers"), "[x] vers=4.2");
    assert_eq!(find("timeo"), "[ ] timeo=\u{2026}");
    assert_eq!(
        label(&st.set, &Row::Extras),
        "[x] other options   x-systemd.automount"
    );
    let empty = state("rw", "ext4");
    assert_eq!(label(&empty.set, &Row::Extras), "[ ] other options");
}

#[test]
fn every_option_row_has_a_summary_to_show() {
    for fstype in ["ext4", "nfs", "cifs", "none"] {
        let st = state("", fstype);
        for r in &st.rows {
            if matches!(r, Row::Opt(_)) {
                assert!(!summary(r, &doc()).is_empty(), "{}", label(&st.set, r));
            }
        }
    }
}

#[test]
fn movement_skips_headings_and_notes_and_stops_at_the_ends() {
    let mut st = state("", "cifs");
    assert!(st.rows[st.sel].selectable());
    // Walking the whole menu never lands on an unselectable row.
    for _ in 0..st.rows.len() * 2 {
        st.step(1);
        assert!(st.rows[st.sel].selectable());
    }
    // The last selectable row is Extras (the note sits below it).
    assert_eq!(st.rows[st.sel], Row::Extras);
    for _ in 0..st.rows.len() * 2 {
        st.step(-1);
        assert!(st.rows[st.sel].selectable());
    }
    assert!(matches!(&st.rows[st.sel], Row::Opt(s) if s.key == "ro"));
    st.last();
    assert_eq!(st.rows[st.sel], Row::Extras);
    st.first();
    assert!(matches!(&st.rows[st.sel], Row::Opt(s) if s.key == "ro"));
}

#[test]
fn menu_rect_never_leaves_the_frame() {
    for w in 0..12u16 {
        for h in 0..12u16 {
            let a = Rect {
                x: 2,
                y: 3,
                width: w,
                height: h,
            };
            let r = menu_rect(a);
            assert!(r.x >= a.x && r.y >= a.y, "{w}x{h}");
            assert!(r.x + r.width <= a.x + a.width, "{w}x{h}");
            assert!(r.y + r.height <= a.y + a.height, "{w}x{h}");
        }
    }
    let zero = Rect {
        x: 0,
        y: 0,
        width: 0,
        height: 0,
    };
    assert_eq!((menu_rect(zero).width, menu_rect(zero).height), (0, 0));
}

#[test]
fn help_wrapping_respects_the_width_and_keeps_the_words() {
    let src = "one two three four five six seven eight nine ten";
    let out = wrap(src, 20);
    for line in out.lines() {
        assert!(line.chars().count() <= 20, "{line:?}");
    }
    assert_eq!(
        out.split_whitespace().collect::<Vec<_>>(),
        src.split_whitespace().collect::<Vec<_>>()
    );
    // Blank lines between paragraphs survive.
    assert!(wrap("a\n\nb", 20).contains("\n\n"));
}

#[test]
fn a_credentials_option_is_wired_to_the_picker() {
    let spec = mountopts::spec_for(Family::Cifs, "credentials").expect("credentials");
    assert!(spec.path, "credentials= must offer the file picker");
    // And nothing else claims to be a path, so the picker never opens
    // where typing is the only sensible route.
    for f in [Family::Generic, Family::Nfs, Family::Cifs, Family::Bind] {
        for s in mountopts::offered(f) {
            assert_eq!(s.path, s.key == "credentials", "{}", s.key);
        }
    }
}

#[test]
fn optmenu_draws_at_every_size_without_panicking() {
    for (options, fstype) in [
        ("", "ext4"),
        ("rw,soft,timeo=100,noatime,_netdev", "nfs"),
        (
            "rw,credentials=/etc/creds,uid=0,x-systemd.automount",
            "cifs",
        ),
        ("bind", "none"),
    ] {
        let mut st = state(options, fstype);
        for (w, h) in [
            (1, 1),
            (2, 2),
            (3, 4),
            (10, 3),
            (20, 5),
            (40, 10),
            (80, 24),
            (200, 60),
        ] {
            st.clamp(h);
            assert!(st.lines(w, h, &doc()).len() <= h, "{w}x{h}");
        }
    }
}

#[test]
fn drawing_a_scrolled_selection_keeps_it_in_view() {
    let mut st = state("", "nfs");
    st.last();
    st.clamp(7);
    assert!(st.sel >= st.top, "selection scrolled off the top");
    assert!(st.sel < st.top + 7, "selection scrolled off the bottom");
    assert!(st.top > 0, "seven rows cannot show the whole NFS menu");
}

fn press(st: &mut State, original: &str, code: KeyCode) -> Menu {
    st.press(original, &doc(), Some(Key::Press(code, false)))
}

#[test]
fn toggling_and_applying_changes_the_options() {
    let mut st = state("rw", "ext4");
    // The first row is `ro`, which takes the place of `rw`.
    assert!(matches!(press(&mut st, "rw", KeyCode::Char(' ')), Menu::Stay));
    assert_eq!(st.set.text(), "ro");
    match st.press("rw", &doc(), Some(Key::Press(KeyCode::Char('s'), true))) {
        Menu::Apply(s) => assert_eq!(s, "ro"),
        other => panic!("{other:?}"),
    }
    // Leaving with a change asks first; without one it just leaves.
    assert!(matches!(press(&mut st, "rw", KeyCode::Esc), Menu::Confirm(_)));
    let mut same = state("rw", "ext4");
    assert!(matches!(press(&mut same, "rw", KeyCode::Esc), Menu::Leave));
    assert!(matches!(same.press("rw", &doc(), None), Menu::Leave));
}

#[test]
fn values_and_extras_are_written_back() {
    let mut st = state("rw,x-y", "nfs");
    st.extras_given("file_mode=0640");
    assert_eq!(st.set.text(), "rw,file_mode=0640");
    let timeo = mountopts::spec_for(Family::Nfs, "timeo").unwrap();
    st.value_given(&timeo, "600");
    assert_eq!(st.set.text(), "rw,file_mode=0640,timeo=600");
    st.value_given(&timeo, "  ");
    assert_eq!(st.set.text(), "rw,file_mode=0640");
    assert!(check_value("4.2").is_ok());
    assert_eq!(
        check_value("a,b"),
        Err("a value cannot contain a comma; it separates options".to_string())
    );
    assert_eq!(value_hint(&timeo, &doc()), "What timeo does.\n\n  Examples: timeo=600");
    assert_eq!(value_hint(&timeo, &[]), "Value for timeo=.");
}
