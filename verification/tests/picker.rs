//! The file picker.

use notcron::ui::picker::{
    candidates, home_or_root, join_command, list_dir, parent_of, picker_rect, rows, split_command,
    start_dir, Browse, Entry, Mode, Row, Seen, State,
};
use notcron::ui::term::{Key, KeyCode, Rect};

fn entry(name: &str, is_dir: bool) -> Entry {
    Entry { name: name.to_string(), is_dir }
}

/// What a directory holds, in no order:
/// beta/, alpha/, .hidden/, zz.txt, aa.txt, .dotfile
fn fixture() -> Vec<Entry> {
    let mut out: Vec<Entry> = ["beta", "alpha", ".hidden"].iter().map(|d| entry(d, true)).collect();
    out.extend(["zz.txt", "aa.txt", ".dotfile"].iter().map(|f| entry(f, false)));
    out
}

/// What reading a directory of the fixture gives.
fn read(dir: &str) -> Result<Vec<Entry>, String> {
    match dir {
        "/fix" => Ok(fixture()),
        "/fix/alpha" | "/fix/beta" => Ok(Vec::new()),
        _ => Err(format!("{dir}: permission denied")),
    }
}

/// Follows what the picker asks for.
fn answer(st: &mut State, b: Browse) -> Option<String> {
    match b {
        Browse::Chosen(p) => Some(p),
        Browse::Open(dir, select) => {
            st.open(&dir, &select, &read(&dir));
            None
        }
        Browse::Stay | Browse::Cancel => None,
    }
}

fn labels(rows: &[Row]) -> Vec<String> {
    rows.iter().map(Row::label).collect()
}

#[test]
fn listing_sorts_dirs_first_then_alphabetically() {
    let fix = fixture();
    let got = list_dir(&fix, false);
    assert_eq!(
        got.iter().map(|e| e.name.as_str()).collect::<Vec<_>>(),
        ["alpha", "beta", "aa.txt", "zz.txt"]
    );
    assert!(got[0].is_dir && !got[2].is_dir);
}

#[test]
fn hidden_entries_appear_only_when_asked_for() {
    let fix = fixture();
    assert_eq!(list_dir(&fix, false).len(), 4);
    let all = list_dir(&fix, true);
    assert_eq!(all.len(), 6);
    // Still dirs-first, and the dot entries sort inside their group.
    assert_eq!(all[0].name, ".hidden");
    assert_eq!(all[3].name, ".dotfile");
}

#[test]
fn directory_mode_hides_files_and_offers_the_current_dir() {
    let fix = fixture();
    let e = list_dir(&fix, false);
    let r = rows(Mode::Directory, "/fix", &e);
    assert_eq!(
        labels(&r),
        ["[ use this directory ]", "../", "alpha/", "beta/"]
    );
}

#[test]
fn file_mode_lists_files_and_never_confirms_a_directory() {
    let fix = fixture();
    let e = list_dir(&fix, false);
    let r = rows(Mode::File, "/fix", &e);
    assert_eq!(labels(&r), ["../", "alpha/", "beta/", "aa.txt", "zz.txt"]);
    assert!(!r.contains(&Row::UseCurrent));
}

#[test]
fn any_mode_offers_both() {
    let fix = fixture();
    let e = list_dir(&fix, false);
    let r = rows(Mode::Any, "/fix", &e);
    assert_eq!(r[0], Row::UseCurrent);
    assert!(r.iter().any(|x| x.label() == "aa.txt"));
}

#[test]
fn the_root_directory_offers_no_way_up() {
    let r = rows(Mode::Directory, "/", &[]);
    assert_eq!(labels(&r), ["[ use this directory ]"]);
    assert!(!r.contains(&Row::Parent));
}

#[test]
fn command_lines_keep_their_arguments() {
    assert_eq!(
        split_command("/usr/bin/rsync -a /src /dst"),
        ("/usr/bin/rsync".into(), "-a /src /dst".into())
    );
    assert_eq!(split_command("/bin/true"), ("/bin/true".into(), "".into()));
    assert_eq!(split_command("  "), ("".into(), "".into()));
    assert_eq!(
        join_command("/bin/borg", "create ::x /home"),
        "/bin/borg create ::x /home"
    );
    assert_eq!(join_command("/bin/true", ""), "/bin/true");
    // Round trip: picking the same binary changes nothing.
    let cmd = "/usr/bin/env FOO=1 /bin/sh -c 'echo hi'";
    let (p, a) = split_command(cmd);
    assert_eq!(join_command(&p, &a), cmd);
}

#[test]
fn picker_rect_never_leaves_the_frame() {
    for w in 0..12u16 {
        for h in 0..12u16 {
            let a = Rect {
                x: 2,
                y: 3,
                width: w,
                height: h,
            };
            let p = picker_rect(a);
            assert!(p.x >= a.x && p.y >= a.y, "{w}x{h}");
            assert!(p.x + p.width <= a.x + a.width, "{w}x{h}");
            assert!(p.y + p.height <= a.y + a.height, "{w}x{h}");
        }
    }
    let zero = Rect {
        x: 0,
        y: 0,
        width: 0,
        height: 0,
    };
    assert_eq!(picker_rect(zero).width, 0);
    assert_eq!(picker_rect(zero).height, 0);
}

#[test]
fn symlinked_directories_count_as_directories() {
    let mut fix = fixture();
    fix.push(entry("link", true));
    let got = list_dir(&fix, false);
    let link = got.iter().find(|e| e.name == "link").expect("link listed");
    assert!(link.is_dir);
    // ... so it sorts with the directories.
    assert_eq!(got[2].name, "link");
}

fn state_for(dir: &str, mode: Mode, found: &[Entry]) -> State {
    State {
        field: "test".into(),
        mode,
        dir: dir.to_string(),
        rows: rows(mode, dir, &list_dir(found, false)),
        sel: 0,
        top: 0,
        hidden: false,
        err: String::new(),
    }
}

#[test]
fn ascending_from_root_stays_at_root() {
    assert_eq!(parent_of("/"), "/");
    assert_eq!(parent_of("/usr/lib"), "/usr");
    assert_eq!(parent_of("/usr"), "/");

    let mut st = state_for("/", Mode::Directory, &[]);
    let up = st.ascend();
    assert_eq!(answer(&mut st, up), None);
    assert_eq!(st.dir, "/");
}

#[test]
fn ascending_reselects_the_directory_just_left() {
    let mut st = state_for("/fix/alpha", Mode::Directory, &[]);
    let up = st.ascend();
    answer(&mut st, up);
    assert_eq!(st.dir, "/fix");
    assert_eq!(st.rows[st.sel].label(), "alpha/");
}

/// Where the picker opens, with only the fixture on disk.
fn start(value: &str) -> String {
    let seen: Vec<Seen> = candidates(value)
        .iter()
        .map(|p| match p.as_str() {
            "/fix" | "/" => Seen::Directory,
            "/fix/aa.txt" => Seen::Other,
            _ => Seen::Nothing,
        })
        .collect();
    start_dir(value, &seen, "/home/x")
}

#[test]
fn start_directory_resolution() {
    // A directory is browsed directly.
    assert_eq!(start("/fix"), "/fix");
    // A file opens its parent.
    assert_eq!(start("/fix/aa.txt"), "/fix");
    // A path that does not exist walks up to one that does.
    assert_eq!(start("/fix/nope/deeper/x"), "/fix");
    // Whitespace is ignored.
    assert_eq!(start("  /fix  "), "/fix");
    // Non-paths fall back.
    let fallback = home_or_root(&Some("/home/x".into()), true);
    assert_eq!(start(""), fallback);
    assert_eq!(start("systemctl"), fallback);
    assert_eq!(start("relative/path"), fallback);
    // The fallback is always a real directory.
    assert_eq!(home_or_root(&Some("/home/x".into()), false), "/");
    assert_eq!(home_or_root(&None, false), "/");
}

#[test]
fn start_directory_of_root_is_root() {
    assert_eq!(start("/"), "/");
}

#[test]
fn picker_draws_at_every_size_without_panicking() {
    for mode in [Mode::Directory, Mode::File, Mode::Any] {
        let mut st = state_for("/fix", mode, &fixture());
        for (w, h) in [(1, 1), (2, 2), (3, 4), (10, 3), (40, 10), (200, 60)] {
            st.clamp(h);
            assert!(st.lines(w, h).len() <= h, "{w}x{h}");
        }
    }
}

#[test]
fn draws_an_empty_and_an_errored_directory() {
    let mut st = state_for("/fix/alpha", Mode::File, &[]);
    assert!(st.rows.iter().all(|r| *r == Row::Parent));
    for (w, h) in [(1, 1), (30, 6), (120, 40)] {
        assert!(st.lines(w, h).len() <= h, "{w}x{h}");
    }
    st.err = "permission denied".into();
    let shown = st.lines(60, 12);
    assert!(
        shown.iter().any(|l| l.spans.iter().any(|s| s.content.contains("permission denied"))),
        "{shown:?}"
    );
}

#[test]
fn a_long_listing_scrolls_the_selection_into_view() {
    let found: Vec<Entry> = (0..200).map(|i| entry(&format!("f{i:03}"), false)).collect();
    let mut st = state_for("/many", Mode::File, &found);
    st.sel = st.rows.len() - 1;
    st.clamp(9);
    assert!(st.top > 0);
    assert!(st.sel >= st.top);
}

#[test]
fn activating_rows_descends_ascends_and_selects() {
    let mut st = state_for("/fix", Mode::Any, &fixture());

    // [ use this directory ] confirms where we are.
    assert_eq!(st.sel, 0);
    let chosen = st.activate();
    assert_eq!(answer(&mut st, chosen).as_deref(), Some("/fix"));

    // A directory row descends instead of confirming.
    st.select_named("alpha");
    let opened = st.activate();
    assert_eq!(answer(&mut st, opened), None);
    assert_eq!(st.dir, "/fix/alpha");

    // ../ climbs back out.
    st.sel = st.rows.iter().position(|r| *r == Row::Parent).expect("..");
    let up = st.activate();
    assert_eq!(answer(&mut st, up), None);
    assert_eq!(st.dir, "/fix");

    // A file row is the answer.
    st.select_named("aa.txt");
    let file = st.activate();
    assert_eq!(answer(&mut st, file).as_deref(), Some("/fix/aa.txt"));
}

#[test]
fn a_failed_descent_keeps_the_picker_where_it_was() {
    let mut st = state_for("/fix", Mode::Directory, &fixture());
    st.open("/fix/locked", &None, &read("/fix/locked"));
    assert_eq!(st.dir, "/fix", "stays put on a denied directory");
    assert!(st.err.contains("locked"), "reports why: {}", st.err);
}

#[test]
fn keys_move_reveal_and_leave() {
    let press = |code| Some(Key::Press(code, false));
    let mut st = state_for("/fix", Mode::Directory, &fixture());
    assert!(matches!(st.press(press(KeyCode::Down)), Browse::Stay));
    assert_eq!(st.sel, 1);
    assert!(matches!(st.press(press(KeyCode::Esc)), Browse::Cancel));
    assert!(matches!(st.press(None), Browse::Cancel));
    match st.press(press(KeyCode::Char('h'))) {
        Browse::Open(dir, select) => assert_eq!((dir.as_str(), select.as_deref()), ("/", Some("fix"))),
        other => panic!("{other:?}"),
    }
    match st.press(Some(Key::Press(KeyCode::Char('s'), true))) {
        Browse::Chosen(p) => assert_eq!(p, "/fix"),
        other => panic!("{other:?}"),
    }
}
