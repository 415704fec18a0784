//! The trash: records, names, retention and what a restore may do.

use notcron::civil::{compact_utc, format_utc, split_utc};
use notcron::trash::{
    check_id, conflicts, entry_name, listed, next_entry, select_for_prune, slug, trash_dir, undone,
    Move, PrunePolicy, RestoreError, RestoreReport, StashRequest, Trash, TrashEntry, TrashedFile,
    META_MAGIC,
};
use notcron::unit::model::Scope;
use std::collections::BTreeMap;

fn fake(id: &str, at: u64) -> TrashEntry {
    TrashEntry {
        id: id.into(),
        unit: "notcron-a.timer".into(),
        scope: Scope::User,
        removed_at: at,
        was_enabled: false,
        was_active: false,
        files: vec![TrashedFile {
            stored: "notcron-a.timer".into(),
            original: "/tmp/notcron-a.timer".into(),
        }],
    }
}

#[test]
fn prune_policy_drops_by_count_and_by_age() {
    let now = 1_000_000;
    // Newest first, one per day.
    let entries: Vec<TrashEntry> = (0..5)
        .map(|i| fake(&format!("e{i}"), now - i * 86_400))
        .collect();

    let by_count = PrunePolicy {
        max_entries: Some(2),
        max_age_secs: None,
    };
    assert_eq!(
        select_for_prune(&entries, by_count, now),
        vec!["e2", "e3", "e4"]
    );

    let by_age = PrunePolicy {
        max_entries: None,
        max_age_secs: Some(2 * 86_400),
    };
    assert_eq!(select_for_prune(&entries, by_age, now), vec!["e3", "e4"]);

    assert!(select_for_prune(&entries, PrunePolicy::unlimited(), now).is_empty());
    assert!(select_for_prune(&entries, PrunePolicy::default(), now).is_empty());
}

#[test]
fn metadata_round_trips_including_awkward_paths() {
    let e = TrashEntry {
        id: "20260815T113000Z-notcron-a.timer".into(),
        unit: "notcron-a.timer".into(),
        scope: Scope::System,
        removed_at: 1_755_257_400,
        was_enabled: true,
        was_active: true,
        files: vec![TrashedFile {
            stored: "notcron-a.timer".into(),
            original: "/etc/systemd/system/weird\tname\\here.timer".into(),
        }],
    };
    let decoded = TrashEntry::decode(&e.id, &e.encode()).unwrap();
    assert_eq!(decoded, e);
}

#[test]
fn malformed_records_are_rejected_not_guessed() {
    assert!(TrashEntry::decode("x", "").is_err());
    assert!(TrashEntry::decode("x", "some other file\nunit=a\n").is_err());
    assert!(TrashEntry::decode("x", &format!("{META_MAGIC}\nunit=a\n")).is_err());
    assert!(TrashEntry::decode(
        "x",
        &format!("{META_MAGIC}\nunit=a\nscope=elsewhere\nfile=a\t/a\n")
    )
    .is_err());
}

#[test]
fn unknown_keys_are_ignored_for_forward_compatibility() {
    let text = format!("{META_MAGIC}\nunit=a.timer\nfuture=whatever\nfile=a.timer\t/a.timer\n");
    let e = TrashEntry::decode("x", &text).unwrap();
    assert_eq!(e.unit, "a.timer");
    assert_eq!(e.files.len(), 1);
}

#[test]
fn timestamps_render_as_utc() {
    // Fixed epochs with independently known UTC values, so this test does
    // not rot as the wall clock advances.
    assert_eq!(format_utc(0), "1970-01-01 00:00:00 UTC");
    assert_eq!(compact_utc(0), "19700101T000000Z");
    assert_eq!(format_utc(1_000_000_000), "2001-09-09 01:46:40 UTC");
    assert_eq!(compact_utc(1_000_000_000), "20010909T014640Z");
    // Leap days in a 4-yearly and a 400-yearly leap year, to exercise the
    // civil-date maths at its awkward points.
    assert_eq!(format_utc(1_709_164_800), "2024-02-29 00:00:00 UTC");
    assert_eq!(format_utc(951_782_400), "2000-02-29 00:00:00 UTC");
    // Midnight and the last second of a day, derived rather than guessed.
    let midnight = 951_782_400;
    assert_eq!(format_utc(midnight + 86_399), "2000-02-29 23:59:59 UTC");
    assert_eq!(format_utc(midnight + 86_400), "2000-03-01 00:00:00 UTC");
}

#[test]
fn the_current_time_lands_in_a_plausible_year() {
    let now = std::time::SystemTime::now()
        .duration_since(std::time::UNIX_EPOCH)
        .unwrap()
        .as_secs();
    let t = split_utc(now);
    let (y, mo, d) = (t.year, t.month, t.day);
    assert!((2024..2200).contains(&y), "implausible year {y}");
    assert!((1..=12).contains(&mo));
    assert!((1..=31).contains(&d));
}

#[test]
fn slugs_stay_filesystem_safe() {
    assert_eq!(slug("notcron-a.timer"), "notcron-a.timer");
    assert_eq!(slug("../evil"), "_evil");
    assert_eq!(slug(""), "unit");
    assert_eq!(slug("."), "unit");
}

#[test]
fn xdg_data_home_is_honoured_only_when_absolute() {
    let home = Some("/home/x".to_string());
    let d = trash_dir(Scope::User, &None, &home);
    assert!(d.ends_with("notcron/trash"), "{d}");
    assert_eq!(d, "/home/x/.local/share/notcron/trash");
    assert_eq!(trash_dir(Scope::System, &None, &home), "/var/lib/notcron/trash");
    assert_eq!(
        trash_dir(Scope::User, &Some("/data".to_string()), &home),
        "/data/notcron/trash"
    );
    assert_eq!(trash_dir(Scope::User, &Some("relative/share".to_string()), &home), d);
}

/// The files of a machine by their paths.
type Disk = BTreeMap<String, String>;

fn apply(disk: &mut Disk, moves: &[Move]) {
    for m in moves {
        let body = disk.remove(&m.from).expect("a file to move");
        disk.insert(m.to.clone(), body);
    }
}

fn present(disk: &Disk, paths: &[String]) -> Vec<bool> {
    paths.iter().map(|p| disk.contains_key(p)).collect()
}

/// Stashes the files of a request under the first free name.
fn stash(
    disk: &mut Disk,
    trash: &Trash,
    req: &StashRequest,
    now: u64,
) -> Result<TrashEntry, String> {
    let id = (0..)
        .map(|n| entry_name(&req.unit, now, n))
        .find(|id| !disk.contains_key(&trash.record_path(id)))
        .unwrap();
    let (entry, moves) = trash.stash_at(req, &present(disk, &req.files), &id, now)?;
    apply(disk, &moves);
    disk.insert(trash.record_path(&id), entry.encode());
    Ok(entry)
}

fn list(disk: &Disk, trash: &Trash) -> Vec<TrashEntry> {
    let found: Vec<TrashEntry> = disk
        .iter()
        .filter_map(|(path, body)| {
            let id = path.strip_prefix(&format!("{}/", trash.root()))?.strip_suffix("/meta")?;
            TrashEntry::decode(id, body).ok()
        })
        .collect();
    listed(&found)
}

/// Restores an entry as its record has it.
fn restore(
    disk: &mut Disk,
    trash: &Trash,
    id: &str,
    overwrite: bool,
) -> Result<RestoreReport, RestoreError> {
    let entry = TrashEntry::decode(id, &disk[&trash.record_path(id)]).unwrap();
    let paths: Vec<String> = entry.files.iter().map(|f| f.original.clone()).collect();
    let (report, moves) = trash.restore(&entry, &present(disk, &paths), overwrite)?;
    apply(disk, &moves);
    disk.remove(&trash.record_path(id));
    Ok(report)
}

/// A unit directory with a timer and its service, plus a request that stashes
/// them.
fn staged() -> (Disk, StashRequest) {
    let timer = "/units/notcron-backup.timer".to_string();
    let service = "/units/notcron-backup.service".to_string();
    let mut disk = Disk::new();
    disk.insert(timer.clone(), "[Timer]\nOnCalendar=daily\n".into());
    disk.insert(service.clone(), "[Service]\nExecStart=/bin/true\n".into());
    let req = StashRequest {
        scope: Scope::User,
        unit: "notcron-backup.timer".into(),
        files: vec![timer, service],
        was_enabled: true,
        was_active: false,
    };
    (disk, req)
}

#[test]
fn round_trip_returns_identical_bytes() {
    let (mut disk, req) = staged();
    let before = disk.clone();

    let trash = Trash::at("/trash");
    let entry = stash(&mut disk, &trash, &req, 1_755_257_400).unwrap();
    assert_eq!(entry.id, "20250815T113000Z-notcron-backup.timer");
    for p in &req.files {
        assert!(!disk.contains_key(p), "{p} should have moved");
    }

    let listed = list(&disk, &trash);
    assert_eq!(listed.len(), 1);
    assert_eq!(listed[0].id, entry.id);
    assert_eq!(listed[0].unit, "notcron-backup.timer");
    assert!(listed[0].was_enabled);
    assert!(!listed[0].was_active);

    let report = restore(&mut disk, &trash, &entry.id, false).unwrap();
    assert_eq!(report.restored, req.files);
    assert!(report.overwritten.is_empty());
    assert!(report.was_enabled);
    assert_eq!(disk, before);
    assert!(list(&disk, &trash).is_empty());
}

#[test]
fn restore_onto_an_existing_file_is_a_conflict() {
    let (mut disk, req) = staged();
    let trash = Trash::at("/trash");
    let entry = stash(&mut disk, &trash, &req, 1_755_257_400).unwrap();

    // The user recreated the timer under the same name.
    disk.insert(req.files[0].clone(), "recreated\n".into());

    match restore(&mut disk, &trash, &entry.id, false) {
        Err(RestoreError::Conflict(paths)) => assert_eq!(paths, vec![req.files[0].clone()]),
        other => panic!("expected a conflict, got {other:?}"),
    }
    // Nothing moved: the entry and the recreated file both survive.
    assert_eq!(disk[&req.files[0]], "recreated\n");
    assert_eq!(
        conflicts(&entry, &present(&disk, &req.files)),
        vec![req.files[0].clone()]
    );
    assert_eq!(list(&disk, &trash).len(), 1);

    let report = restore(&mut disk, &trash, &entry.id, true).unwrap();
    assert_eq!(report.overwritten, vec![req.files[0].clone()]);
    assert!(disk[&req.files[0]].contains("OnCalendar"));
}

#[test]
fn stashing_a_unit_whose_files_are_gone_is_an_error() {
    let trash = Trash::at("/trash");
    let req = StashRequest {
        scope: Scope::User,
        unit: "notcron-ghost.timer".into(),
        files: vec!["/units/nope.timer".into()],
        was_enabled: false,
        was_active: false,
    };
    let mut disk = Disk::new();
    assert_eq!(
        stash(&mut disk, &trash, &req, 0).unwrap_err(),
        "nothing to stash: none of the unit's files exist"
    );
    assert!(list(&disk, &trash).is_empty());
    let none = StashRequest { files: Vec::new(), ..req };
    assert_eq!(
        stash(&mut disk, &trash, &none, 0).unwrap_err(),
        "nothing to stash: no files given"
    );
}

/// A request for one file of a directory of its own.
fn lone(disk: &mut Disk, i: u64) -> StashRequest {
    let f = format!("/u{i}/notcron-a.timer");
    disk.insert(f.clone(), "x\n".into());
    StashRequest {
        scope: Scope::User,
        unit: "notcron-a.timer".into(),
        files: vec![f],
        was_enabled: false,
        was_active: false,
    }
}

#[test]
fn entries_in_the_same_second_get_distinct_ids() {
    let trash = Trash::at("/trash");
    let mut disk = Disk::new();
    let mut ids: Vec<String> = Vec::new();
    for i in 0..3 {
        let req = lone(&mut disk, i);
        ids.push(stash(&mut disk, &trash, &req, 1_755_000_000).unwrap().id);
    }
    assert!(ids.iter().all(|i| i.starts_with("20250812T120000Z-notcron-a.timer")));
    ids.sort();
    ids.dedup();
    assert_eq!(ids.len(), 3);
    assert_eq!(list(&disk, &trash).len(), 3);
}

#[test]
fn two_files_of_one_name_are_stored_apart() {
    let trash = Trash::at("/trash");
    let mut disk = Disk::new();
    let mut req = lone(&mut disk, 0);
    req.files.extend(lone(&mut disk, 1).files);
    // A file that is named twice is moved once.
    req.files.push(req.files[0].clone());
    let before = disk.clone();
    let entry = stash(&mut disk, &trash, &req, 0).unwrap();
    let stored: Vec<&str> = entry.files.iter().map(|f| f.stored.as_str()).collect();
    assert_eq!(stored, vec!["notcron-a.timer", "1-notcron-a.timer"]);
    restore(&mut disk, &trash, &entry.id, false).unwrap();
    assert_eq!(disk, before);
}

#[test]
fn prune_deletes_the_selected_entries_on_disk() {
    let trash = Trash::at("/trash");
    let mut disk = Disk::new();
    for i in 0..4u64 {
        let req = lone(&mut disk, i);
        stash(&mut disk, &trash, &req, 1_000_000 + i).unwrap();
    }
    let policy = PrunePolicy {
        max_entries: Some(2),
        max_age_secs: None,
    };
    let dropped = trash.prune_at(&list(&disk, &trash), policy, 1_000_010);
    assert_eq!(dropped.len(), 2);
    for id in &dropped {
        let found = TrashEntry::decode(id, &disk[&trash.record_path(id)]);
        let dir = trash.discard(&found.map_err(RestoreError::Io)).unwrap().unwrap();
        disk.retain(|path, _| !path.starts_with(&format!("{dir}/")));
    }
    let left = list(&disk, &trash);
    assert_eq!(left.len(), 2);
    // The two survivors are the newest.
    assert_eq!(left[0].removed_at, 1_000_003);
    assert_eq!(left[1].removed_at, 1_000_002);
}

#[test]
fn discarding_what_is_not_there_is_no_error() {
    let trash = Trash::at("/trash");
    assert_eq!(trash.discard(&Err(RestoreError::NotFound("x".into()))), Ok(None));
    assert_eq!(
        trash.discard(&Err(RestoreError::Io("unreadable".into()))),
        Err("unreadable".to_string())
    );
    let dir = trash.discard(&Ok(fake("e1", 0)));
    assert_eq!(dir, Ok(Some("/trash/e1".to_string())));
}

#[test]
fn missing_and_traversing_ids_are_not_found() {
    assert!(matches!(check_id("../../etc"), Err(RestoreError::NotFound(_))));
    assert!(matches!(check_id(""), Err(RestoreError::NotFound(_))));
    assert!(matches!(check_id("a/b"), Err(RestoreError::NotFound(_))));
    assert!(check_id("nope").is_ok());
    assert_eq!(check_id("a..b").unwrap_err().to_string(), "no trash entry 'a..b'");
}

#[test]
fn an_entry_says_when_it_was_removed() {
    let e = fake("e1", 1_000_000_000);
    assert_eq!(e.removed_at_utc(), "2001-09-09 01:46:40 UTC");
    assert_eq!(e.age_secs(1_000_000_090), 90);
    assert_eq!(e.age_secs(0), 0);
}

#[test]
fn a_partial_stash_is_undone() {
    let trash = Trash::at("/trash");
    for done in 0..3 {
        let (mut disk, req) = staged();
        let before = disk.clone();
        let (_, moves) = trash.stash_at(&req, &present(&disk, &req.files), "e", 7).unwrap();
        assert_eq!(moves.len(), 2);
        apply(&mut disk, &moves[..done]);
        assert_eq!(disk == before, done == 0);
        let back = undone(&moves, done);
        assert_eq!(back.len(), done);
        apply(&mut disk, &back);
        assert_eq!(disk, before);
    }
}

#[test]
fn moves_are_undone_last_first() {
    let moves = [
        Move { from: "a".into(), to: "b".into() },
        Move { from: "c".into(), to: "a".into() },
    ];
    let back = undone(&moves, 2);
    assert_eq!((back[0].from.as_str(), back[0].to.as_str()), ("a", "c"));
    assert_eq!((back[1].from.as_str(), back[1].to.as_str()), ("b", "a"));
    assert!(undone(&moves, 0).is_empty());
}

#[test]
fn a_removal_gives_up_after_a_thousand_names() {
    let at = 1_755_257_400;
    assert_eq!(next_entry("x.timer", at, 0), Ok("20250815T113000Z-x.timer".to_string()));
    assert_eq!(next_entry("x.timer", at, 999), Ok("20250815T113000Z-x.timer-999".to_string()));
    assert_eq!(
        next_entry("x.timer", at, 1000),
        Err("could not allocate a trash entry directory".to_string())
    );
}
