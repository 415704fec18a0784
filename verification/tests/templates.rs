//! Templates, suggestions and copies.

use notcron::templates::{
    backup_job, cache_warmer, clone_unit, dedup_name, mount_from_what, suggest_name,
    suggest_where, suggest_working_directory, sync_job, TemplateId,
};
use notcron::unit::escape;
use notcron::unit::generate;
use notcron::unit::model::{validate_name, Body, MountPreset, Schedule, Scope, ServiceOpts, Unit};

fn svc(u: &Unit) -> &ServiceOpts {
    match &u.body {
        Body::Timer(t) => &t.service,
        Body::Service(s) => &s.service,
        Body::Mount(_) => panic!("not a service"),
    }
}

#[test]
fn every_template_is_valid_and_renders() {
    for id in TemplateId::all() {
        let u = id.build(Scope::User);
        u.validate()
            .unwrap_or_else(|e| panic!("{} invalid: {e}", id.key()));
        assert!(!u.name.is_empty());
        assert!(!u.description.is_empty());
        assert!(svc(&u).exec_start.starts_with('/'), "{}", id.key());
        let files = generate::render(&u);
        assert_eq!(files.len(), 2, "{}", id.key());
        assert!(files[0].body.contains("[Timer]"));
        assert!(files[1].body.contains("ExecStart="));
    }
}

#[test]
fn template_ids_round_trip() {
    for id in TemplateId::all() {
        assert_eq!(TemplateId::parse(id.key()), Some(id));
        assert!(!id.label().is_empty());
        assert!(!id.detail().is_empty());
    }
    assert_eq!(TemplateId::parse("nope"), None);
}

#[test]
fn backup_catches_up_and_the_cache_warmer_does_not() {
    let b = backup_job(Scope::System);
    let Body::Timer(t) = &b.body else {
        panic!("timer")
    };
    assert!(t.persistent);
    assert_eq!(t.schedule.calendars(), ["*-*-* 02:30:00"]);
    assert!(t.randomized_delay.is_some());
    assert!(t.service_manual.contains("mountpoint"));

    let c = cache_warmer(Scope::User);
    let Body::Timer(t) = &c.body else {
        panic!("timer")
    };
    assert!(!t.persistent);
    assert!(matches!(&t.schedule, Schedule::Every { every, .. } if every == "5min"));
}

#[test]
fn sync_runs_on_an_interval() {
    let Body::Timer(t) = &sync_job(Scope::User).body else {
        panic!("timer")
    };
    assert!(matches!(
        &t.schedule,
        Schedule::Every { every, boot } if every == "15min" && boot == "5min"
    ));
    assert!(!t.persistent);
}

#[test]
fn templates_honour_the_requested_scope() {
    assert_eq!(backup_job(Scope::System).scope, Scope::System);
    assert_eq!(backup_job(Scope::User).scope, Scope::User);
}

#[test]
fn suggests_the_current_directory() {
    let wd = suggest_working_directory(&Some("/srv/jobs".to_string())).expect("a cwd");
    assert!(wd.starts_with('/'), "{wd}");
    assert_eq!(wd, "/srv/jobs");
    assert_eq!(suggest_working_directory(&Some("jobs".to_string())), None);
    assert_eq!(suggest_working_directory(&None), None);
}

#[test]
fn suggests_mount_points_for_every_source_form() {
    for (what, want) in [
        ("//server/share", "/mnt/share"),
        ("//server/share/", "/mnt/share"),
        ("//server/Team Share", "/mnt/team-share"),
        ("server:/export/data", "/mnt/data"),
        ("nfs://server/export/data", "/mnt/data"),
        ("/dev/sdb1", "/mnt/sdb1"),
        ("/dev/disk/by-label/photos", "/mnt/photos"),
        ("/dev/disk/by-uuid/1234abcd-5678-90ef", "/mnt/disk-1234abcd"),
        ("/srv/source", "/mnt/source"),
        ("/srv/media_files", "/mnt/media-files"),
    ] {
        assert_eq!(suggest_where(what).as_deref(), Some(want), "what {what}");
    }
}

#[test]
fn unsuggestable_sources_return_none() {
    assert_eq!(suggest_where(""), None);
    assert_eq!(suggest_where("   "), None);
    assert_eq!(suggest_where("/"), None);
    assert_eq!(suggest_where("///"), None);
    assert_eq!(suggest_where("!!!"), None);
}

#[test]
fn suggested_mount_points_are_escapable() {
    for what in ["//server/Team Share", "/dev/disk/by-uuid/1234abcd-5678"] {
        let w = suggest_where(what).unwrap();
        escape::escape_path(&w).unwrap_or_else(|e| panic!("{w}: {e}"));
    }
}

#[test]
fn suggests_names_from_command_lines() {
    assert_eq!(suggest_name("/usr/local/bin/backup.sh --full"), "backup-sh");
    assert_eq!(suggest_name("rsync -a /a /b"), "rsync");
    assert_eq!(suggest_name("/usr/bin/curl http://x/y"), "curl");
    // A shell pipeline is named after the first program in it.
    assert_eq!(suggest_name("df -h | mail -s disk root"), "df");
    assert_eq!(suggest_name(""), "");
    assert_eq!(suggest_name("   "), "");
}

#[test]
fn suggested_names_are_valid_unit_names() {
    for line in [
        "/usr/local/bin/Backup Script.sh",
        "echo hi > /tmp/x",
        "/opt/app/bin/run --flag=1",
    ] {
        let n = suggest_name(line);
        assert!(!n.is_empty(), "{line}");
        validate_name(&n).unwrap_or_else(|e| panic!("{line}: {e}"));
    }
}

#[test]
fn dedup_appends_copy_then_numbers() {
    assert_eq!(dedup_name("backup", &[]), "backup-copy");
    assert_eq!(
        dedup_name("backup", &["backup".into(), "backup-copy".into()]),
        "backup-copy-2"
    );
    assert_eq!(
        dedup_name(
            "backup",
            &[
                "backup-copy".into(),
                "backup-copy-2".into(),
                "backup-copy-3".into()
            ]
        ),
        "backup-copy-4"
    );
    // Prefixed names are compared unprefixed.
    assert_eq!(
        dedup_name("backup", &["notcron-backup-copy".into()]),
        "backup-copy-2"
    );
    assert_eq!(dedup_name("", &[]), "unit-copy");
}

#[test]
fn cloning_a_timer_renames_and_marks_the_description() {
    let mut src = backup_job(Scope::System);
    src.description = "Nightly backup".into();
    let c = clone_unit(&src, &["backup".into(), "backup-copy".into()]);
    assert_eq!(c.name, "backup-copy-2");
    assert_eq!(c.description, "Nightly backup (copy)");
    assert_eq!(c.scope, src.scope);
    c.validate().unwrap();
    // Everything else is carried over verbatim.
    assert_eq!(svc(&c).exec_start, svc(&src).exec_start);
    match (&c.body, &src.body) {
        (Body::Timer(a), Body::Timer(b)) => assert_eq!(a.schedule, b.schedule),
        _ => panic!("timer"),
    }
    // The original is untouched.
    assert_eq!(src.name, "backup");
}

#[test]
fn cloning_a_mount_renames_the_mount_point() {
    let mut src = Unit::new_mount();
    if let Body::Mount(m) = &mut src.body {
        m.what = "//server/share".into();
        m.where_ = "/mnt/share".into();
    }
    let c = clone_unit(&src, &["/mnt/share".into(), "/mnt/share-copy".into()]);
    let Body::Mount(m) = &c.body else {
        panic!("mount")
    };
    assert_eq!(m.where_, "/mnt/share-copy-2");
    assert_eq!(m.what, "//server/share");
    assert_eq!(c.description, "copy");
    c.validate().unwrap();
    assert_eq!(c.stem().unwrap(), "mnt-share\\x2dcopy\\x2d2");
}

#[test]
fn mount_from_what_fills_in_the_preset() {
    let u = mount_from_what(MountPreset::Cifs, "//server/share");
    let Body::Mount(m) = &u.body else {
        panic!("mount")
    };
    assert_eq!(m.where_, "/mnt/share");
    assert_eq!(m.fstype, "cifs");
    assert!(m.options.contains("_netdev"));
    assert_eq!(u.description, "Mount //server/share at /mnt/share");
    u.validate().unwrap();

    // An unsuggestable source leaves Where= empty rather than guessing.
    let bad = mount_from_what(MountPreset::Block, "!!!");
    let Body::Mount(m) = &bad.body else {
        panic!("mount")
    };
    assert!(m.where_.is_empty());
    assert!(bad.validate().is_err());
}
