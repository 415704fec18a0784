//! The files of a unit.

use notcron::unit::generate::{preview, render};
use notcron::unit::model::{
    Body, MountPreset, RestartPolicy, Schedule, Scope, ServiceType, Unit, MANUAL_HEADER, MARKER,
    X_MARKER,
};

fn sample_timer() -> Unit {
    let mut u = Unit::new_timer(Scope::User);
    u.name = "backup".into();
    u.description = "nightly backup".into();
    if let Body::Timer(t) = &mut u.body {
        t.source = "cron: 0 3 * * *".into();
        t.schedule = Schedule::Calendar(vec!["*-*-* 03:00:00".into()]);
        t.service.exec_start = "/usr/local/bin/backup.sh --full".into();
        t.service.working_directory = Some("/srv".into());
        t.service.environment = vec!["TZ=UTC".into(), "LANG=C".into()];
    }
    u
}

#[test]
fn timer_pair_renders_both_files_marked() {
    let files = render(&sample_timer());
    assert_eq!(files.len(), 2);
    assert_eq!(files[0].name, "notcron-backup.timer");
    assert_eq!(files[1].name, "notcron-backup.service");
    for f in &files {
        assert!(f.body.starts_with(MARKER), "{}", f.body);
        assert!(f.body.contains(X_MARKER));
    }
}

#[test]
fn timer_file_content_is_stable() {
    let files = render(&sample_timer());
    assert_eq!(
        files[0].body,
        "# Generated by notcron\n\
         # https://github.com/suchattai-labs/notcron-rs\n\
         \n[Unit]\n\
         Description=nightly backup (timer)\n\
         X-NotCron=1\n\
         \n[Timer]\n\
         OnCalendar=*-*-* 03:00:00\n\
         Persistent=true\n\
         AccuracySec=1s\n\
         Unit=notcron-backup.service\n\
         \n[Install]\n\
         WantedBy=timers.target\n"
    );
    assert_eq!(
        files[1].body,
        "# Generated by notcron\n\
         # https://github.com/suchattai-labs/notcron-rs\n\
         # schedule: cron: 0 3 * * *\n\
         \n[Unit]\n\
         Description=nightly backup\n\
         X-NotCron=1\n\
         \n[Service]\n\
         Type=oneshot\n\
         ExecStart=/usr/local/bin/backup.sh --full\n\
         WorkingDirectory=/srv\n\
         Environment=TZ=UTC\n\
         Environment=LANG=C\n\
         StandardOutput=journal\n\
         StandardError=journal\n\
         SyslogIdentifier=notcron-backup\n"
    );
}

#[test]
fn persistent_is_omitted_for_non_calendar_schedules() {
    let mut u = sample_timer();
    if let Body::Timer(t) = &mut u.body {
        t.schedule = Schedule::Every {
            every: "15min".into(),
            boot: "15min".into(),
        };
    }
    let body = &render(&u)[0].body;
    assert!(!body.contains("Persistent="));
    assert!(body.contains("OnUnitActiveSec=15min"));
    assert!(body.contains("OnBootSec=15min"));
}

#[test]
fn manual_block_is_appended_last() {
    let mut u = sample_timer();
    if let Body::Timer(t) = &mut u.body {
        t.service_manual = "[Service]\nNice=19\n\n".into();
    }
    let body = &render(&u)[1].body;
    assert!(body.contains(MANUAL_HEADER));
    assert!(body.ends_with("Nice=19\n"), "{body}");
}

#[test]
fn standalone_service_renders_install_and_restart() {
    let mut u = Unit::new_service(Scope::System);
    u.name = "webhook".into();
    u.description = "webhook listener".into();
    if let Body::Service(s) = &mut u.body {
        s.service.service_type = ServiceType::Simple;
        s.service.exec_start = "/usr/local/bin/webhook".into();
        s.service.restart = RestartPolicy::OnFailure;
        s.service.restart_sec = Some("5s".into());
    }
    let f = &render(&u)[0];
    assert_eq!(f.name, "notcron-webhook.service");
    assert!(f.body.contains("Type=simple\n"));
    assert!(f.body.contains("Restart=on-failure\n"));
    assert!(f.body.contains("RestartSec=5s\n"));
    assert!(f.body.contains("WantedBy=multi-user.target\n"));
}

#[test]
fn automount_renders_both_files() {
    let mut u = Unit::new_mount();
    u.description = "media share".into();
    if let Body::Mount(m) = &mut u.body {
        m.preset = MountPreset::Nfs;
        m.what = "nas:/export/media".into();
        m.where_ = "/mnt/media".into();
        m.fstype = MountPreset::Nfs.fstype().into();
        m.options = MountPreset::Nfs.options().into();
        m.automount = true;
        m.timeout_idle = Some("120".into());
    }
    let files = render(&u);
    assert_eq!(files[0].name, "mnt-media.automount");
    assert_eq!(files[1].name, "mnt-media.mount");
    assert!(files[0].body.contains("TimeoutIdleSec=120\n"));
    assert!(files[1].body.contains("What=nas:/export/media\n"));
    assert!(files[1].body.contains("Where=/mnt/media\n"));
    assert!(files[1].body.contains("Type=nfs\n"));
}

#[test]
fn preview_labels_each_file_with_its_target_path() {
    let p = preview(&sample_timer(), "/home/x/.config/systemd/user");
    assert!(p.contains("# /home/x/.config/systemd/user/notcron-backup.timer"));
    assert!(p.contains("# /home/x/.config/systemd/user/notcron-backup.service"));
}
