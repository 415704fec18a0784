//! Reading unit files back.

use notcron::unit::generate::render;
use notcron::unit::model::{Body, MountPreset, RestartPolicy, Schedule, Scope, ServiceType, Unit};
use notcron::unit::parse::{parse, SourceFile};

fn round_trip(u: &Unit) -> Unit {
    let files: Vec<SourceFile> = render(u)
        .into_iter()
        .map(|f| SourceFile {
            name: f.name,
            body: f.body,
        })
        .collect();
    let (back, owned) = parse(u.scope, &files).expect("generated units should parse");
    assert!(owned, "generated units must be detected as owned");
    back
}

fn assert_lossless(u: &Unit) {
    let back = round_trip(u);
    assert_eq!(&back, u, "model changed across a round trip");
    assert_eq!(render(&back), render(u), "rendered bytes changed");
}

fn timer_fixture() -> Unit {
    let mut u = Unit::new_timer(Scope::User);
    u.name = "backup".into();
    u.description = "nightly backup".into();
    if let Body::Timer(t) = &mut u.body {
        t.source = "cron: 0 3 * * *".into();
        t.schedule =
            Schedule::Calendar(vec!["*-*-13 10:15:00".into(), "Fri *-*-* 10:15:00".into()]);
        t.persistent = true;
        t.randomized_delay = Some("30s".into());
        t.service.exec_start = "/bin/sh -c \"df -h | mail me\"".into();
        t.service.working_directory = Some("/srv".into());
        t.service.run_as = Some("nobody".into());
        t.service.environment = vec!["TZ=UTC".into(), "PATH=/usr/bin".into()];
        t.service.exec_start_pre = Some("/bin/true".into());
    }
    u
}

#[test]
fn timer_round_trip_is_lossless() {
    assert_lossless(&timer_fixture());
}

#[test]
fn interval_and_boot_timers_round_trip() {
    for sched in [
        Schedule::Every {
            every: "15min".into(),
            boot: "5min".into(),
        },
        Schedule::Boot {
            boot: "2min".into(),
        },
    ] {
        let mut u = timer_fixture();
        if let Body::Timer(t) = &mut u.body {
            t.schedule = sched;
            // Persistent is meaningless here and is not re-emitted.
            t.persistent = false;
        }
        assert_lossless(&u);
    }
}

#[test]
fn standalone_service_round_trip_is_lossless() {
    let mut u = Unit::new_service(Scope::System);
    u.name = "webhook".into();
    u.description = "webhook listener".into();
    if let Body::Service(s) = &mut u.body {
        s.service.service_type = ServiceType::Notify;
        s.service.exec_start = "/usr/local/bin/webhook --port 9000".into();
        s.service.exec_stop_post = Some("/usr/local/bin/cleanup".into());
        s.service.restart = RestartPolicy::Always;
        s.service.restart_sec = Some("5s".into());
        s.service.environment = vec!["RUST_LOG=info".into()];
        s.wanted_by = "multi-user.target".into();
    }
    assert_lossless(&u);
}

#[test]
fn mount_and_automount_round_trip_is_lossless() {
    for automount in [false, true] {
        let mut u = Unit::new_mount();
        u.description = "media share".into();
        if let Body::Mount(m) = &mut u.body {
            m.preset = MountPreset::Cifs;
            m.what = "//nas/media".into();
            m.where_ = "/mnt/my-media".into();
            m.fstype = "cifs".into();
            m.options = MountPreset::Cifs.options().into();
            m.automount = automount;
            m.timeout_idle = if automount { Some("120".into()) } else { None };
        }
        u.name = u.stem().unwrap();
        assert_lossless(&u);
    }
}

#[test]
fn manual_directives_survive_the_round_trip() {
    let mut u = timer_fixture();
    if let Body::Timer(t) = &mut u.body {
        t.service_manual = "[Service]\nNice=19\nIOSchedulingClass=idle".into();
        t.timer_manual = "[Timer]\nFixedRandomDelay=true".into();
    }
    assert_lossless(&u);
}

#[test]
fn unmodelled_directives_land_in_the_manual_block() {
    let files = [SourceFile {
        name: "notcron-x.service".into(),
        body: "# Generated by notcron\n\
               [Unit]\n\
               Description=x\n\
               X-NotCron=1\n\
               After=network.target\n\
               [Service]\n\
               Type=simple\n\
               ExecStart=/bin/true\n\
               PrivateTmp=yes\n"
            .into(),
    }];
    let (u, owned) = parse(Scope::User, &files).unwrap();
    assert!(owned);
    let Body::Service(s) = &u.body else {
        panic!("expected a service")
    };
    assert_eq!(s.service.exec_start, "/bin/true");
    assert!(s.manual.contains("After=network.target"), "{}", s.manual);
    assert!(s.manual.contains("PrivateTmp=yes"), "{}", s.manual);
    assert!(s.manual.contains("[Unit]"));
    assert!(s.manual.contains("[Service]"));
    // Re-rendering keeps them, and settles after one pass.
    let rendered = render(&u);
    let again = parse(
        Scope::User,
        &rendered
            .iter()
            .map(|f| SourceFile {
                name: f.name.clone(),
                body: f.body.clone(),
            })
            .collect::<Vec<_>>(),
    )
    .unwrap()
    .0;
    assert_eq!(render(&again), rendered);
}

#[test]
fn foreign_units_are_not_owned() {
    let files = [SourceFile {
        name: "sshd.service".into(),
        body: "[Unit]\nDescription=OpenSSH server\n[Service]\nExecStart=/usr/sbin/sshd -D\n"
            .into(),
    }];
    let (u, owned) = parse(Scope::System, &files).unwrap();
    assert!(!owned);
    assert_eq!(u.description, "OpenSSH server");
}

#[test]
fn a_timer_without_a_schedule_is_an_error() {
    let files = [SourceFile {
        name: "x.timer".into(),
        body: "[Unit]\nDescription=x\n[Timer]\n".into(),
    }];
    assert!(parse(Scope::User, &files).is_err());
}

#[test]
fn unknown_suffixes_are_rejected() {
    let files = [SourceFile {
        name: "x.socket".into(),
        body: String::new(),
    }];
    assert!(parse(Scope::User, &files).is_err());
    let files = [SourceFile {
        name: "noSuffix".into(),
        body: String::new(),
    }];
    assert!(parse(Scope::User, &files).is_err());
}

/// `Group=` is modelled rather than swept into the manual block, so it
/// survives an edit in place.
#[test]
fn group_round_trips_as_a_modelled_directive() {
    let mut u = timer_fixture();
    if let Body::Timer(t) = &mut u.body {
        t.service.run_as = Some("backup".into());
        t.service.group = Some("backup".into());
    }
    assert_lossless(&u);
    let files = render(&u);
    let body = &files
        .iter()
        .find(|f| f.name.ends_with(".service"))
        .unwrap()
        .body;
    assert!(body.contains("\nGroup=backup\n"), "{body}");
    // ...and it is not duplicated into the manual block.
    assert!(!body.contains("notcron:manual"), "{body}");
}

fn read(scope: Scope, files: &[(&str, &str)]) -> (Unit, bool) {
    let files: Vec<SourceFile> = files
        .iter()
        .map(|(name, body)| SourceFile { name: name.to_string(), body: body.to_string() })
        .collect();
    parse(scope, &files).unwrap()
}

/// Reading what is written gives the same bytes.
fn assert_settles(u: &Unit) {
    let rendered = render(u);
    let files: Vec<SourceFile> = rendered
        .iter()
        .map(|f| SourceFile { name: f.name.clone(), body: f.body.clone() })
        .collect();
    let (again, owned) = parse(u.scope, &files).unwrap();
    assert!(owned);
    assert_eq!(render(&again), rendered);
}

#[test]
fn a_setting_the_generator_would_replace_is_kept() {
    let (u, owned) =
        read(Scope::User, &[("x.timer", "[Timer]\nOnCalendar=daily\nAccuracySec=5min\n")]);
    assert!(!owned);
    let Body::Timer(t) = &u.body else { panic!("expected a timer") };
    assert_eq!(t.timer_manual, "[Timer]\nAccuracySec=5min");
    assert!(render(&u)[0].body.contains("\nAccuracySec=5min\n"));
    assert_settles(&u);
}

#[test]
fn an_identifier_and_an_install_target_are_kept() {
    let (u, _) = read(
        Scope::System,
        &[(
            "x.service",
            "[Service]\nExecStart=/bin/true\nSyslogIdentifier=other\n[Install]\nWantedBy=a.target\n",
        )],
    );
    let Body::Service(s) = &u.body else { panic!("expected a service") };
    assert_eq!(s.manual, "[Service]\nSyslogIdentifier=other");
    assert_eq!(s.wanted_by, "a.target");
    assert_settles(&u);
    let (u, _) = read(
        Scope::System,
        &[("mnt-a.mount", "[Mount]\nWhat=/dev/sda1\nWhere=/mnt/a\n[Install]\nWantedBy=a.target\n")],
    );
    let Body::Mount(m) = &u.body else { panic!("expected a mount") };
    assert_eq!(m.manual, "[Install]\nWantedBy=a.target");
    assert_settles(&u);
}

#[test]
fn a_repeated_setting_is_kept_in_order() {
    let (u, _) = read(
        Scope::User,
        &[("x.service", "[Service]\nExecStart=/bin/a\nExecStart=/bin/b\nEnvironment=A=1\nNice=5\n")],
    );
    let Body::Service(s) = &u.body else { panic!("expected a service") };
    assert_eq!(s.service.exec_start, "/bin/a");
    assert_eq!(s.service.environment, vec!["A=1"]);
    assert_eq!(s.manual, "[Service]\nExecStart=/bin/b\nNice=5");
    assert_settles(&u);
}

#[test]
fn what_is_read_settles_after_one_pass() {
    let bodies = [
        "",
        "[Unit]\nDescription=\n",
        "[Unit]\n  Description = a b \n[Service]\nType=forking\nUser=\nEnvironment=\nRestartSec=\n",
        "stray\n[Service]\nNice=19\nExecStart=/bin/true\n# a note\n[X-Mine]\nA=1\n",
    ];
    for body in bodies {
        let (u, _) = read(Scope::User, &[("x.service", body)]);
        assert_settles(&u);
    }
    let (u, _) = read(
        Scope::User,
        &[("x.timer", "[Unit]\nDescription=t\n[Timer]\nOnCalendar=\nOnCalendar=daily\n"), ("x.service", "")],
    );
    assert_settles(&u);
}

#[test]
fn a_name_with_a_blank_at_its_end_settles() {
    let (u, _) = read(Scope::User, &[("x .service", "[Service]\nExecStart=/bin/true\n")]);
    assert_eq!(u.name, "x ");
    assert_settles(&u);
}
