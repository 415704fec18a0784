//! Exporting a unit's files.

use notcron::export::{
    explain, export, export_files, files, text, to_text, ExportError, IoKind,
};
use notcron::unit::generate::{render, RenderedFile};
use notcron::unit::model::{Body, Scope, Unit};

fn sample() -> Unit {
    let mut u = Unit::new_timer(Scope::User);
    u.name = "backup".into();
    u.description = "nightly backup".into();
    if let Body::Timer(t) = &mut u.body {
        t.service.exec_start = "/usr/local/bin/backup.sh".into();
    }
    u
}

#[test]
fn export_writes_every_file_under_its_unit_name() {
    let report = export(&sample(), "/tmp/out", false, &[]).unwrap();
    assert_eq!(
        report.written,
        vec![
            "/tmp/out/notcron-backup.timer".to_string(),
            "/tmp/out/notcron-backup.service".to_string(),
        ]
    );
    assert!(report.replaced.is_empty());
    // The bytes are exactly what the renderer produces.
    assert_eq!(files(&sample()).unwrap(), render(&sample()));
}

#[test]
fn an_existing_file_is_refused_and_nothing_is_written() {
    let timer = "/tmp/out/notcron-backup.timer".to_string();
    match export(&sample(), "/tmp/out", false, &[timer.clone()]) {
        Err(ExportError::Exists(paths)) => assert_eq!(paths, vec![timer.clone()]),
        other => panic!("expected a refusal, got {other:?}"),
    }
    let e = export(&sample(), "/tmp/out", false, &[timer]).unwrap_err();
    assert_eq!(e.to_string(), "already exists: /tmp/out/notcron-backup.timer");
}

#[test]
fn overwrite_replaces_and_reports_what_it_replaced() {
    let timer = "/tmp/out/notcron-backup.timer".to_string();
    let report = export(&sample(), "/tmp/out", true, &[timer.clone()]).unwrap();
    assert_eq!(report.replaced, vec![timer]);
    assert_eq!(report.written.len(), 2);
    assert!(files(&sample()).unwrap()[0].body.contains("[Timer]"));
}

#[test]
fn an_unwritable_destination_is_an_error_not_a_panic() {
    let e = ExportError::Io(explain(
        "/ro/notcron-backup.timer",
        "Permission denied (os error 13)",
        IoKind::PermissionDenied,
        "writing",
    ));
    assert!(e.to_string().contains("notcron-backup"), "{}", e.to_string());
    assert_eq!(
        e.to_string(),
        "writing /ro/notcron-backup.timer: Permission denied (os error 13) (no write permission)"
    );
    assert_eq!(
        explain("/a/b", "gone", IoKind::NotFound, "writing"),
        "writing /a/b: gone (parent directory does not exist)"
    );
    assert_eq!(explain("/a/b", "full", IoKind::Other, "creating"), "creating /a/b: full");
}

#[test]
fn an_invalid_unit_is_refused_before_touching_the_filesystem() {
    let u = Unit::new_timer(Scope::User); // no name, no ExecStart
    assert!(matches!(
        export(&u, "/tmp/out", false, &[]),
        Err(ExportError::Invalid(_))
    ));
    assert!(text(&u).is_err());
    assert!(files(&u).is_err());
}

#[test]
fn text_form_separates_files_by_name() {
    let body = text(&sample()).unwrap();
    assert!(
        body.starts_with("# ---- notcron-backup.timer ----\n"),
        "{body}"
    );
    assert!(
        body.contains("\n# ---- notcron-backup.service ----\n"),
        "{body}"
    );
    // Every rendered byte survives the concatenation.
    for f in render(&sample()) {
        assert!(body.contains(&f.body), "missing {}", f.name);
    }
}

#[test]
fn pre_rendered_files_can_be_exported_directly() {
    let raw = vec![RenderedFile {
        name: "foreign.timer".into(),
        body: "[Timer]\nOnCalendar=daily\n".into(),
    }];
    let report = export_files(&raw, "/tmp/out", false, &[]).unwrap();
    assert_eq!(report.written, vec!["/tmp/out/foreign.timer".to_string()]);
    assert_eq!(
        to_text(&raw),
        "# ---- foreign.timer ----\n[Timer]\nOnCalendar=daily\n"
    );
    assert!(matches!(
        export_files(&[], "/tmp/out", false, &[]),
        Err(ExportError::Invalid(_))
    ));
}
