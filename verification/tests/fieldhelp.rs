//! The help document.

use notcron::fieldhelp::{entry, parse};

const DOC: &str = "\
# Field help

Prose before the first entry is ignored.

### unit.name
**Label:** Name
**Summary:** What the unit is called.
**Detail:** The name becomes part of the file names.
**Examples:** backup, sync

### mount.opt.nfs.timeo
**Label:** timeo= *(value)*
**Summary:** How long to wait, in deciseconds.
**Detail:** The client retries after this time.
**Examples:** timeo=600, timeo=50

### mount.opt.x_systemd_automount
**Label:** x-systemd.automount
**Summary:** Mounts on first access.
**Detail:** Only fstab reads it.
**Examples:** x-systemd.automount (fstab only), noauto
";

#[test]
fn the_document_parses_into_complete_entries() {
    let all = parse(DOC);
    assert_eq!(all.len(), 3);
    for e in all {
        assert!(!e.label.is_empty(), "{} has no label", e.key);
        assert!(!e.summary.is_empty(), "{} has no summary", e.key);
        assert!(!e.detail.is_empty(), "{} has no detail", e.key);
    }
}

#[test]
fn keys_are_unique() {
    let all = parse(DOC);
    for (i, e) in all.iter().enumerate() {
        assert!(
            !all[..i].iter().any(|p| p.key == e.key),
            "duplicate help key {}",
            e.key
        );
    }
}

#[test]
fn a_known_entry_reads_back() {
    let doc = parse(DOC);
    let e = entry(&doc, "mount.opt.nfs.timeo").expect("nfs timeo help");
    assert_eq!(e.label, "timeo= *(value)*");
    assert!(e.summary.contains("deciseconds"));
    assert_eq!(e.first_example(), "timeo=600");
}

#[test]
fn parenthetical_notes_are_not_part_of_an_example() {
    let doc = parse(DOC);
    let e = entry(&doc, "mount.opt.x_systemd_automount").expect("automount help");
    assert_eq!(e.first_example(), "x-systemd.automount");
}

#[test]
fn unknown_keys_are_absent_rather_than_fatal() {
    assert!(entry(&parse(DOC), "mount.opt.nope").is_none());
    assert!(entry(&[], "unit.name").is_none());
}
