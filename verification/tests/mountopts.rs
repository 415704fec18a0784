//! Mount options: parsing, composing, what is offered and the option set.

use notcron::fieldhelp::Entry;
use notcron::unit::model::MountPreset;
use notcron::unit::mountopts::{
    compose, family_for, offered, parse_options, spec_for, suggested_value, Family, Kind, Opt,
    OptionSet, Spec,
};

fn example(help: &str, example: &str) -> Entry {
    Entry {
        key: help.to_string(),
        label: example.to_string(),
        summary: String::new(),
        detail: String::new(),
        examples: example.to_string(),
    }
}

/// A help document with an example for every option that takes a value.
fn doc() -> Vec<Entry> {
    let mut out = vec![
        example("mount.opt.nfs.vers", "vers=4.2"),
        example("mount.opt.cifs.vers", "vers=3.1.1"),
    ];
    for family in families() {
        for spec in offered(family) {
            if spec.kind == Kind::Value && out.iter().all(|e| e.key != spec.help) {
                out.push(example(spec.help, &format!("{}=1000", spec.key)));
            }
        }
    }
    out
}

const FSTYPES: [(&str, Family); 6] = [
    ("auto", Family::Generic),
    ("ext4", Family::Generic),
    ("nfs", Family::Nfs),
    ("nfs4", Family::Nfs),
    ("cifs", Family::Cifs),
    ("none", Family::Bind),
];

fn families() -> [Family; 4] {
    [Family::Generic, Family::Nfs, Family::Cifs, Family::Bind]
}

// -----------------------------------------------------------------
// The invariant the menu exists to protect: nothing is ever dropped.
// -----------------------------------------------------------------

/// Every option the menu offers must survive being written into an
/// `Options=` string and read back.
#[test]
fn every_offered_option_parses_back_unchanged() {
    for family in families() {
        for spec in offered(family) {
            let opt = match spec.kind {
                Kind::Flag => Opt::flag(spec.key),
                Kind::Value => {
                    let v = suggested_value(&spec, &doc());
                    assert!(
                        !v.is_empty(),
                        "{} has no example value to prompt with",
                        spec.key
                    );
                    Opt::valued(spec.key, &v)
                }
            };
            let text = compose(&[opt.clone()]);
            assert_eq!(parse_options(&text), vec![opt.clone()], "{}", spec.key);

            // And through the set, which is what the menu actually edits.
            let set = OptionSet::new(&text, fstype_of(family));
            assert!(set.is_on(spec.key), "{} lost by OptionSet", spec.key);
            assert_eq!(set.text(), text, "{}", spec.key);
            assert!(
                set.extras().is_empty(),
                "{} should be recognised, not an extra",
                spec.key
            );
        }
    }
}

fn fstype_of(f: Family) -> &'static str {
    match f {
        Family::Generic => "ext4",
        Family::Nfs => "nfs",
        Family::Cifs => "cifs",
        Family::Bind => "none",
    }
}

/// A whole option string of everything offered, round-tripped at once.
#[test]
fn a_full_option_string_round_trips() {
    for family in families() {
        let all: Vec<Opt> = offered(family)
            .into_iter()
            // Only one member of each exclusive pair, so the string is
            // one a user could actually have produced.
            .filter(|s: &Spec| s.group.is_none() || first_of_group(family, s))
            .map(|s| match s.kind {
                Kind::Flag => Opt::flag(s.key),
                Kind::Value => Opt::valued(s.key, &suggested_value(&s, &doc())),
            })
            .collect();
        let text = compose(&all);
        assert_eq!(parse_options(&text), all, "{family:?}");
        let set = OptionSet::new(&text, fstype_of(family));
        assert_eq!(set.text(), text, "{family:?}");
    }
}

fn first_of_group(family: Family, spec: &Spec) -> bool {
    offered(family)
        .into_iter()
        .find(|s| s.group == spec.group)
        .is_some_and(|s| s.key == spec.key)
}

/// The options deliberately left off the menu, and anything else exotic,
/// must come back byte for byte.
#[test]
fn unrecognised_options_survive_untouched() {
    let fstab_only = "x-systemd.automount,x-systemd.requires=/mnt/lower,\
                      x-systemd.device-timeout=10s,x-systemd.mount-timeout=30s,\
                      x-systemd.makefs,x-systemd.growfs,x-systemd.idle-timeout=120";
    let raw = format!("ro,{fstab_only},file_mode=0640");
    let set = OptionSet::new(&raw, "ext4");
    assert_eq!(set.text(), raw, "an untouched set must not change");
    assert!(set.is_on("ro"));
    let extras: Vec<String> = set.extras().into_iter().map(|o| o.text()).collect();
    assert_eq!(extras.len(), 8, "{extras:?}");
    assert!(extras.contains(&"x-systemd.automount".to_string()));
    assert!(extras.contains(&"file_mode=0640".to_string()));

    // Editing a recognised option leaves every extra exactly where it was.
    let mut set = set;
    set.toggle(&spec_for(Family::Generic, "nosuid").unwrap(), None);
    assert_eq!(set.text(), format!("{raw},nosuid"));
    for e in fstab_only.split(',') {
        assert!(set.text().contains(e), "{e} lost");
    }
}

#[test]
fn the_fstab_only_options_are_not_offered_anywhere() {
    let banned = [
        "x-systemd.automount",
        "x-systemd.requires",
        "x-systemd.device-timeout",
        "x-systemd.mount-timeout",
        "x-systemd.makefs",
        "x-systemd.growfs",
        "x-systemd.idle-timeout",
    ];
    for family in families() {
        for spec in offered(family) {
            assert!(
                !banned.contains(&spec.key),
                "{} must not be offered: it is inert in a unit file",
                spec.key
            );
        }
    }
}

/// `nofail` and `_netdev` do work in a unit file, so they must stay.
#[test]
fn the_options_that_do_work_are_kept() {
    for family in families() {
        let keys: Vec<&str> = offered(family).into_iter().map(|s| s.key).collect();
        assert!(keys.contains(&"nofail"), "{family:?}");
        assert!(keys.contains(&"_netdev"), "{family:?}");
    }
}

// -----------------------------------------------------------------
// Parsing and composing
// -----------------------------------------------------------------

#[test]
fn parsing_keeps_order_values_and_empty_values() {
    let opts = parse_options("rw, vers=4.2 ,noatime,foo=");
    assert_eq!(
        opts,
        vec![
            Opt::flag("rw"),
            Opt::valued("vers", "4.2"),
            Opt::flag("noatime"),
            Opt::valued("foo", ""),
        ]
    );
    assert_eq!(compose(&opts), "rw,vers=4.2,noatime,foo=");
    // A bare key and an empty value stay distinguishable.
    assert_ne!(parse_options("foo"), parse_options("foo="));
}

#[test]
fn empty_and_degenerate_strings_are_handled() {
    assert!(parse_options("").is_empty());
    assert!(parse_options("  ").is_empty());
    assert!(parse_options(",,,").is_empty());
    assert_eq!(compose(&[]), "");
    assert_eq!(OptionSet::new("", "ext4").text(), "");
    // A value containing '=' keeps the tail intact.
    assert_eq!(parse_options("a=b=c"), vec![Opt::valued("a", "b=c")]);
}

#[test]
fn every_preset_option_string_round_trips() {
    for p in MountPreset::all() {
        let set = OptionSet::new(p.options(), p.fstype());
        assert_eq!(set.text(), p.options(), "{}", p.label());
        assert!(
            set.extras().is_empty(),
            "{} leaves unrecognised options: {:?}",
            p.label(),
            set.extras_text()
        );
    }
}

// -----------------------------------------------------------------
// Filtering by filesystem
// -----------------------------------------------------------------

#[test]
fn fstype_decides_the_family() {
    for (fstype, family) in FSTYPES {
        assert_eq!(family_for(fstype), family, "{fstype}");
        assert_eq!(family_for(&fstype.to_uppercase()), family, "{fstype}");
    }
    assert_eq!(family_for("  ext4 "), Family::Generic);
}

#[test]
fn each_family_offers_its_own_options_and_no_others() {
    let has = |f: Family, k: &str| offered(f).into_iter().any(|s| s.key == k);
    // The generic set is everywhere.
    for f in families() {
        assert!(
            has(f, "ro") && has(f, "noatime") && has(f, "defaults"),
            "{f:?}"
        );
    }
    assert!(has(Family::Nfs, "soft") && has(Family::Nfs, "retrans"));
    assert!(!has(Family::Generic, "soft") && !has(Family::Cifs, "soft"));
    assert!(has(Family::Cifs, "credentials") && has(Family::Cifs, "iocharset"));
    assert!(!has(Family::Nfs, "credentials") && !has(Family::Bind, "credentials"));
    assert!(has(Family::Bind, "bind") && has(Family::Bind, "rbind"));
    assert!(!has(Family::Generic, "bind") && !has(Family::Nfs, "rbind"));
}

#[test]
fn vers_means_different_things_to_nfs_and_cifs() {
    let nfs = spec_for(Family::Nfs, "vers").expect("nfs vers");
    let cifs = spec_for(Family::Cifs, "vers").expect("cifs vers");
    assert_eq!(nfs.help, "mount.opt.nfs.vers");
    assert_eq!(cifs.help, "mount.opt.cifs.vers");
    assert_eq!(suggested_value(&nfs, &doc()), "4.2");
    assert_eq!(suggested_value(&cifs, &doc()), "3.1.1");
}

#[test]
fn an_option_from_the_wrong_family_becomes_an_extra() {
    // A CIFS option on an NFS mount is not something the menu can show,
    // so it must land in the free-text entry rather than vanish.
    let set = OptionSet::new("rw,credentials=/etc/creds", "nfs");
    assert_eq!(set.extras_text(), "credentials=/etc/creds");
    assert_eq!(set.text(), "rw,credentials=/etc/creds");
}

// -----------------------------------------------------------------
// Toggling
// -----------------------------------------------------------------

#[test]
fn exclusive_pairs_replace_rather_than_accumulate() {
    let ro = spec_for(Family::Generic, "ro").unwrap();
    let rw = spec_for(Family::Generic, "rw").unwrap();
    let mut set = OptionSet::new("rw,noatime,nofail", "ext4");
    set.enable(&ro, None);
    // ro takes rw's position; nothing else moves and rw is gone.
    assert_eq!(set.text(), "ro,noatime,nofail");
    assert!(!set.is_on("rw"));
    set.enable(&rw, None);
    assert_eq!(set.text(), "rw,noatime,nofail");

    // The other pairs behave the same way.
    for (fstype, a, b, family) in [
        ("ext4", "noatime", "relatime", Family::Generic),
        ("nfs", "hard", "soft", Family::Nfs),
        ("nfs", "bg", "fg", Family::Nfs),
        ("none", "bind", "rbind", Family::Bind),
    ] {
        let mut set = OptionSet::new(a, fstype);
        set.enable(&spec_for(family, b).unwrap(), None);
        assert_eq!(set.text(), b, "{a} -> {b}");
        assert!(!set.is_on(a), "{a} should be gone");
    }
}

#[test]
fn a_pair_that_was_already_doubled_up_collapses_to_one() {
    // Someone else's unit can carry both halves; picking one must not
    // leave the loser behind to override it.
    let mut set = OptionSet::new("ro,noatime,rw", "ext4");
    set.enable(&spec_for(Family::Generic, "ro").unwrap(), None);
    assert_eq!(set.text(), "ro,noatime");
}

#[test]
fn independent_options_do_not_interfere() {
    let mut set = OptionSet::new("", "ext4");
    for k in ["noexec", "nosuid", "nodev", "nofail", "_netdev"] {
        set.toggle(&spec_for(Family::Generic, k).unwrap(), None);
    }
    assert_eq!(set.text(), "noexec,nosuid,nodev,nofail,_netdev");
    set.toggle(&spec_for(Family::Generic, "nosuid").unwrap(), None);
    assert_eq!(set.text(), "noexec,nodev,nofail,_netdev");
}

#[test]
fn toggling_a_value_option_uses_the_suggested_value() {
    let vers = spec_for(Family::Nfs, "vers").unwrap();
    let mut set = OptionSet::new("rw", "nfs");
    set.toggle(&vers, Some(suggested_value(&vers, &doc())));
    assert_eq!(set.text(), "rw,vers=4.2");
    // Re-entering a value keeps the position.
    set.enable(&vers, Some("3".into()));
    assert_eq!(set.text(), "rw,vers=3");
    set.toggle(&vers, None);
    assert_eq!(set.text(), "rw");
}

#[test]
fn enabling_something_already_on_keeps_its_position() {
    let mut set = OptionSet::new("ro,vers=3,noatime", "nfs");
    set.enable(&spec_for(Family::Nfs, "vers").unwrap(), Some("4.2".into()));
    assert_eq!(set.text(), "ro,vers=4.2,noatime");
    set.enable(&spec_for(Family::Generic, "noatime").unwrap(), None);
    assert_eq!(set.text(), "ro,vers=4.2,noatime");
}

#[test]
fn extras_can_be_edited_in_place() {
    let mut set = OptionSet::new("ro,x-systemd.automount,nofail", "ext4");
    assert_eq!(set.extras_text(), "x-systemd.automount");
    set.set_extras("file_mode=0640,dir_mode=0750");
    assert_eq!(set.text(), "ro,file_mode=0640,dir_mode=0750,nofail");
    set.set_extras("");
    assert_eq!(set.text(), "ro,nofail");
    // With no extras present they append rather than being lost.
    set.set_extras("nobrl");
    assert_eq!(set.text(), "ro,nofail,nobrl");
}

#[test]
fn disabling_something_absent_is_a_no_op() {
    let mut set = OptionSet::new("ro", "ext4");
    set.disable("nosuid");
    assert_eq!(set.text(), "ro");
}

#[test]
fn turning_an_option_on_moves_nothing_else() {
    let mut set = OptionSet::new("a=1,hard,b,vers=4.2,c=", "nfs");
    let soft = spec_for(set.family(), "soft").unwrap();
    set.enable(&soft, None);
    assert_eq!(set.text(), "a=1,soft,b,vers=4.2,c=");
}
