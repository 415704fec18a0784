//! Unit names, paths inside them, slugs and command lines.

use notcron::unit::escape::{
    escape_name, escape_path, exec_quote, needs_shell, simplify, slugify, unescape_name,
    unescape_path,
};

#[test]
fn escapes_paths_like_systemd() {
    assert_eq!(escape_path("/mnt/data").unwrap(), "mnt-data");
    assert_eq!(escape_path("/srv/my-share").unwrap(), "srv-my\\x2dshare");
    assert_eq!(escape_path("/").unwrap(), "-");
    assert_eq!(escape_path("///").unwrap(), "-");
    assert_eq!(escape_path("/mnt/x/y//z/").unwrap(), "mnt-x-y-z");
    assert_eq!(escape_path("/mnt/wibble.d").unwrap(), "mnt-wibble.d");
    assert_eq!(escape_path("/mnt/it's").unwrap(), "mnt-it\\x27s");
    assert_eq!(
        escape_path("/mnt/\u{fc}n\u{ef}code").unwrap(),
        "mnt-\\xc3\\xbcn\\xc3\\xafcode"
    );
}

#[test]
fn rejects_unescapable_paths() {
    assert!(escape_path("relative/path").is_err());
    assert!(escape_path("/mnt/../etc").is_err());
}

#[test]
fn path_escaping_round_trips() {
    for (input, want) in [
        ("/mnt/data", "/mnt/data"),
        ("/srv/my-share", "/srv/my-share"),
        ("/", "/"),
        ("///", "/"),
        ("/mnt/it's", "/mnt/it's"),
        ("/mnt/a b/c", "/mnt/a b/c"),
        ("/mnt/x/y//z/", "/mnt/x/y/z"),
        ("/mnt/\u{fc}n\u{ef}code", "/mnt/\u{fc}n\u{ef}code"),
    ] {
        let esc = escape_path(input).unwrap();
        assert_eq!(unescape_path(&esc), want, "path {input}");
    }
}

#[test]
fn escapes_dot_names() {
    assert_eq!(escape_name("."), "\\x2e");
    assert_eq!(escape_name(".."), "\\x2e\\x2e");
}

#[test]
fn slugifies() {
    assert_eq!(slugify("Backup Script"), "backup-script");
    assert_eq!(
        slugify("/usr/local/bin/backup.sh"),
        "usr-local-bin-backup-sh"
    );
    assert_eq!(slugify("--weird--"), "weird");
    assert_eq!(slugify(""), "");
    assert_eq!(slugify(&"x".repeat(60)).len(), 40);
}

#[test]
fn quotes_exec_arguments() {
    assert_eq!(exec_quote("/bin/true"), "/bin/true");
    assert_eq!(exec_quote("--full"), "--full");
    assert_eq!(exec_quote(""), "\"\"");
    assert_eq!(exec_quote("a b"), "\"a b\"");
    assert_eq!(exec_quote("say \"hi\""), "\"say \\\"hi\\\"\"");
    assert_eq!(exec_quote("back\\slash"), "\"back\\\\slash\"");
}

#[test]
fn detects_shell_syntax() {
    assert!(!needs_shell("/usr/bin/rsync -a /data /backup"));
    assert!(needs_shell("df -h | mail -s disk me@example.com"));
    assert!(needs_shell("echo hi > /tmp/x"));
    assert!(needs_shell("a && b"));
}

#[test]
fn paths_are_simplified_but_never_resolved() {
    assert_eq!(simplify("/mnt//data/./x/"), "/mnt/data/x");
    assert_eq!(simplify("a/./b//"), "a/b");
    assert_eq!(simplify("/a/../b"), "/a/../b");
    assert_eq!(simplify("//"), "/");
    assert_eq!(simplify(""), "");
}

#[test]
fn a_sequence_without_two_hex_digits_stands_for_itself() {
    assert_eq!(unescape_name("\\x+f"), "\\x+f");
    assert_eq!(unescape_name("\\xg0"), "\\xg0");
    assert_eq!(unescape_name("\\x4"), "\\x4");
    assert_eq!(unescape_name("\\x4fa"), "Oa");
}
