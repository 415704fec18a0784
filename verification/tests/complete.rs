//! Completion of paths, programs, users and groups.

use notcron::complete::{
    complete_executable, complete_group, complete_path, complete_user, expand_tilde,
    groups_from_group, longest_common_prefix, lookup_dir, users_from_passwd, Accounts, Listed,
};

fn s(v: &[&str]) -> Vec<String> {
    v.iter().map(|x| x.to_string()).collect()
}

fn listed(name: &str, is_dir: bool, executable: bool) -> Listed {
    Listed { name: name.to_string(), is_dir, executable }
}

/// bin/{run,plain}, data/, data2/, README
struct Tree;

impl Tree {
    fn new() -> Tree {
        Tree
    }

    fn at(&self, rel: &str) -> String {
        format!("/tree/{rel}")
    }

    /// What the directory of a partial path holds, in no order.
    fn listing(&self, partial: &str) -> Option<Vec<Listed>> {
        match lookup_dir(partial, "/home/x").as_str() {
            "/tree/" => Some(vec![
                listed("data2", true, false),
                listed("README", false, false),
                listed("bin", true, false),
                listed(".hidden", false, false),
                listed("data", true, false),
            ]),
            "/tree/bin/" => Some(vec![listed("run", false, true), listed("plain", false, false)]),
            _ => None,
        }
    }
}

#[test]
fn common_prefix_of_candidates() {
    assert_eq!(longest_common_prefix(&[]), None);
    assert_eq!(longest_common_prefix(&s(&["only"])).unwrap(), "only");
    assert_eq!(
        longest_common_prefix(&s(&["backup-a", "backup-b"])).unwrap(),
        "backup-"
    );
    assert_eq!(longest_common_prefix(&s(&["a", "b"])).unwrap(), "");
    // Must not split a multi-byte character.
    assert_eq!(
        longest_common_prefix(&s(&["\u{fc}ber", "\u{fc}nter"])).unwrap(),
        "\u{fc}"
    );
}

#[test]
fn completes_a_directory_listing() {
    let t = Tree::new();
    let c = complete_path(&t.at(""), false, &t.listing(&t.at("")));
    assert_eq!(
        c.candidates,
        s(&[
            &t.at("README"),
            &t.at("bin/"),
            &t.at("data/"),
            &t.at("data2/")
        ])
    );
    // Hidden files stay hidden until the dot is typed.
    assert!(!c.candidates.iter().any(|x| x.contains("hidden")));
    let hidden = complete_path(&t.at(".h"), false, &t.listing(&t.at(".h")));
    assert_eq!(hidden.candidates, s(&[&t.at(".hidden")]));
}

#[test]
fn completes_to_the_common_prefix_first() {
    let t = Tree::new();
    let c = complete_path(&t.at("d"), false, &t.listing(&t.at("d")));
    assert_eq!(c.candidates, s(&[&t.at("data/"), &t.at("data2/")]));
    assert_eq!(c.common, t.at("data"));
    assert!(!c.is_unique());
}

#[test]
fn a_unique_match_completes_fully_with_a_slash_for_directories() {
    let t = Tree::new();
    let c = complete_path(&t.at("b"), false, &t.listing(&t.at("b")));
    assert!(c.is_unique());
    assert_eq!(c.common, t.at("bin/"));
    let f = complete_path(&t.at("RE"), false, &t.listing(&t.at("RE")));
    assert_eq!(f.common, t.at("README"));
}

#[test]
fn trailing_slash_lists_the_directory() {
    let t = Tree::new();
    let c = complete_path(&t.at("bin/"), false, &t.listing(&t.at("bin/")));
    assert_eq!(c.candidates, s(&[&t.at("bin/plain"), &t.at("bin/run")]));
}

#[test]
fn dirs_only_filters_out_files() {
    let t = Tree::new();
    let c = complete_path(&t.at(""), true, &t.listing(&t.at("")));
    assert_eq!(
        c.candidates,
        s(&[&t.at("bin/"), &t.at("data/"), &t.at("data2/")])
    );
}

#[test]
fn executable_completion_keeps_directories_and_programs() {
    let t = Tree::new();
    let c = complete_executable(&t.at("bin/"), &t.listing(&t.at("bin/")));
    assert_eq!(c.candidates, s(&[&t.at("bin/run")]));
    // Directories survive so the user can keep descending.
    let top = complete_executable(&t.at(""), &t.listing(&t.at("")));
    assert!(top.candidates.contains(&t.at("bin/")));
    assert!(!top.candidates.contains(&t.at("README")));
}

#[test]
fn no_match_leaves_the_input_alone() {
    let t = Tree::new();
    let c = complete_path(&t.at("zzz"), false, &t.listing(&t.at("zzz")));
    assert!(c.is_empty());
    assert_eq!(c.common, t.at("zzz"));
}

#[test]
fn unreadable_or_missing_directories_do_not_panic() {
    let c = complete_path("/nonexistent-dir-xyzzy/foo", false, &None);
    assert!(c.is_empty());
    assert_eq!(c.common, "/nonexistent-dir-xyzzy/foo");
    assert!(complete_path("/proc/1/root/", false, &None).is_empty());
    assert!(complete_path("", false, &None).is_empty());
}

#[test]
fn relative_paths_complete_against_the_cwd() {
    assert_eq!(lookup_dir("src/comp", "/home/x"), "src/");
    assert_eq!(lookup_dir("comp", "/home/x"), ".");
    let c = complete_path("src/comp", false, &Some(vec![listed("complete.rs", false, false)]));
    assert!(
        c.candidates.iter().any(|x| x == "src/complete.rs"),
        "{:?}",
        c.candidates
    );
}

#[test]
fn tilde_is_expanded_for_lookup_but_kept_in_candidates() {
    let home = "/home/x";
    assert_eq!(expand_tilde("~", home), home);
    assert_eq!(expand_tilde("~/.config", home), "/home/x/.config");
    assert_eq!(expand_tilde("/usr/~x", home), "/usr/~x");
    assert_eq!(expand_tilde("~bob/x", home), "~bob/x");

    // Complete inside the home directory through the tilde form.
    assert_eq!(lookup_dir("~/", home), "/home/x/");
    let entries = || Some(vec![listed("docs", true, false), listed("notes", false, false)]);
    let c = complete_path("~/", false, &entries());
    let direct = complete_path(&format!("{home}/"), false, &entries());
    assert_eq!(c.candidates.len(), direct.candidates.len());
    assert!(c.candidates.iter().all(|x| x.starts_with("~/")));
}

const PASSWD: &str = "\
root:x:0:0:root:/root:/bin/bash
daemon:x:1:1:daemon:/usr/sbin:/usr/sbin/nologin
www-data:x:33:33:www-data:/var/www:/usr/sbin/nologin
nobody:x:65534:65534:nobody:/nonexistent:/usr/sbin/nologin
# a comment
carol:x:999:999::/home/carol:/bin/bash
alice:x:1000:1000::/home/alice:/bin/bash
albert:x:1001:1001::/home/albert:/bin/sh
frozen:x:1002:1002::/home/frozen:/usr/sbin/nologin
truncated:x:1003
:x:1004:1004::/home/blank:/bin/sh
bogus:x:notanumber:0::/x:/bin/sh
";

#[test]
fn passwd_login_filter_keeps_humans_and_root() {
    let all = users_from_passwd(PASSWD, "", Accounts::Login);
    assert_eq!(all, s(&["albert", "alice", "root"]));
}

#[test]
fn passwd_all_includes_system_accounts() {
    let all = users_from_passwd(PASSWD, "", Accounts::All);
    assert!(all.contains(&"www-data".to_string()));
    assert!(all.contains(&"nobody".to_string()));
    assert!(all.contains(&"carol".to_string()));
    // Still no malformed entries.
    assert!(!all.contains(&"truncated".to_string()));
    assert!(!all.contains(&"bogus".to_string()));
    assert!(!all.iter().any(|x| x.is_empty()));
}

#[test]
fn passwd_matches_a_prefix() {
    assert_eq!(
        users_from_passwd(PASSWD, "al", Accounts::Login),
        s(&["albert", "alice"])
    );
    assert!(users_from_passwd(PASSWD, "zz", Accounts::All).is_empty());
    assert_eq!(
        users_from_passwd("", "a", Accounts::All),
        Vec::<String>::new()
    );
}

const GROUP: &str = "\
root:x:0:
adm:x:4:syslog
# comment
carol:x:999:
alice:x:1000:
allies:x:1001:alice,albert
short:x
bad:x:nope:
";

#[test]
fn group_parsing_mirrors_passwd() {
    assert_eq!(
        groups_from_group(GROUP, "", Accounts::Login),
        s(&["alice", "allies", "root"])
    );
    let all = groups_from_group(GROUP, "", Accounts::All);
    assert!(all.contains(&"adm".to_string()));
    assert!(!all.contains(&"short".to_string()));
    assert!(!all.contains(&"bad".to_string()));
    assert_eq!(
        groups_from_group(GROUP, "al", Accounts::All),
        s(&["alice", "allies"])
    );
}

#[test]
fn live_account_completion_finds_root() {
    let u = complete_user(PASSWD, "roo", Accounts::Login);
    assert!(u.candidates.contains(&"root".to_string()));
    assert_eq!(u.common, "root");
    let g = complete_group(GROUP, "roo", Accounts::Login);
    assert!(g.candidates.contains(&"root".to_string()));
    // Unreadable files complete nothing.
    assert!(complete_user("", "roo", Accounts::Login).candidates.is_empty());
    assert!(complete_group("", "roo", Accounts::Login).candidates.is_empty());
}
