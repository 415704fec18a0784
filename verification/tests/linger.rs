//! Lingering.

use notcron::linger::{
    check, current_user, enable, is_needed, marker_path, state_in, Check, Linger, LINGER_DIR,
};
use notcron::systemd::Outcome;
use notcron::unit::model::Scope;

#[test]
fn a_present_marker_file_means_enabled() {
    assert_eq!(state_in("carol", true, true, &None), Linger::Enabled);
}

#[test]
fn an_existing_directory_without_the_user_means_disabled() {
    assert_eq!(state_in("carol", false, true, &None), Linger::Disabled);
}

#[test]
fn an_empty_username_is_never_lingering() {
    assert_eq!(state_in("", false, true, &None), Linger::Disabled);
}

#[test]
fn a_missing_marker_directory_falls_through_to_logind() {
    let user = "definitely-not-a-real-user-9f3a";
    assert_eq!(state_in(user, false, false, &None), Linger::Unknown);
    assert_eq!(state_in(user, false, false, &Some("no\n".into())), Linger::Disabled);
    assert_eq!(state_in(user, false, false, &Some("yes\n".into())), Linger::Enabled);
    assert_eq!(state_in(user, false, false, &Some("perhaps".into())), Linger::Unknown);
}

#[test]
fn lingering_only_matters_for_user_scope() {
    assert!(is_needed(Scope::User));
    assert!(!is_needed(Scope::System));
}

#[test]
fn system_scope_never_prompts() {
    let c = Check {
        scope: Scope::System,
        user: Some("carol".into()),
        needed: false,
        state: Linger::Disabled,
    };
    assert!(!c.should_prompt());
    assert!(c.warning().is_none());
}

#[test]
fn user_scope_with_lingering_off_prompts_once_with_a_useful_message() {
    let c = Check {
        scope: Scope::User,
        user: Some("carol".into()),
        needed: true,
        state: Linger::Disabled,
    };
    assert!(c.should_prompt());
    let w = c.warning().unwrap();
    assert!(w.contains("loginctl enable-linger carol"), "{w}");
}

#[test]
fn unknown_state_does_not_nag() {
    for (state, user) in [
        (Linger::Unknown, Some("carol".to_string())),
        (Linger::Enabled, Some("carol".to_string())),
        (Linger::Disabled, None),
    ] {
        let c = Check {
            scope: Scope::User,
            user,
            needed: true,
            state,
        };
        assert!(!c.should_prompt(), "{state:?} should not prompt");
    }
}

fn ran(success: bool, stderr: &str) -> Result<Outcome, String> {
    Ok(Outcome { success, stdout: String::new(), stderr: stderr.to_string() })
}

#[test]
fn enabling_without_a_username_fails_cleanly() {
    assert!(enable("", &ran(true, "")).is_err());
    assert_eq!(enable("carol", &ran(true, "")), Ok(()));
    assert_eq!(
        enable("carol", &ran(false, "")),
        Err("loginctl enable-linger carol failed".to_string())
    );
    assert_eq!(
        enable("carol", &ran(false, " denied\n")),
        Err("loginctl enable-linger carol: denied".to_string())
    );
    assert_eq!(
        enable("carol", &Err("not found".to_string())),
        Err("failed to run loginctl: not found".to_string())
    );
}

#[test]
fn the_current_user_agrees_with_id_un() {
    let u = current_user(&Some("carol\n".into()), &Some("other".into()));
    if let Some(u) = &u {
        assert!(!u.contains('\n'), "{u:?}");
        assert_eq!(u.trim(), u);
    }
    assert_eq!(u.as_deref(), Some("carol"));
    assert_eq!(current_user(&None, &Some("other".into())).as_deref(), Some("other"));
    assert_eq!(current_user(&Some(" ".into()), &None), None);
    assert_eq!(marker_path("carol"), format!("{LINGER_DIR}/carol"));
}

#[test]
fn check_is_read_only_and_self_consistent() {
    let c = check(Scope::User, Some("carol".into()), Linger::Disabled);
    assert!(c.needed);
    assert_eq!(c.scope, Scope::User);
    assert_eq!(c.state, Linger::Disabled);
    assert_eq!(check(Scope::User, None, Linger::Disabled).state, Linger::Unknown);
    assert!(!check(Scope::System, None, Linger::Enabled).needed);
}
