//! The lingering trap.
//!
//! A user-scope timer only runs while the user has a systemd user manager,
//! and by default that manager is torn down at logout. A nightly backup timer
//! installed over SSH therefore stops firing the moment the session ends --
//! which, since user scope is the default, is the single most common way for
//! a freshly created timer to silently do nothing.
//!
//! `loginctl enable-linger <user>` fixes it by keeping the user manager alive
//! across logouts. This module judges whether that has been done; it never
//! enables lingering on its own.
//!
//! # Which signal is trusted
//!
//! The check is the presence of `/var/lib/systemd/linger/<user>`. That file
//! *is* systemd's own persistent record of the setting. The alternative,
//! `loginctl show-user <user> --property=Linger`, fails outright when the
//! user has no session -- the exact situation this module exists to warn
//! about -- so it counts only when the marker directory itself cannot be read.

use crate::paths;
use crate::systemd::Outcome;
use crate::text;
use crate::unit::model::Scope;
use vstd::prelude::*;

verus! {

broadcast use vstd::string::group_string_axioms;

/// systemd's persistent record of which users have lingering enabled.
pub const LINGER_DIR: &'static str = "/var/lib/systemd/linger";

/// The user name to act for.
pub open spec fn current_user_of(from_id: Option<Seq<char>>, env: Option<Seq<char>>) -> Option<
    Seq<char>,
> {
    if from_id is Some && !text::is_blank(from_id->0) {
        Some(text::trim_of(from_id->0))
    } else if env is Some && env->0.len() > 0 {
        env
    } else {
        None
    }
}

/// The user name to act for, from what `id -un` printed (where it succeeded)
/// and from `$USER`.
///
/// `$USER` is not trusted where `id` answers: it is inherited across `sudo`
/// and `su` and can simply be wrong.
pub fn current_user(from_id: &Option<String>, env: &Option<String>) -> (r: Option<String>)
    ensures
        text::opt_text(r) == current_user_of(text::opt_text(*from_id), text::opt_text(*env)),
{
    if let Some(s) = from_id {
        if !text::blank(s.as_str()) {
            return Some(text::trim(s.as_str()).to_owned());
        }
    }
    if let Some(s) = env {
        if !s.as_str().is_empty() {
            return Some(s.clone());
        }
    }
    None
}

/// What the marker directory says: whether it holds a file for the user, and
/// whether it exists at all. `None` where the filesystem answered nothing.
pub open spec fn marker_says_of(user: Seq<char>, marker: bool, dir: bool) -> Option<bool> {
    if user.len() == 0 {
        Some(false)
    } else if marker {
        Some(true)
    } else if dir {
        Some(false)
    } else {
        None
    }
}

/// What logind says, from what it printed where it answered.
pub open spec fn logind_says_of(printed: Option<Seq<char>>) -> Option<bool> {
    match printed {
        None => None,
        Some(s) => {
            let t = text::trim_of(s);
            if t == "yes"@ || t == "true"@ || t == "1"@ {
                Some(true)
            } else if t == "no"@ || t == "false"@ || t == "0"@ {
                Some(false)
            } else {
                None
            }
        },
    }
}

fn logind_says(printed: &Option<String>) -> (r: Option<bool>)
    ensures
        r == logind_says_of(text::opt_text(*printed)),
{
    match printed {
        None => None,
        Some(s) => {
            let t = text::trim(s.as_str());
            if text::same(t, "yes") || text::same(t, "true") || text::same(t, "1") {
                Some(true)
            } else if text::same(t, "no") || text::same(t, "false") || text::same(t, "0") {
                Some(false)
            } else {
                None
            }
        },
    }
}

/// What could be determined about lingering.
#[derive(Debug, Clone, Copy, PartialEq, Eq, Structural)]
pub enum Linger {
    Enabled,
    Disabled,
    /// Neither the marker directory nor logind gave an answer -- most likely
    /// a machine that is not running systemd. Do not nag the user about it.
    Unknown,
}

impl Linger {
    /// True only for a definite "no". `Unknown` is not a problem to report.
    pub fn is_definitely_disabled(self) -> (r: bool)
        ensures
            r == (self == Linger::Disabled),
    {
        matches!(self, Linger::Disabled)
    }
}

/// The state that an answer stands for.
pub open spec fn linger_of(answer: Option<bool>) -> Linger {
    match answer {
        Some(true) => Linger::Enabled,
        Some(false) => Linger::Disabled,
        None => Linger::Unknown,
    }
}

/// Lingering state for a user: what the marker directory says, and only where
/// that says nothing what logind says.
pub fn state_in(user: &str, marker: bool, dir: bool, logind: &Option<String>) -> (r: Linger)
    ensures
        r == linger_of(
            match marker_says_of(user@, marker, dir) {
                Some(b) => Some(b),
                None => logind_says_of(text::opt_text(*logind)),
            },
        ),
{
    if user.is_empty() {
        return Linger::Disabled;
    }
    if marker {
        return Linger::Enabled;
    }
    if dir {
        return Linger::Disabled;
    }
    match logind_says(logind) {
        Some(b) => if b {
            Linger::Enabled
        } else {
            Linger::Disabled
        },
        None => Linger::Unknown,
    }
}

/// Whether lingering matters at all for a scope. System units are started by
/// the system manager, which is always running, so only user scope cares.
pub fn is_needed(scope: Scope) -> (r: bool)
    ensures
        r == (scope == Scope::User),
{
    matches!(scope, Scope::User)
}

/// The full picture for one scope: what to show, and whether to warn.
#[derive(Debug)]
pub struct Check {
    pub scope: Scope,
    /// `None` when the username could not be determined.
    pub user: Option<String>,
    /// True when this scope depends on lingering.
    pub needed: bool,
    pub state: Linger,
}

impl Check {
    /// Whether to offer to enable lingering.
    pub open spec fn prompts(&self) -> bool {
        self.needed && self.state == Linger::Disabled && self.user is Some
    }

    /// Whether the TUI should offer to enable lingering: the scope needs it
    /// and it is definitely off.
    pub fn should_prompt(&self) -> (r: bool)
        ensures
            r == self.prompts(),
    {
        self.needed && self.state.is_definitely_disabled() && self.user.is_some()
    }

    /// A one-line warning to show the user, or `None` when all is well.
    pub fn warning(&self) -> (r: Option<String>)
        ensures
            match r {
                Some(w) => self.prompts() && w@ == "lingering is off for '"@ + self.user->0@
                    + "': user timers stop at logout. Run `loginctl enable-linger "@ + self.user->0@
                    + "` to keep them running."@,
                None => !self.prompts(),
            },
    {
        if !self.should_prompt() {
            return None;
        }
        match &self.user {
            Some(user) => Some(
                text::cat5(
                    "lingering is off for '",
                    user.as_str(),
                    "': user timers stop at logout. Run `loginctl enable-linger ",
                    user.as_str(),
                    "` to keep them running.",
                ),
            ),
            None => None,
        }
    }
}

/// The picture for a scope, from the user and the state that was found for
/// them. Without a user the state is unknown.
pub fn check(scope: Scope, user: Option<String>, state: Linger) -> (r: Check)
    ensures
        r.scope == scope,
        r.user == user,
        r.needed == (scope == Scope::User),
        r.state == if user is Some {
            state
        } else {
            Linger::Unknown
        },
{
    let state = if user.is_some() {
        state
    } else {
        Linger::Unknown
    };
    Check { scope, user, needed: is_needed(scope), state }
}

/// What running `loginctl enable-linger <user>` came to, or why it cannot be
/// asked for. `ran` is what the command left, or why it could not be run.
///
/// Enabling lingering changes system state, so the command is run only after
/// the user has agreed.
pub fn enable(user: &str, ran: &Result<Outcome, String>) -> (r: Result<(), String>)
    ensures
        match r {
            Ok(_) => user@.len() > 0 && ran is Ok && ran->Ok_0.success,
            Err(e) => if user@.len() == 0 {
                e@ == "cannot enable lingering: unknown username"@
            } else {
                match *ran {
                    Err(why) => e@ == "failed to run loginctl: "@ + why@,
                    Ok(out) => !out.success && e@ == if text::is_blank(out.stderr@) {
                        "loginctl enable-linger "@ + user@ + " failed"@
                    } else {
                        "loginctl enable-linger "@ + user@ + ": "@ + text::trim_of(out.stderr@)
                    },
                }
            },
        },
{
    if user.is_empty() {
        return Err("cannot enable lingering: unknown username".to_owned());
    }
    match ran {
        Err(why) => Err(text::cat2("failed to run loginctl: ", why.as_str())),
        Ok(out) => {
            if out.success {
                return Ok(());
            }
            let msg = text::trim(out.stderr.as_str());
            if msg.is_empty() {
                Err(text::cat3("loginctl enable-linger ", user, " failed"))
            } else {
                let head = text::cat3("loginctl enable-linger ", user, ": ");
                Err(text::cat2(head.as_str(), msg))
            }
        },
    }
}

/// Path of the marker file for a user.
pub fn marker_path(user: &str) -> (r: String)
    ensures
        r@ == paths::join_of(LINGER_DIR@, user@),
{
    paths::join(LINGER_DIR, user)
}

/// The user is the one that `id` prints, whatever the environment says; the
/// environment counts only where `id` says nothing.
pub proof fn law_id_comes_first(name: Seq<char>, env: Option<Seq<char>>)
    requires
        name.len() > 0,
        text::trim_of(name) == name,
    ensures
        current_user_of(Some(name.push('\n')), env) == Some(name),
        current_user_of(None, Some(name)) == Some(name),
        current_user_of(None, None) is None,
{
    let s = name.push('\n');
    assert(s.drop_last() =~= name);
    text::lemma_trim_shorter(s);
}

/// The marker decides; only where its directory cannot be read does the
/// login manager's answer count.
pub proof fn law_the_marker_decides(user: Seq<char>, dir: bool, answer: Option<Seq<char>>)
    requires
        user.len() > 0,
    ensures
        marker_says_of(user, true, dir) == Some(true),
        marker_says_of(user, false, true) == Some(false),
        marker_says_of(user, false, false) is None,
        linger_of(Some(true)) == Linger::Enabled,
        linger_of(Some(false)) == Linger::Disabled,
        linger_of(None) == Linger::Unknown,
        answer is None ==> logind_says_of(answer) is None,
{
}

/// The login manager's answer is yes or no in any of three spellings, with
/// white space around it or not; any other answer says nothing.
pub proof fn law_answers_are_understood(s: Seq<char>)
    ensures
        ({
            let t = text::trim_of(s);
            let yes = t == seq!['y', 'e', 's'] || t == seq!['t', 'r', 'u', 'e'] || t == seq!['1'];
            let no = t == seq!['n', 'o'] || t == seq!['f', 'a', 'l', 's', 'e'] || t == seq!['0'];
            &&& logind_says_of(Some(s)) == Some(true) <==> yes
            &&& logind_says_of(Some(s)) == Some(false) <==> no
        }),
{
    reveal_strlit("yes");
    reveal_strlit("true");
    reveal_strlit("1");
    reveal_strlit("no");
    reveal_strlit("false");
    reveal_strlit("0");
    assert("yes"@ =~= seq!['y', 'e', 's']);
    assert("true"@ =~= seq!['t', 'r', 'u', 'e']);
    assert("1"@ =~= seq!['1']);
    assert("no"@ =~= seq!['n', 'o']);
    assert("false"@ =~= seq!['f', 'a', 'l', 's', 'e']);
    assert("0"@ =~= seq!['0']);
    assert("no"@.len() == 2 && "false"@.len() == 5 && "yes"@.len() == 3 && "true"@.len() == 4);
    assert("1"@[0] == '1' && "0"@[0] == '0');
}

} // verus!
