//! Accounts-domain checks (`getent passwd`, `/etc/login.defs`).

use super::parse::{
    keyword_map, parse_keyword_map, parse_passwd, passwd_entries, passwordless_users,
    shadow_empty_password_accounts, PasswdView,
};
use super::{
    failing, passing, plain_info, Check, CheckInfo, Domain, Outcome, OutcomeView, Severity,
};
use crate::text::chars::{chars_of, deep, lemma_deep_empty, lemma_deep_push};
use crate::text::compose::{join_texts, joined};
use crate::text::debug::{quote, quoted};
use crate::text::number::{digits, format_u64, octal_of, parse_octal, parse_u32, u32_of};
use crate::text::search::eq_text;
use crate::text::split::{lemma_filter_map_step, lemma_take_all, trim, trimmed};
use crate::textmap::lookup;
use vstd::prelude::*;
use vstd::string::StringExecFns;

verus! {

/// The name of an entry that has user id 0 and is not `root`.
pub open spec fn hidden_root(e: PasswdView) -> Option<Seq<char>> {
    if e.uid == 0 && e.name != "root"@ {
        Some(e.name)
    } else {
        None
    }
}

pub open spec fn hidden_roots(output: Seq<char>) -> Seq<Seq<char>> {
    passwd_entries(output).filter_map(|e: PasswdView| hidden_root(e))
}

fn find_hidden_roots(output: &str) -> (r: Vec<String>)
    ensures
        deep(r@) == hidden_roots(output@),
{
    broadcast use lemma_deep_empty;

    let entries = parse_passwd(output);
    let mut out: Vec<String> = Vec::new();
    let ghost found = |e: PasswdView| hidden_root(e);
    let mut i: usize = 0;
    while i < entries.len()
        invariant
            i <= entries@.len(),
            found == |e: PasswdView| hidden_root(e),
            deep(out@) == deep(entries@).take(i as int).filter_map(found),
        decreases entries@.len() - i,
    {
        broadcast use lemma_deep_push;

        proof {
            lemma_filter_map_step(deep(entries@), found, i as int);
        }
        if entries[i].uid == 0 && !eq_text(entries[i].name.as_str(), "root") {
            out.push(entries[i].name.clone());
        }
        i = i + 1;
    }
    proof {
        lemma_take_all(deep(entries@));
    }
    out
}

/// An account other than `root` has UID 0 (a hidden superuser).
pub struct NonRootUid0;

impl Check for NonRootUid0 {
    open spec fn info(&self) -> CheckInfo {
        plain_info(
            "accounts-nonroot-uid0",
            Domain::Accounts,
            "Non-root account with UID 0",
            Severity::Critical,
            "Only `root` should have UID 0. Investigate and remove or re-number any other UID-0 account.",
            "getent passwd",
            false,
        )
    }

    open spec fn verdict(&self, output: Seq<char>) -> OutcomeView {
        let extra = hidden_roots(output);
        if extra.len() == 0 {
            passing("Only root has UID 0."@)
        } else {
            failing("Accounts with UID 0 besides root: "@ + joined(extra, ", "@) + "."@)
        }
    }

    fn facts(&self) -> (r: CheckInfo) {
        plain_info(
            "accounts-nonroot-uid0",
            Domain::Accounts,
            "Non-root account with UID 0",
            Severity::Critical,
            "Only `root` should have UID 0. Investigate and remove or re-number any other UID-0 account.",
            "getent passwd",
            false,
        )
    }

    fn evaluate(&self, output: &str) -> (r: Outcome) {
        let extra = find_hidden_roots(output);
        if extra.len() == 0 {
            Outcome::pass("Only root has UID 0.".to_string())
        } else {
            let list = join_texts(&extra, ", ");
            let mut s = "Accounts with UID 0 besides root: ".to_string();
            s.append(list.as_str());
            s.append(".");
            Outcome::fail(s)
        }
    }
}

/// Password expiry policy is missing or too long (`PASS_MAX_DAYS`).
pub struct PassMaxDays;

impl Check for PassMaxDays {
    open spec fn info(&self) -> CheckInfo {
        plain_info(
            "accounts-pass-max-days",
            Domain::Accounts,
            "Password expiry policy too weak",
            Severity::Low,
            "Set PASS_MAX_DAYS to 365 or less in /etc/login.defs.",
            "cat /etc/login.defs",
            false,
        )
    }

    open spec fn verdict(&self, output: Seq<char>) -> OutcomeView {
        let days = match lookup(keyword_map(output), "pass_max_days"@) {
            Some(v) => u32_of(v),
            None => None,
        };
        match days {
            Some(n) => if n <= 365 {
                passing("PASS_MAX_DAYS is "@ + digits(n as int) + "."@)
            } else {
                failing("PASS_MAX_DAYS is "@ + digits(n as int) + " (recommended 365 or less)."@)
            },
            None => failing("PASS_MAX_DAYS is not set (passwords never expire)."@),
        }
    }

    fn facts(&self) -> (r: CheckInfo) {
        plain_info(
            "accounts-pass-max-days",
            Domain::Accounts,
            "Password expiry policy too weak",
            Severity::Low,
            "Set PASS_MAX_DAYS to 365 or less in /etc/login.defs.",
            "cat /etc/login.defs",
            false,
        )
    }

    fn evaluate(&self, output: &str) -> (r: Outcome) {
        let cfg = parse_keyword_map(output);
        let days: Option<u32> = match cfg.get("pass_max_days") {
            Some(v) => {
                let text = chars_of(v.as_str());
                parse_u32(text.as_slice())
            },
            None => None,
        };
        match days {
            Some(n) => {
                let shown = format_u64(n as u64);
                let mut s = "PASS_MAX_DAYS is ".to_string();
                s.append(shown.as_str());
                if n <= 365 {
                    s.append(".");
                    Outcome::pass(s)
                } else {
                    s.append(" (recommended 365 or less).");
                    Outcome::fail(s)
                }
            },
            None => Outcome::fail(
                "PASS_MAX_DAYS is not set (passwords never expire).".to_string(),
            ),
        }
    }
}

/// The default `UMASK` leaves files readable by group/other. Group and other must have no
/// access, so those bits must be set in the mask; an unset `UMASK` is the permissive 022.
pub struct DefaultUmask;

impl Check for DefaultUmask {
    open spec fn info(&self) -> CheckInfo {
        plain_info(
            "accounts-umask",
            Domain::Accounts,
            "Weak default UMASK",
            Severity::Low,
            "Set UMASK 027 (or 077) in /etc/login.defs so new files aren't world/group-readable.",
            "cat /etc/login.defs",
            false,
        )
    }

    open spec fn verdict(&self, output: Seq<char>) -> OutcomeView {
        let raw = match lookup(keyword_map(output), "umask"@) {
            Some(v) => v,
            None => "022"@,
        };
        match octal_of(trim(raw)) {
            Some(mask) => if mask & 0o027 == 0o027 {
                passing("UMASK is "@ + raw + "."@)
            } else {
                failing("UMASK is "@ + raw + " (too permissive; use 027 or 077)."@)
            },
            None => failing("UMASK is not octal: "@ + quoted(raw) + "."@),
        }
    }

    fn facts(&self) -> (r: CheckInfo) {
        plain_info(
            "accounts-umask",
            Domain::Accounts,
            "Weak default UMASK",
            Severity::Low,
            "Set UMASK 027 (or 077) in /etc/login.defs so new files aren't world/group-readable.",
            "cat /etc/login.defs",
            false,
        )
    }

    fn evaluate(&self, output: &str) -> (r: Outcome) {
        let cfg = parse_keyword_map(output);
        let raw: String = match cfg.get("umask") {
            Some(v) => v.clone(),
            None => "022".to_string(),
        };
        let text = chars_of(raw.as_str());
        match parse_octal(trimmed(text.as_slice())) {
            Some(mask) => {
                let mut s = "UMASK is ".to_string();
                s.append(raw.as_str());
                if mask & 0o027 == 0o027 {
                    s.append(".");
                    Outcome::pass(s)
                } else {
                    s.append(" (too permissive; use 027 or 077).");
                    Outcome::fail(s)
                }
            },
            None => {
                let q = quote(raw.as_str());
                let mut s = "UMASK is not octal: ".to_string();
                s.append(q.as_str());
                s.append(".");
                Outcome::fail(s)
            },
        }
    }
}

/// An account has an empty password field in `/etc/shadow`: it can log in with
/// no password at all. Privileged: `/etc/shadow` is root-only, read via `sudo`.
pub struct ShadowEmptyPassword;

impl Check for ShadowEmptyPassword {
    open spec fn info(&self) -> CheckInfo {
        plain_info(
            "accounts-shadow-empty-password",
            Domain::Accounts,
            "Account with an empty password",
            Severity::Critical,
            "Lock or set a password for any account with an empty /etc/shadow field: passwd -l <user>.",
            "sudo -n cat /etc/shadow",
            true,
        )
    }

    open spec fn verdict(&self, output: Seq<char>) -> OutcomeView {
        let empty = passwordless_users(output);
        if empty.len() == 0 {
            passing("No accounts have an empty password."@)
        } else {
            failing("Accounts with an empty password: "@ + joined(empty, ", "@) + "."@)
        }
    }

    fn facts(&self) -> (r: CheckInfo) {
        plain_info(
            "accounts-shadow-empty-password",
            Domain::Accounts,
            "Account with an empty password",
            Severity::Critical,
            "Lock or set a password for any account with an empty /etc/shadow field: passwd -l <user>.",
            "sudo -n cat /etc/shadow",
            true,
        )
    }

    fn evaluate(&self, output: &str) -> (r: Outcome) {
        let empty = shadow_empty_password_accounts(output);
        if empty.len() == 0 {
            Outcome::pass("No accounts have an empty password.".to_string())
        } else {
            let list = join_texts(&empty, ", ");
            let mut s = "Accounts with an empty password: ".to_string();
            s.append(list.as_str());
            s.append(".");
            Outcome::fail(s)
        }
    }
}

} // verus!
