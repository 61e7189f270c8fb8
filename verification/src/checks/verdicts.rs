//! What each check decides, told by the lines of the output that it reads.

use super::{AnyCheck, Check, Domain, Severity, Status};
use super::firewall::FIREWALL_UNITS;
use super::kernel::container_host;
use super::laws::{entry_has, first_with, last_with, law_first_keyword_wins, law_last_setting_wins};
use super::parse::{
    enabled, iptables_posture, keyword, keyword_map, listen_port, listen_ports, nft_posture,
    passwd_entries, passwd_entry, passwordless_user, passwordless_users, sysctl_entry, sysctl_map,
    unit_entry, units_map, NftInput, PasswdView,
};
use super::services::{cleartext_services, CLEARTEXT_PORTS};
use super::ssh::{weak_algorithm, weak_algorithms, weak_in, weak_token, WEAK_ALGO_MARKERS};
use super::updates::{advisory_row, auto_update_unit, security_install, AUTO_UPDATE_UNITS};
use crate::anomaly_laws::{lemma_from, lemma_kept};
use crate::text::chars::{lowercase, white};
use crate::text::number::{
    digit_char, digits, lemma_digits_are_read, lemma_digits_shape, octal_of, strip_plus, u16_of,
    u32_of, value,
};
use crate::text::search::{index_of, lemma_index_of, mentions, starts_with};
use crate::text::split::{
    after_last, blank, count_where, fields, is_white_fn, lemma_run, lemma_run_ends_at,
    lemma_trim_blank, lemma_trim_end, lemma_trim_ends, lines, not_white_fn, one_word, run, trim,
    trim_end, words,
};
use crate::textmap::{lemma_slot, lookup, slot};
use vstd::prelude::*;

verus! {

/// The line sets the kernel parameter: its text before the first `=` is the name.
pub open spec fn names(l: Seq<char>, k: Seq<char>) -> bool {
    index_of(l, '=') < l.len() && trim(l.take(index_of(l, '='))) == k
}

/// What the line sets the parameter to: its text behind the first `=`.
pub open spec fn value_of(l: Seq<char>) -> Seq<char> {
    trim(l.skip(index_of(l, '=') + 1))
}

/// Line `i` is the last one that sets the parameter.
pub open spec fn last_setting(ls: Seq<Seq<char>>, k: Seq<char>, i: int) -> bool {
    &&& 0 <= i < ls.len()
    &&& names(ls[i], k)
    &&& forall|j: int| i < j < ls.len() ==> !names(#[trigger] ls[j], k)
}

/// No line sets the parameter.
pub open spec fn unset(ls: Seq<Seq<char>>, k: Seq<char>) -> bool {
    forall|i: int| 0 <= i < ls.len() ==> !names(#[trigger] ls[i], k)
}

proof fn lemma_names(l: Seq<char>, k: Seq<char>)
    requires
        k.len() > 0,
    ensures
        names(l, k) <==> entry_has(sysctl_entry(l), k),
        names(l, k) ==> sysctl_entry(l) == Some((k, value_of(l))),
{
    lemma_index_of(l, '=');
}

pub proof fn lemma_setting(output: Seq<char>, k: Seq<char>, i: int)
    requires
        k.len() > 0,
    ensures
        last_setting(lines(output), k, i) ==> lookup(sysctl_map(output), k) == Some(
            value_of(lines(output)[i]),
        ),
        unset(lines(output), k) ==> lookup(sysctl_map(output), k) is None,
{
    let ls = lines(output);
    let e = |l: Seq<char>| sysctl_entry(l);
    law_last_setting_wins(output, k);
    assert forall|j: int| 0 <= j < ls.len() implies names(#[trigger] ls[j], k) == entry_has(
        e(ls[j]),
        k,
    ) by {
        lemma_names(ls[j], k);
    }
    let found = lookup(sysctl_map(output), k);
    if found is Some {
        let j = choose|j: int| #[trigger] last_with(ls, e, k, found->0, j);
        assert(names(ls[j], k));
        if last_setting(ls, k, i) {
            lemma_names(ls[i], k);
            if i < j {
                assert(!names(ls[j], k));
            } else if j < i {
                assert(!entry_has(e(ls[i]), k));
            }
        }
    } else if last_setting(ls, k, i) {
        assert(!entry_has(e(ls[i]), k));
    }
}

/// Address-space randomization passes exactly if the last setting of it is 2.
pub proof fn law_aslr_must_be_two(output: Seq<char>, i: int)
    ensures
        last_setting(lines(output), "kernel.randomize_va_space"@, i) ==> (
        AnyCheck::Aslr.verdict(output).status == if value_of(lines(output)[i]) == "2"@ {
            Status::Pass
        } else {
            Status::Fail
        }),
        unset(lines(output), "kernel.randomize_va_space"@) ==> AnyCheck::Aslr.verdict(output).status
            == Status::Fail,
{
    reveal_strlit("kernel.randomize_va_space");
    lemma_setting(output, "kernel.randomize_va_space"@, i);
}

/// SYN cookies pass exactly if the last setting of them is 1.
pub proof fn law_syncookies_must_be_one(output: Seq<char>, i: int)
    ensures
        last_setting(lines(output), "net.ipv4.tcp_syncookies"@, i) ==> (
        AnyCheck::TcpSyncookies.verdict(output).status == if value_of(lines(output)[i]) == "1"@ {
            Status::Pass
        } else {
            Status::Fail
        }),
        unset(lines(output), "net.ipv4.tcp_syncookies"@) ==> AnyCheck::TcpSyncookies.verdict(output).status
            == Status::Fail,
{
    reveal_strlit("net.ipv4.tcp_syncookies");
    lemma_setting(output, "net.ipv4.tcp_syncookies"@, i);
}

/// Reverse-path filtering passes exactly if the last setting of it is 1 or 2.
pub proof fn law_rp_filter_must_be_one_or_two(output: Seq<char>, i: int)
    ensures
        last_setting(lines(output), "net.ipv4.conf.all.rp_filter"@, i) ==> (
        AnyCheck::RpFilter.verdict(output).status == if value_of(lines(output)[i]) == "1"@ || value_of(lines(output)[i]) == "2"@ {
            Status::Pass
        } else {
            Status::Fail
        }),
        unset(lines(output), "net.ipv4.conf.all.rp_filter"@) ==> AnyCheck::RpFilter.verdict(output).status
            == Status::Fail,
{
    reveal_strlit("net.ipv4.conf.all.rp_filter");
    lemma_setting(output, "net.ipv4.conf.all.rp_filter"@, i);
}

/// ICMP redirects pass exactly if the last setting of them is 0.
pub proof fn law_redirects_must_be_off(output: Seq<char>, i: int)
    ensures
        last_setting(lines(output), "net.ipv4.conf.all.accept_redirects"@, i) ==> (
        AnyCheck::AcceptRedirects.verdict(output).status == if value_of(lines(output)[i]) == "0"@ {
            Status::Pass
        } else {
            Status::Fail
        }),
        unset(lines(output), "net.ipv4.conf.all.accept_redirects"@) ==> AnyCheck::AcceptRedirects.verdict(output).status
            == Status::Fail,
{
    reveal_strlit("net.ipv4.conf.all.accept_redirects");
    lemma_setting(output, "net.ipv4.conf.all.accept_redirects"@, i);
}

/// Source routing passes exactly if the last setting of it is 0.
pub proof fn law_source_route_must_be_off(output: Seq<char>, i: int)
    ensures
        last_setting(lines(output), "net.ipv4.conf.all.accept_source_route"@, i) ==> (
        AnyCheck::AcceptSourceRoute.verdict(output).status == if value_of(lines(output)[i]) == "0"@ {
            Status::Pass
        } else {
            Status::Fail
        }),
        unset(lines(output), "net.ipv4.conf.all.accept_source_route"@) ==> AnyCheck::AcceptSourceRoute.verdict(output).status
            == Status::Fail,
{
    reveal_strlit("net.ipv4.conf.all.accept_source_route");
    lemma_setting(output, "net.ipv4.conf.all.accept_source_route"@, i);
}

/// Some line sets a parameter of a container bridge.
pub open spec fn has_bridge(ls: Seq<Seq<char>>) -> bool {
    exists|j: int| 0 <= j < ls.len() && bridge_line(#[trigger] ls[j])
}

/// The line sets a parameter of `docker0` or of a `br-` bridge.
pub open spec fn bridge_line(l: Seq<char>) -> bool {
    exists|k: Seq<char>|
        #[trigger] names(l, k) && k.len() > 0 && (mentions(k, ".conf.docker0."@) || mentions(
            k,
            ".conf.br-"@,
        ))
}

proof fn lemma_bridge(output: Seq<char>)
    ensures
        container_host(sysctl_map(output)) <==> has_bridge(lines(output)),
{
    let ls = lines(output);
    let m = sysctl_map(output);
    let e = |l: Seq<char>| sysctl_entry(l);
    if container_host(m) {
        let i = choose|i: int|
            0 <= i < m.len() && (mentions((#[trigger] m[i]).0, ".conf.docker0."@) || mentions(
                m[i].0,
                ".conf.br-"@,
            ));
        let k = m[i].0;
        lemma_slot(m, k);
        assert(lookup(m, k) is Some);
        law_last_setting_wins(output, k);
        let j = choose|j: int| #[trigger] last_with(ls, e, k, lookup(m, k)->0, j);
        assert(sysctl_entry(ls[j]) is Some);
        lemma_index_of(ls[j], '=');
        assert(k.len() > 0);
        lemma_names(ls[j], k);
        assert(names(ls[j], k));
        assert(bridge_line(ls[j]));
    }
    if has_bridge(ls) {
        let j = choose|j: int| 0 <= j < ls.len() && bridge_line(#[trigger] ls[j]);
        let k = choose|k: Seq<char>|
            #[trigger] names(ls[j], k) && k.len() > 0 && (mentions(k, ".conf.docker0."@)
                || mentions(k, ".conf.br-"@));
        lemma_names(ls[j], k);
        law_last_setting_wins(output, k);
        assert(entry_has(e(ls[j]), k));
        assert(lookup(m, k) is Some);
        lemma_slot(m, k);
        assert(m[slot(m, k)].0 == k);
    }
}

/// Forwarding passes exactly if the last setting of it is 0, or it is set and the host has a
/// container bridge.
pub proof fn law_forwarding_is_for_container_hosts(output: Seq<char>, i: int)
    ensures
        last_setting(lines(output), "net.ipv4.ip_forward"@, i) ==> (
        AnyCheck::IpForward.verdict(output).status == if value_of(lines(output)[i]) == "0"@
            || has_bridge(lines(output)) {
            Status::Pass
        } else {
            Status::Fail
        }),
        unset(lines(output), "net.ipv4.ip_forward"@) ==> AnyCheck::IpForward.verdict(output).status
            == Status::Fail,
{
    reveal_strlit("net.ipv4.ip_forward");
    lemma_setting(output, "net.ipv4.ip_forward"@, i);
    lemma_bridge(output);
}

/// Line `i` is the first one with the keyword, and gives it the value.
pub open spec fn first_directive(
    ls: Seq<Seq<char>>,
    k: Seq<char>,
    v: Seq<char>,
    i: int,
) -> bool {
    &&& 0 <= i < ls.len()
    &&& keyword(ls[i]) == Some((k, v))
    &&& forall|j: int| 0 <= j < i ==> !entry_has(keyword(#[trigger] ls[j]), k)
}

/// No line has the keyword.
pub open spec fn no_directive(ls: Seq<Seq<char>>, k: Seq<char>) -> bool {
    forall|j: int| 0 <= j < ls.len() ==> !entry_has(keyword(#[trigger] ls[j]), k)
}

pub proof fn lemma_directive(output: Seq<char>, k: Seq<char>, v: Seq<char>, i: int)
    ensures
        first_directive(lines(output), k, v, i) ==> lookup(keyword_map(output), k) == Some(v),
        no_directive(lines(output), k) ==> lookup(keyword_map(output), k) is None,
{
    let ls = lines(output);
    law_first_keyword_wins(output, k);
    let found = lookup(keyword_map(output), k);
    if found is Some {
        let j = choose|j: int| #[trigger] first_with(ls, k, found->0, j);
        if first_directive(ls, k, v, i) {
            if i < j {
                assert(!entry_has(keyword(ls[i]), k));
            } else if j < i {
                assert(keyword(ls[j]) == Some((k, found->0)));
            }
        }
        if no_directive(ls, k) {
            assert(keyword(ls[j]) == Some((k, found->0)));
        }
    } else if first_directive(ls, k, v, i) {
        assert(!entry_has(keyword(ls[i]), k));
    }
}

/// A text is its trimmed form between white space, and in no other way.
proof fn lemma_trim_unique(a: Seq<char>, t: Seq<char>, b: Seq<char>)
    requires
        blank(a),
        blank(b),
        t.len() > 0 ==> !white(t[0]) && !white(t.last()),
    ensures
        trim(a + t + b) == t,
{
    let s = a + t + b;
    if t.len() == 0 {
        assert forall|i: int| 0 <= i < s.len() implies white(#[trigger] s[i]) by {
            if i < a.len() {
                assert(s[i] == a[i]);
            } else {
                assert(s[i] == b[i - a.len()]);
            }
        }
        lemma_trim_blank(s);
        assert(trim(s) =~= t);
    } else {
        let n = a.len() as int;
        assert forall|j: int| 0 <= j < n implies is_white_fn()(
            #[trigger] s[j],
        ) by {
            assert(s[j] == a[j]);
        }
        assert(s[n] == t[0]);
        lemma_run_ends_at(s, is_white_fn(), n);
        assert(s.skip(n) =~= t + b);
        lemma_trim_end_of(t, b);
    }
}

proof fn lemma_trim_end_of(t: Seq<char>, b: Seq<char>)
    requires
        blank(b),
        t.len() > 0,
        !white(t.last()),
    ensures
        trim_end(t + b) == t,
    decreases b.len(),
{
    if b.len() == 0 {
        assert(t + b =~= t);
    } else {
        let c = b.drop_last();
        assert forall|i: int| 0 <= i < c.len() implies white(#[trigger] c[i]) by {
            assert(c[i] == b[i]);
        }
        lemma_trim_end_of(t, c);
        assert((t + b).drop_last() =~= t + c);
        assert((t + b).last() == b[b.len() - 1]);
    }
}

/// Every text is its trimmed form between white space.
proof fn lemma_trim_parts(s: Seq<char>) -> (r: (Seq<char>, Seq<char>))
    ensures
        blank(r.0),
        blank(r.1),
        s == r.0 + trim(s) + r.1,
{
    let w = is_white_fn();
    lemma_run(s, w);
    let n = run(s, w);
    let a = s.take(n);
    let rest = s.skip(n);
    lemma_trim_end(rest);
    let m = trim(s).len() as int;
    let b = rest.skip(m);
    assert forall|i: int| 0 <= i < a.len() implies white(#[trigger] a[i]) by {
        assert(w(s[i]));
    }
    assert forall|i: int| 0 <= i < b.len() implies white(#[trigger] b[i]) by {
        assert(b[i] == rest[m + i]);
    }
    assert(s =~= a + rest.take(m) + b);
    (a, b)
}

/// A line of a keyword, white space and a value, with any white space around it, sets the
/// keyword in small letters to the trimmed value.
pub proof fn law_keyword_line_is_read(
    pad: Seq<char>,
    w: Seq<char>,
    gap: Seq<char>,
    v: Seq<char>,
)
    requires
        blank(pad),
        one_word(w),
        w[0] != '#',
        blank(gap),
        gap.len() > 0,
    ensures
        keyword(pad + w + gap + v) == Some((lowercase(w), trim(v))),
{
    let raw = pad + w + gap + v;
    let (a, b) = lemma_trim_parts(v);
    let t = trim(v);
    let none = Seq::<char>::empty();
    let n = w.len() as int;
    lemma_trim_ends(v);
    assert(!white(w[0]) && !white(w[n - 1]));
    assert(blank(none));
    assert(white(gap[0]));
    if t.len() > 0 {
        let line = w + gap + a + t;
        assert(raw =~= pad + line + b);
        assert(line[0] == w[0]);
        assert(line.last() == t.last());
        lemma_trim_unique(pad, line, b);
        assert forall|j: int| 0 <= j < n implies not_white_fn()(#[trigger] line[j]) by {
            assert(line[j] == w[j]);
            assert(!white(w[j]));
        }
        assert(line[n] == gap[0]);
        lemma_run_ends_at(line, not_white_fn(), n);
        assert(line.take(n) =~= w);
        let lead = gap + a;
        assert forall|i: int| 0 <= i < lead.len() implies white(#[trigger] lead[i]) by {
            if i < gap.len() {
                assert(lead[i] == gap[i]);
            } else {
                assert(lead[i] == a[i - gap.len()]);
            }
        }
        assert(line.skip(n) =~= lead + t + none);
        lemma_trim_unique(lead, t, none);
    } else {
        let tail = gap + a + b;
        assert forall|i: int| 0 <= i < tail.len() implies white(#[trigger] tail[i]) by {
            if i < gap.len() {
                assert(tail[i] == gap[i]);
            } else if i < gap.len() + a.len() {
                assert(tail[i] == a[i - gap.len()]);
            } else {
                assert(tail[i] == b[i - gap.len() - a.len()]);
            }
        }
        assert(raw =~= pad + w + tail);
        lemma_trim_unique(pad, w, tail);
        assert forall|j: int| 0 <= j < n implies not_white_fn()(#[trigger] w[j]) by {
            assert(!white(w[j]));
        }
        lemma_run_ends_at(w, not_white_fn(), n);
        assert(w.take(n) =~= w);
        assert(w.skip(n) =~= none);
        lemma_trim_blank(none);
        assert(trim(none) =~= none);
        assert(t =~= none);
    }
}

/// A blank line, and a line that starts with `#`, sets no keyword.
pub proof fn law_comment_sets_nothing(l: Seq<char>)
    requires
        trim(l).len() == 0 || trim(l)[0] == '#',
    ensures
        keyword(l) is None,
{
}

/// Root login passes exactly if the first setting of it is `no`; it is on unless it is set.
pub proof fn law_root_login_must_be_off(output: Seq<char>, v: Seq<char>, i: int)
    ensures
        first_directive(lines(output), "permitrootlogin"@, v, i) ==> (
        AnyCheck::PermitRootLogin.verdict(output).status == if lowercase(v) == "no"@ {
            Status::Pass
        } else {
            Status::Fail
        }),
        no_directive(lines(output), "permitrootlogin"@) ==> AnyCheck::PermitRootLogin.verdict(output).status
            == Status::Fail,
{
    lemma_directive(output, "permitrootlogin"@, v, i);
    reveal_strlit("yes");
    reveal_strlit("no");
    reveal_strlit("prohibit-password");
    lemma_small();
}

/// Password login passes exactly if the first setting of it is `no`; it is on unless it is set.
pub proof fn law_password_login_must_be_off(output: Seq<char>, v: Seq<char>, i: int)
    ensures
        first_directive(lines(output), "passwordauthentication"@, v, i) ==> (
        AnyCheck::PasswordAuthentication.verdict(output).status == if lowercase(v) == "no"@ {
            Status::Pass
        } else {
            Status::Fail
        }),
        no_directive(lines(output), "passwordauthentication"@) ==> AnyCheck::PasswordAuthentication.verdict(output).status
            == Status::Fail,
{
    lemma_directive(output, "passwordauthentication"@, v, i);
    reveal_strlit("yes");
    reveal_strlit("no");
    reveal_strlit("prohibit-password");
    lemma_small();
}

/// Empty passwords fail exactly if the first setting of them is `yes`; they are off unless set.
pub proof fn law_empty_passwords_must_be_off(output: Seq<char>, v: Seq<char>, i: int)
    ensures
        first_directive(lines(output), "permitemptypasswords"@, v, i) ==> (
        AnyCheck::PermitEmptyPasswords.verdict(output).status == if lowercase(v) != "yes"@ {
            Status::Pass
        } else {
            Status::Fail
        }),
        no_directive(lines(output), "permitemptypasswords"@) ==> AnyCheck::PermitEmptyPasswords.verdict(output).status
            == Status::Pass,
{
    lemma_directive(output, "permitemptypasswords"@, v, i);
    reveal_strlit("yes");
    reveal_strlit("no");
    reveal_strlit("prohibit-password");
    lemma_small();
}

/// X11 forwarding fails exactly if the first setting of it is `yes`; it is off unless it is set.
pub proof fn law_x11_must_be_off(output: Seq<char>, v: Seq<char>, i: int)
    ensures
        first_directive(lines(output), "x11forwarding"@, v, i) ==> (
        AnyCheck::X11Forwarding.verdict(output).status == if lowercase(v) != "yes"@ {
            Status::Pass
        } else {
            Status::Fail
        }),
        no_directive(lines(output), "x11forwarding"@) ==> AnyCheck::X11Forwarding.verdict(output).status
            == Status::Pass,
{
    lemma_directive(output, "x11forwarding"@, v, i);
    reveal_strlit("yes");
    reveal_strlit("no");
    reveal_strlit("prohibit-password");
    lemma_small();
}

/// The defaults are in small letters already.
proof fn lemma_small()
    ensures
        lowercase("yes"@) == "yes"@,
        lowercase("no"@) == "no"@,
        lowercase("prohibit-password"@) == "prohibit-password"@,
        lowercase("6"@) == "6"@,
        "yes"@ != "no"@,
        "prohibit-password"@ != "no"@,
{
    reveal_strlit("yes");
    reveal_strlit("no");
    reveal_strlit("prohibit-password");
    reveal_strlit("6");
    assert(lowercase("yes"@) =~= "yes"@);
    assert(lowercase("no"@) =~= "no"@);
    assert(lowercase("prohibit-password"@) =~= "prohibit-password"@);
    assert(lowercase("6"@) =~= "6"@);
    assert("yes"@.len() == 3 && "no"@.len() == 2 && "prohibit-password"@.len() == 17);
}

/// The number of tries passes exactly if the first setting of it is a number of no more than
/// four; it is six unless it is set.
pub proof fn law_tries_must_be_few(output: Seq<char>, n: u32, v: Seq<char>, i: int)
    ensures
        first_directive(lines(output), "maxauthtries"@, digits(n as int), i) ==> (
        AnyCheck::MaxAuthTries.verdict(output).status == if n <= 4 {
            Status::Pass
        } else {
            Status::Fail
        }),
        first_directive(lines(output), "maxauthtries"@, v, i) && u32_of(lowercase(v)) is None
            ==> AnyCheck::MaxAuthTries.verdict(output).status == Status::Fail,
        no_directive(lines(output), "maxauthtries"@) ==> AnyCheck::MaxAuthTries.verdict(
            output,
        ).status == Status::Fail,
{
    lemma_directive(output, "maxauthtries"@, digits(n as int), i);
    lemma_directive(output, "maxauthtries"@, v, i);
    lemma_digits_small(n as int);
    lemma_digits_u32(n);
    lemma_small();
    reveal_strlit("6");
    lemma_digits_u32(6);
    assert(digits(6) =~= "6"@);
}

pub proof fn lemma_digits_small(n: int)
    requires
        n >= 0,
    ensures
        lowercase(digits(n)) == digits(n),
{
    lemma_digits_shape(n);
    assert(lowercase(digits(n)) =~= digits(n));
}

pub proof fn lemma_digits_u32(n: u32)
    ensures
        u32_of(digits(n as int)) == Some(n),
{
    lemma_digits_are_read(n as int);
    lemma_digits_shape(n as int);
    assert(strip_plus(digits(n as int)) == digits(n as int));
}

/// The longest password age passes exactly if the first setting of it is a number of no more
/// than 365 days.
pub proof fn law_password_age_must_be_limited(output: Seq<char>, n: u32, v: Seq<char>, i: int)
    ensures
        first_directive(lines(output), "pass_max_days"@, digits(n as int), i) ==> (
        AnyCheck::PassMaxDays.verdict(output).status == if n <= 365 {
            Status::Pass
        } else {
            Status::Fail
        }),
        first_directive(lines(output), "pass_max_days"@, v, i) && u32_of(v) is None
            ==> AnyCheck::PassMaxDays.verdict(output).status == Status::Fail,
        no_directive(lines(output), "pass_max_days"@) ==> AnyCheck::PassMaxDays.verdict(
            output,
        ).status == Status::Fail,
{
    lemma_directive(output, "pass_max_days"@, digits(n as int), i);
    lemma_directive(output, "pass_max_days"@, v, i);
    lemma_digits_u32(n);
}

/// The octal digit as a character.
pub open spec fn octal_digit(d: int) -> char {
    digit_char(d)
}

/// A mask of three octal digits passes exactly if it takes writing from the group (its middle
/// digit is 2, 3, 6 or 7) and everything from the others (its last digit is 7). Unless it is
/// set, the mask is 022, and fails.
pub proof fn law_umask_must_hide(output: Seq<char>, a: int, b: int, c: int, i: int)
    requires
        0 <= a < 8,
        0 <= b < 8,
        0 <= c < 8,
    ensures
        first_directive(
            lines(output),
            "umask"@,
            seq![octal_digit(a), octal_digit(b), octal_digit(c)],
            i,
        ) ==> (AnyCheck::DefaultUmask.verdict(output).status == if c == 7 && (b == 2 || b == 3 || b
            == 6 || b == 7) {
            Status::Pass
        } else {
            Status::Fail
        }),
        no_directive(lines(output), "umask"@) ==> AnyCheck::DefaultUmask.verdict(output).status
            == Status::Fail,
{
    let v = seq![octal_digit(a), octal_digit(b), octal_digit(c)];
    lemma_directive(output, "umask"@, v, i);
    lemma_mask(a, b, c);
    lemma_mask(0, 2, 2);
    reveal_strlit("022");
    assert("022"@ =~= seq![octal_digit(0), octal_digit(2), octal_digit(2)]);
}

proof fn lemma_mask(a: int, b: int, c: int)
    requires
        0 <= a < 8,
        0 <= b < 8,
        0 <= c < 8,
    ensures
        ({
            let v = seq![octal_digit(a), octal_digit(b), octal_digit(c)];
            octal_of(trim(v)) matches Some(mask) && (mask & 0o027 == 0o027) == (c == 7 && (b == 2
                || b == 3 || b == 6 || b == 7))
        }),
{
    let v = seq![octal_digit(a), octal_digit(b), octal_digit(c)];
    let none = Seq::<char>::empty();
    assert(none + v + none =~= v);
    lemma_trim_unique(none, v, none);
    reveal_with_fuel(value, 4);
    assert(v.drop_last() =~= seq![octal_digit(a), octal_digit(b)]);
    assert(v.drop_last().drop_last() =~= seq![octal_digit(a)]);
    assert(v.drop_last().drop_last().drop_last() =~= none);
    assert(strip_plus(v) =~= v);
    let mask: u32 = (a * 64 + b * 8 + c) as u32;
    assert(octal_of(v) == Some(mask));
    let (x, y, z) = (a as u32, b as u32, c as u32);
    assert((((x * 64 + y * 8 + z) as u32) & 0o027 == 0o027) == (z == 7 && (y == 2 || y == 3 || y == 6
        || y == 7))) by (bit_vector)
        requires
            x < 8,
            y < 8,
            z < 8,
    ;
}

/// The line is an account with user id 0 that is not `root`.
pub open spec fn second_root(l: Seq<char>) -> bool {
    let f = fields(l, ':');
    &&& f.len() >= 7
    &&& u32_of(f[2]) == Some(0u32)
    &&& u32_of(f[3]) is Some
    &&& f[0] != "root"@
}

/// The accounts fail exactly if one of them besides `root` has user id 0.
pub proof fn law_only_root_is_root(output: Seq<char>)
    ensures
        AnyCheck::NonRootUid0.verdict(output).status == if exists|i: int|
            0 <= i < lines(output).len() && second_root(#[trigger] lines(output)[i]) {
            Status::Fail
        } else {
            Status::Pass
        },
{
    let ls = lines(output);
    let f = |l: Seq<char>| passwd_entry(l);
    let g = |e: PasswdView| super::accounts::hidden_root(e);
    let es = passwd_entries(output);
    let hidden = super::accounts::hidden_roots(output);
    if hidden.len() > 0 {
        let k = lemma_from(es, g, 0);
        let i = lemma_from(ls, f, k);
        assert(second_root(ls[i]));
    }
    if exists|i: int| 0 <= i < ls.len() && second_root(#[trigger] ls[i]) {
        let i = choose|i: int| 0 <= i < ls.len() && second_root(#[trigger] ls[i]);
        lemma_kept(ls, f, i);
        let e = f(ls[i])->0;
        assert(es.contains(e));
        let k = choose|k: int| 0 <= k < es.len() && es[k] == e;
        lemma_kept(es, g, k);
        assert(hidden.contains(e.name));
    }
}

/// An account line gives its name, its numbers and its shell; a line of fewer than seven fields
/// gives nothing.
pub proof fn law_account_line_is_read(l: Seq<char>, uid: u32, gid: u32)
    requires
        fields(l, ':').len() >= 7,
        fields(l, ':')[2] == digits(uid as int),
        fields(l, ':')[3] == digits(gid as int),
    ensures
        passwd_entry(l) matches Some(e) && e.name == fields(l, ':')[0] && e.uid == uid && e.gid
            == gid && e.shell == trim(fields(l, ':')[6]),
{
    lemma_digits_u32(uid);
    lemma_digits_u32(gid);
}

/// The line is an account whose password field is empty.
pub open spec fn open_account(l: Seq<char>) -> bool {
    let f = fields(l, ':');
    f.len() >= 2 && trim(f[0]).len() > 0 && f[1].len() == 0
}

/// The shadow file fails exactly if the password field of some account is empty.
pub proof fn law_no_password_may_be_empty(output: Seq<char>)
    ensures
        AnyCheck::ShadowEmptyPassword.verdict(output).status == if exists|i: int|
            0 <= i < lines(output).len() && open_account(#[trigger] lines(output)[i]) {
            Status::Fail
        } else {
            Status::Pass
        },
{
    let ls = lines(output);
    let f = |l: Seq<char>| passwordless_user(l);
    let users = passwordless_users(output);
    if users.len() > 0 {
        let i = lemma_from(ls, f, 0);
        assert(open_account(ls[i]));
    }
    if exists|i: int| 0 <= i < ls.len() && open_account(#[trigger] ls[i]) {
        let i = choose|i: int| 0 <= i < ls.len() && open_account(#[trigger] ls[i]);
        lemma_kept(ls, f, i);
        assert(users.contains(f(ls[i])->0));
    }
}

/// The line is a socket that listens on the port.
pub open spec fn listens_on(l: Seq<char>, port: u16) -> bool {
    let w = words(l);
    &&& w.len() >= 6
    &&& w[0] != "Netid"@
    &&& w[0] != "State"@
    &&& u16_of(after_last(w[4], ':')) == Some(port)
}

/// The line is a socket that listens on the port of ftp, telnet, rexec, rlogin or rsh.
pub open spec fn listens_in_clear(l: Seq<char>) -> bool {
    listens_on(l, 21) || listens_on(l, 23) || listens_on(l, 512) || listens_on(l, 513)
        || listens_on(l, 514)
}

/// The listening ports fail exactly if one of them is that of a service in clear text.
pub proof fn law_no_service_in_clear(output: Seq<char>)
    ensures
        AnyCheck::CleartextPorts.verdict(output).status == if exists|i: int|
            0 <= i < lines(output).len() && listens_in_clear(#[trigger] lines(output)[i]) {
            Status::Fail
        } else {
            Status::Pass
        },
{
    let ls = lines(output);
    let f = |l: Seq<char>| listen_port(l);
    let ports = listen_ports(output);
    let g = |p: (u16, &'static str)|
        if ports.contains(p.0) {
            Some(p.1@)
        } else {
            None
        };
    let found = cleartext_services(ports);
    let table = CLEARTEXT_PORTS@;
    assert(table[0].0 == 21 && table[1].0 == 23 && table[2].0 == 512 && table[3].0 == 513
        && table[4].0 == 514);
    if found.len() > 0 {
        let k = lemma_from(table, g, 0);
        let p = table[k].0;
        assert(ports.contains(p));
        let n = choose|n: int| 0 <= n < ports.len() && ports[n] == p;
        let i = lemma_from(ls, f, n);
        assert(listens_on(ls[i], p));
        assert(listens_in_clear(ls[i]));
    }
    if exists|i: int| 0 <= i < ls.len() && listens_in_clear(#[trigger] ls[i]) {
        let i = choose|i: int| 0 <= i < ls.len() && listens_in_clear(#[trigger] ls[i]);
        lemma_kept(ls, f, i);
        let p = f(ls[i])->0;
        assert(ports.contains(p));
        let k: int = if p == 21 {
            0
        } else if p == 23 {
            1
        } else if p == 512 {
            2
        } else if p == 513 {
            3
        } else {
            4
        };
        assert(table[k].0 == p);
        lemma_kept(table, g, k);
        assert(found.contains(table[k].1@));
    }
}

/// The port of an address is what stands behind its last colon.
pub proof fn law_port_is_behind_the_last_colon(host: Seq<char>, port: u16)
    ensures
        u16_of(after_last(host + seq![':'] + digits(port as int), ':')) == Some(port),
    decreases host.len(),
{
    let d = digits(port as int);
    let s = host + seq![':'] + d;
    lemma_index_of(s, ':');
    let i = index_of(s, ':');
    lemma_digits_shape(port as int);
    assert(s[host.len() as int] == ':');
    assert(i <= host.len());
    if i == host.len() {
        assert(s.skip(i + 1) =~= d);
        lemma_index_of(d, ':');
        let j = index_of(d, ':');
        if j < d.len() {
            assert('0' <= d[j] <= '9');
        }
        assert(after_last(d, ':') == d);
        lemma_digits_are_read(port as int);
        assert(strip_plus(d) == d);
    } else {
        let rest = host.skip(i + 1);
        assert(s.skip(i + 1) =~= rest + seq![':'] + d);
        law_port_is_behind_the_last_colon(rest, port);
    }
}

/// Line `i` is the last one that tells the state of the unit file.
pub open spec fn last_unit(ls: Seq<Seq<char>>, unit: Seq<char>, i: int) -> bool {
    &&& 0 <= i < ls.len()
    &&& tells_unit(ls[i], unit)
    &&& forall|j: int| i < j < ls.len() ==> !tells_unit(#[trigger] ls[j], unit)
}

/// The first word of the line is the unit file, and a state follows.
pub open spec fn tells_unit(l: Seq<char>, unit: Seq<char>) -> bool {
    words(l).len() >= 2 && words(l)[0] == unit
}

/// The listing says that the service is enabled.
pub open spec fn is_enabled(ls: Seq<Seq<char>>, service: Seq<char>) -> bool {
    exists|i: int|
        #[trigger] last_unit(ls, service + ".service"@, i) && words(ls[i])[1] == "enabled"@
}

proof fn lemma_unit(output: Seq<char>, service: Seq<char>)
    ensures
        enabled(units_map(output), service) <==> is_enabled(lines(output), service),
{
    let ls = lines(output);
    let k = service + ".service"@;
    let e = |l: Seq<char>| unit_entry(l);
    reveal_strlit(".service");
    assert(k[service.len() as int] == '.');
    assert(k.contains('.'));
    law_last_setting_wins(output, k);
    assert forall|j: int| 0 <= j < ls.len() implies tells_unit(#[trigger] ls[j], k) == entry_has(
        e(ls[j]),
        k,
    ) by {}
    let found = lookup(units_map(output), k);
    if found is Some {
        let j = choose|j: int| #[trigger] last_with(ls, e, k, found->0, j);
        assert(tells_unit(ls[j], k));
        assert forall|n: int| j < n < ls.len() implies !tells_unit(#[trigger] ls[n], k) by {
            assert(!entry_has(e(ls[n]), k));
        }
        assert(last_unit(ls, k, j));
        assert(words(ls[j])[1] == found->0);
        if is_enabled(ls, service) {
            let i = choose|i: int|
                #[trigger] last_unit(ls, k, i) && words(ls[i])[1] == "enabled"@;
            if i < j {
                assert(!tells_unit(ls[j], k));
            } else if j < i {
                assert(!tells_unit(ls[i], k));
            }
        }
    } else if is_enabled(ls, service) {
        let i = choose|i: int| #[trigger] last_unit(ls, k, i) && words(ls[i])[1] == "enabled"@;
        assert(!entry_has(e(ls[i]), k));
    }
}

/// The portmapper passes exactly if `rpcbind` is not enabled.
pub proof fn law_rpcbind_must_be_off(output: Seq<char>)
    ensures
        AnyCheck::RpcbindDisabled.verdict(output).status == if !is_enabled(lines(output), "rpcbind"@) {
            Status::Pass
        } else {
            Status::Fail
        },
{
    lemma_unit(output, "rpcbind"@);
}

/// The brute-force throttle passes exactly if `fail2ban` is enabled.
pub proof fn law_fail2ban_must_be_on(output: Seq<char>)
    ensures
        AnyCheck::Fail2banEnabled.verdict(output).status == if is_enabled(lines(output), "fail2ban"@) {
            Status::Pass
        } else {
            Status::Fail
        },
{
    lemma_unit(output, "fail2ban"@);
}

/// The audit trail passes exactly if `auditd` is enabled.
pub proof fn law_auditd_must_be_on(output: Seq<char>)
    ensures
        AnyCheck::AuditdEnabled.verdict(output).status == if is_enabled(lines(output), "auditd"@) {
            Status::Pass
        } else {
            Status::Fail
        },
{
    lemma_unit(output, "auditd"@);
}

/// The system log passes exactly if `rsyslog` or `syslog-ng` is enabled.
pub proof fn law_syslog_must_be_on(output: Seq<char>)
    ensures
        AnyCheck::SyslogEnabled.verdict(output).status == if is_enabled(lines(output), "rsyslog"@) || is_enabled(lines(output), "syslog-ng"@) {
            Status::Pass
        } else {
            Status::Fail
        },
{
    lemma_unit(output, "rsyslog"@);
    lemma_unit(output, "syslog-ng"@);
}

/// The firewall passes exactly if `firewalld`, `ufw` or `nftables` is enabled.
pub proof fn law_a_firewall_must_be_on(output: Seq<char>)
    ensures
        AnyCheck::FirewallEnabled.verdict(output).status == if is_enabled(lines(output), "firewalld"@) || is_enabled(lines(output), "ufw"@) || is_enabled(lines(output), "nftables"@) {
            Status::Pass
        } else {
            Status::Fail
        },
{
    lemma_unit(output, "firewalld"@);
    lemma_unit(output, "ufw"@);
    lemma_unit(output, "nftables"@);
    let units = units_map(output);
    let g = |x: &'static str|
        if enabled(units, x@) {
            Some(x@)
        } else {
            None
        };
    let table = FIREWALL_UNITS@;
    assert(table[0]@ == "firewalld"@ && table[1]@ == "ufw"@ && table[2]@ == "nftables"@);
    let found = super::firewall::active_firewalls(units);
    if found.len() > 0 {
        let k = lemma_from(table, g, 0);
        assert(enabled(units, table[k]@));
    }
    lemma_kept(table, g, 0);
    lemma_kept(table, g, 1);
    lemma_kept(table, g, 2);
}

/// Automatic updates pass exactly if one of their known services is enabled.
pub proof fn law_updates_must_be_automatic(output: Seq<char>)
    ensures
        AnyCheck::AutoUpdatesEnabled.verdict(output).status == if is_enabled(lines(output), "unattended-upgrades"@) || is_enabled(lines(output), "dnf-automatic-install"@) || is_enabled(lines(output), "dnf-automatic"@) || is_enabled(lines(output), "yum-cron"@) {
            Status::Pass
        } else {
            Status::Fail
        },
{
    lemma_unit(output, "unattended-upgrades"@);
    lemma_unit(output, "dnf-automatic-install"@);
    lemma_unit(output, "dnf-automatic"@);
    lemma_unit(output, "yum-cron"@);
    let units = units_map(output);
    let table = AUTO_UPDATE_UNITS@;
    assert(table[0]@ == "unattended-upgrades"@ && table[1]@ == "dnf-automatic-install"@ && table[2]@
        == "dnf-automatic"@ && table[3]@ == "yum-cron"@);
    reveal_with_fuel(auto_update_unit, 6);
}

/// The line announces a security upgrade.
pub open spec fn announces_security(l: Seq<char>) -> bool {
    l.len() >= 5 && l.take(5) == "Inst "@ && mentions(lowercase(l), "security"@)
}

/// Pending updates pass exactly if no line announces a security upgrade; otherwise the finding
/// says how many do.
pub proof fn law_no_security_update_may_be_pending(output: Seq<char>)
    ensures
        ({
            let n = lines(output).filter(|l: Seq<char>| announces_security(l)).len();
            let r = AnyCheck::SecurityUpdatesPending.verdict(output);
            &&& n == 0 ==> r.status == Status::Pass
            &&& n > 0 ==> r.status == Status::Fail && starts_with(r.detail, digits(n as int))
        }),
{
    reveal_strlit("Inst ");
    let p = |l: Seq<char>| announces_security(l);
    let q = |l: Seq<char>| security_install(l);
    assert forall|l: Seq<char>| #[trigger] p(l) == q(l) by {}
    lemma_count(lines(output), q, p);
    let n = lines(output).filter(p).len() as int;
    let r = AnyCheck::SecurityUpdatesPending.verdict(output);
    if n > 0 {
        assert(r.detail.take(digits(n).len() as int) =~= digits(n));
    }
}

/// Pending updates of a `dnf` host pass exactly if no line has three words or more; otherwise
/// the finding says how many do.
pub proof fn law_no_advisory_may_be_pending(output: Seq<char>)
    ensures
        ({
            let n = lines(output).filter(|l: Seq<char>| words(l).len() >= 3).len();
            let r = AnyCheck::SecurityUpdatesPendingDnf.verdict(output);
            &&& n == 0 ==> r.status == Status::Pass
            &&& n > 0 ==> r.status == Status::Fail && starts_with(r.detail, digits(n as int))
        }),
{
    let p = |l: Seq<char>| words(l).len() >= 3;
    let q = |l: Seq<char>| advisory_row(l);
    assert forall|l: Seq<char>| #[trigger] p(l) == q(l) by {}
    lemma_count(lines(output), q, p);
    let n = lines(output).filter(p).len() as int;
    let r = AnyCheck::SecurityUpdatesPendingDnf.verdict(output);
    if n > 0 {
        assert(r.detail.take(digits(n).len() as int) =~= digits(n));
    }
}

pub proof fn lemma_count(
    ls: Seq<Seq<char>>,
    q: spec_fn(Seq<char>) -> bool,
    p: spec_fn(Seq<char>) -> bool,
)
    requires
        forall|l: Seq<char>| #[trigger] p(l) == q(l),
    ensures
        count_where(ls, q) == ls.filter(p).len(),
    decreases ls.len(),
{
    reveal(Seq::filter);
    if ls.len() > 0 {
        lemma_count(ls.drop_last(), q, p);
        assert(p(ls.last()) == q(ls.last()));
    }
}

/// The algorithm is a weak one.
pub open spec fn is_weak(token: Seq<char>) -> bool {
    ||| mentions(token, "-cbc"@)
    ||| mentions(token, "arcfour"@)
    ||| mentions(token, "3des"@)
    ||| mentions(token, "rc4"@)
    ||| mentions(token, "blowfish"@)
    ||| mentions(token, "cast128"@)
    ||| mentions(token, "md5"@)
    ||| mentions(token, "sha1"@)
    ||| mentions(token, "-96"@)
    ||| mentions(token, "umac-64"@)
    ||| mentions(token, "group1-sha1"@)
    ||| mentions(token, "group-exchange-sha1"@)
    ||| mentions(token, "gss-"@)
    ||| mentions(token, "rsa1024"@)
}

/// The algorithms of a list; a `+` or `^` before it does not count.
pub open spec fn algorithms(v: Seq<char>) -> Seq<Seq<char>> {
    let t = trim(v);
    fields(
        if t.len() > 0 && (t[0] == '+' || t[0] == '^') {
            t.skip(1)
        } else {
            t
        },
        ',',
    )
}

/// A list of algorithms has a weak one. A list that starts with `-` only takes algorithms away.
pub open spec fn lists_weak(v: Seq<char>) -> bool {
    &&& !(trim(v).len() > 0 && trim(v)[0] == '-')
    &&& exists|j: int|
        0 <= j < algorithms(v).len() && is_weak(lowercase(trim(#[trigger] algorithms(v)[j])))
}

/// The first setting of the keyword lists a weak algorithm.
pub open spec fn sets_weak(ls: Seq<Seq<char>>, k: Seq<char>) -> bool {
    exists|v: Seq<char>, i: int| #[trigger] first_directive(ls, k, v, i) && lists_weak(v)
}

proof fn lemma_is_weak(token: Seq<char>)
    ensures
        weak_algorithm(token) <==> is_weak(token),
        is_weak(token) ==> token.len() > 0,
{
    assert(WEAK_ALGO_MARKERS@[0]@ == "-cbc"@);
    assert(WEAK_ALGO_MARKERS@[1]@ == "arcfour"@);
    assert(WEAK_ALGO_MARKERS@[2]@ == "3des"@);
    assert(WEAK_ALGO_MARKERS@[3]@ == "rc4"@);
    assert(WEAK_ALGO_MARKERS@[4]@ == "blowfish"@);
    assert(WEAK_ALGO_MARKERS@[5]@ == "cast128"@);
    assert(WEAK_ALGO_MARKERS@[6]@ == "md5"@);
    assert(WEAK_ALGO_MARKERS@[7]@ == "sha1"@);
    assert(WEAK_ALGO_MARKERS@[8]@ == "-96"@);
    assert(WEAK_ALGO_MARKERS@[9]@ == "umac-64"@);
    assert(WEAK_ALGO_MARKERS@[10]@ == "group1-sha1"@);
    assert(WEAK_ALGO_MARKERS@[11]@ == "group-exchange-sha1"@);
    assert(WEAK_ALGO_MARKERS@[12]@ == "gss-"@);
    assert(WEAK_ALGO_MARKERS@[13]@ == "rsa1024"@);
    if weak_algorithm(token) {
        let i = choose|i: int|
            0 <= i < WEAK_ALGO_MARKERS@.len() && mentions(
                token,
                (#[trigger] WEAK_ALGO_MARKERS@[i])@,
            );
        assert(is_weak(token));
    }
    if mentions(token, "-cbc"@) {
        reveal_strlit("-cbc");
        assert(mentions(token, WEAK_ALGO_MARKERS@[0]@));
    }
    if mentions(token, "arcfour"@) {
        reveal_strlit("arcfour");
        assert(mentions(token, WEAK_ALGO_MARKERS@[1]@));
    }
    if mentions(token, "3des"@) {
        reveal_strlit("3des");
        assert(mentions(token, WEAK_ALGO_MARKERS@[2]@));
    }
    if mentions(token, "rc4"@) {
        reveal_strlit("rc4");
        assert(mentions(token, WEAK_ALGO_MARKERS@[3]@));
    }
    if mentions(token, "blowfish"@) {
        reveal_strlit("blowfish");
        assert(mentions(token, WEAK_ALGO_MARKERS@[4]@));
    }
    if mentions(token, "cast128"@) {
        reveal_strlit("cast128");
        assert(mentions(token, WEAK_ALGO_MARKERS@[5]@));
    }
    if mentions(token, "md5"@) {
        reveal_strlit("md5");
        assert(mentions(token, WEAK_ALGO_MARKERS@[6]@));
    }
    if mentions(token, "sha1"@) {
        reveal_strlit("sha1");
        assert(mentions(token, WEAK_ALGO_MARKERS@[7]@));
    }
    if mentions(token, "-96"@) {
        reveal_strlit("-96");
        assert(mentions(token, WEAK_ALGO_MARKERS@[8]@));
    }
    if mentions(token, "umac-64"@) {
        reveal_strlit("umac-64");
        assert(mentions(token, WEAK_ALGO_MARKERS@[9]@));
    }
    if mentions(token, "group1-sha1"@) {
        reveal_strlit("group1-sha1");
        assert(mentions(token, WEAK_ALGO_MARKERS@[10]@));
    }
    if mentions(token, "group-exchange-sha1"@) {
        reveal_strlit("group-exchange-sha1");
        assert(mentions(token, WEAK_ALGO_MARKERS@[11]@));
    }
    if mentions(token, "gss-"@) {
        reveal_strlit("gss-");
        assert(mentions(token, WEAK_ALGO_MARKERS@[12]@));
    }
    if mentions(token, "rsa1024"@) {
        reveal_strlit("rsa1024");
        assert(mentions(token, WEAK_ALGO_MARKERS@[13]@));
    }
}

proof fn lemma_weak_in(v: Seq<char>)
    ensures
        weak_in(Some(v)).len() > 0 <==> lists_weak(v),
{
    let t = trim(v);
    let f = |x: Seq<char>| weak_token(x);
    let parts = algorithms(v);
    if !(t.len() > 0 && t[0] == '-') {
        assert(weak_in(Some(v)) == parts.filter_map(f));
        if weak_in(Some(v)).len() > 0 {
            let j = lemma_from(parts, f, 0);
            lemma_is_weak(lowercase(trim(parts[j])));
            assert(is_weak(lowercase(trim(algorithms(v)[j]))));
            assert(lists_weak(v));
        }
        if lists_weak(v) {
            let j = choose|j: int|
                0 <= j < parts.len() && is_weak(lowercase(trim(#[trigger] parts[j])));
            lemma_is_weak(lowercase(trim(parts[j])));
            lemma_kept(parts, f, j);
            assert(parts.filter_map(f).contains(f(parts[j])->0));
            assert(weak_in(Some(v)).len() > 0);
        }
    } else {
        assert(weak_in(Some(v)).len() == 0);
        assert(!lists_weak(v));
    }
}

proof fn lemma_sets_weak(output: Seq<char>, k: Seq<char>)
    ensures
        weak_in(lookup(keyword_map(output), k)).len() > 0 <==> sets_weak(lines(output), k),
{
    let ls = lines(output);
    let found = lookup(keyword_map(output), k);
    law_first_keyword_wins(output, k);
    if found is Some {
        let v = found->0;
        lemma_weak_in(v);
        let j = choose|j: int| #[trigger] first_with(ls, k, v, j);
        assert(first_directive(ls, k, v, j));
    }
    if sets_weak(ls, k) {
        let (v, i) = choose|v: Seq<char>, i: int|
            #[trigger] first_directive(ls, k, v, i) && lists_weak(v);
        lemma_directive(output, k, v, i);
        lemma_weak_in(v);
    }
}

/// The algorithms fail exactly if the ciphers, the MACs or the key exchanges list a weak one.
pub proof fn law_no_weak_algorithm(output: Seq<char>)
    ensures
        AnyCheck::WeakCrypto.verdict(output).status == if sets_weak(lines(output), "ciphers"@)
            || sets_weak(lines(output), "macs"@) || sets_weak(lines(output), "kexalgorithms"@) {
            Status::Fail
        } else {
            Status::Pass
        },
{
    lemma_sets_weak(output, "ciphers"@);
    lemma_sets_weak(output, "macs"@);
    lemma_sets_weak(output, "kexalgorithms"@);
    let weak = weak_algorithms(output);
    assert(weak.len() == weak_in(lookup(keyword_map(output), "ciphers"@)).len() + weak_in(
        lookup(keyword_map(output), "macs"@),
    ).len() + weak_in(lookup(keyword_map(output), "kexalgorithms"@)).len());
}

/// A packet filter fails exactly if its input is hooked or filled and nothing there denies.
pub proof fn law_packet_filter_must_deny(output: Seq<char>)
    ensures
        AnyCheck::NftDefaultDeny.verdict(output).status == if nft_posture(output)
            == NftInput::AcceptAll {
            Status::Fail
        } else {
            Status::Pass
        },
        AnyCheck::IptablesDefaultDeny.verdict(output).status == if iptables_posture(output)
            == NftInput::AcceptAll {
            Status::Fail
        } else {
            Status::Pass
        },
{
}

/// The INPUT chain of `iptables -S`: some line sets its policy to `DROP` or `REJECT`, or some
/// rule of it has such a target; otherwise it is open if it has a rule at all.
pub proof fn law_input_chain_is_told_by_its_lines(output: Seq<char>)
    ensures
        ({
            let ls = lines(output);
            let denies = exists|i: int|
                0 <= i < ls.len() && (policy_denies(#[trigger] ls[i]) || rule_denies(ls[i]));
            let filled = exists|i: int| 0 <= i < ls.len() && rule_of_input(#[trigger] ls[i]);
            iptables_posture(output) == if trim(output).len() == 0 {
                NftInput::NoRuleset
            } else if denies {
                NftInput::DefaultDeny
            } else if filled {
                NftInput::AcceptAll
            } else {
                NftInput::NoInputHook
            }
        }),
{
    let ls = lines(output);
    assert forall|i: int| 0 <= i < ls.len() implies super::parse::input_denied(#[trigger] ls[i])
        == (policy_denies(ls[i]) || rule_denies(ls[i])) by {
        lemma_denies(ls[i]);
    }
    assert forall|i: int| 0 <= i < ls.len() implies super::parse::is_input_rule(
        words(#[trigger] ls[i]),
    ) == rule_of_input(ls[i]) by {}
}

/// `-P INPUT DROP`, or `REJECT`.
pub open spec fn policy_denies(l: Seq<char>) -> bool {
    let w = words(l);
    w.len() >= 3 && w[0] == "-P"@ && w[1] == "INPUT"@ && (w[2] == "DROP"@ || w[2] == "REJECT"@)
}

/// `-A INPUT ...`.
pub open spec fn rule_of_input(l: Seq<char>) -> bool {
    words(l).len() >= 2 && words(l)[0] == "-A"@ && words(l)[1] == "INPUT"@
}

/// `-A INPUT ... -j DROP`, or `REJECT`.
pub open spec fn rule_denies(l: Seq<char>) -> bool {
    rule_of_input(l) && exists|k: int|
        0 < k < words(l).len() && words(l)[k - 1] == "-j"@ && (#[trigger] words(l)[k] == "DROP"@
            || words(l)[k] == "REJECT"@)
}

proof fn lemma_denies(l: Seq<char>)
    ensures
        super::parse::input_denied(l) == (policy_denies(l) || rule_denies(l)),
{
    let w = words(l);
    if super::parse::deny_verdict(w) {
        let i = choose|i: int|
            0 <= i && i + 1 < w.len() && #[trigger] w[i] == "-j"@ && (w[i + 1] == "DROP"@ || w[i + 1]
                == "REJECT"@);
        assert(w[(i + 1) - 1] == "-j"@ && (w[i + 1] == "DROP"@ || w[i + 1] == "REJECT"@));
    }
    if rule_denies(l) {
        let k = choose|k: int|
            0 < k < w.len() && w[k - 1] == "-j"@ && (#[trigger] w[k] == "DROP"@ || w[k]
                == "REJECT"@);
        assert(w[k - 1] == "-j"@);
        assert(super::parse::deny_verdict(w));
    }
}

/// Where a check gets its facts: the checks of a domain read the same command, but for the
/// accounts and the packet filters, which read one each. A check needs root exactly if its
/// command runs through `sudo`; only the checks of ssh have a better source for hosts that allow
/// it; and only package managers may be missing.
pub proof fn law_checks_read_their_domain(c: AnyCheck)
    ensures
        c.info().domain == Domain::Kernel ==> c.info().command@ == "sysctl -a"@,
        c.info().domain == Domain::Ssh ==> c.info().command@ == "cat /etc/ssh/sshd_config"@
            && (c.info().effective_command matches Some(e) && e@ == "sudo -n sshd -T"@),
        c.info().domain != Domain::Ssh ==> c.info().effective_command is None,
        c.info().domain == Domain::Logging ==> c.info().command@
            == "systemctl list-unit-files --type=service --no-pager"@,
        c == AnyCheck::FirewallEnabled || c == AnyCheck::AutoUpdatesEnabled || c
            == AnyCheck::RpcbindDisabled || c == AnyCheck::Fail2banEnabled ==> c.info().command@
            == "systemctl list-unit-files --type=service --no-pager"@,
        c == AnyCheck::CleartextPorts ==> c.info().command@ == "ss -tuln"@,
        c == AnyCheck::NonRootUid0 ==> c.info().command@ == "getent passwd"@,
        c == AnyCheck::PassMaxDays || c == AnyCheck::DefaultUmask ==> c.info().command@
            == "cat /etc/login.defs"@,
        c == AnyCheck::ShadowEmptyPassword ==> c.info().command@ == "sudo -n cat /etc/shadow"@,
        c == AnyCheck::SecurityUpdatesPending ==> c.info().command@ == "apt-get -s upgrade"@,
        c == AnyCheck::SecurityUpdatesPendingDnf ==> c.info().command@
            == "dnf -q updateinfo list security"@,
        c == AnyCheck::NftDefaultDeny ==> c.info().command@ == "sudo -n nft list ruleset"@,
        c == AnyCheck::IptablesDefaultDeny ==> c.info().command@ == "sudo -n iptables -S"@,
        c.info().skip_if_tool_missing <==> c == AnyCheck::SecurityUpdatesPending || c
            == AnyCheck::SecurityUpdatesPendingDnf,
        c.info().privileged <==> c == AnyCheck::ShadowEmptyPassword || c == AnyCheck::NftDefaultDeny
            || c == AnyCheck::IptablesDefaultDeny,
{
}

/// What a failure of each check weighs.
pub proof fn law_checks_weigh(c: AnyCheck)
    ensures
        c.info().severity == Severity::Critical <==> c == AnyCheck::NonRootUid0 || c
            == AnyCheck::ShadowEmptyPassword,
        c.info().severity == Severity::High <==> c == AnyCheck::PermitRootLogin || c
            == AnyCheck::PasswordAuthentication || c == AnyCheck::PermitEmptyPasswords || c
            == AnyCheck::FirewallEnabled,
        c.info().severity == Severity::Medium <==> c == AnyCheck::WeakCrypto || c == AnyCheck::Aslr
            || c == AnyCheck::IpForward || c == AnyCheck::SecurityUpdatesPending || c
            == AnyCheck::SecurityUpdatesPendingDnf || c == AnyCheck::CleartextPorts || c
            == AnyCheck::NftDefaultDeny || c == AnyCheck::IptablesDefaultDeny,
        c.info().severity != Severity::Info,
{
}

} // verus!
