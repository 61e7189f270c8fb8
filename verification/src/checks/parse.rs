//! Tolerant parsers for Linux command output.
//!
//! Pure functions over captured text. The remote vocabulary is kept to dumb readers (see
//! [`crate::catalog`]), so all structure is recovered here.

use crate::text::chars::{
    ascii_alphanumeric, chars_of, deep, deep_option, is_ascii_alphanumeric, is_white,
    lemma_deep_empty, lemma_deep_push, lowercase, lowercase_of, text_of, white,
};
use crate::text::number::{digits, format_u64, parse_u16, parse_u32, u16_of, u32_of};
use crate::text::search::{
    contains_char, contains_text, count_char, eq_text, mentions, occurrences, spells,
};
use crate::text::split::{
    after_last, collect_lines, cut, fields, fold_lines, lemma_fold_step,
    lemma_lines_total_len, lemma_run_ends_at, lemma_take_all, lemma_total_len_take, lines,
    not_white_fn, run, split_at_char, split_char, split_lines, split_words, text_after_last,
    total_len, trim, trim_set, trimmed, trimmed_of, words,
};
use crate::textmap::{lookup, put, put_if_absent, TextList, TextMap};
use vstd::prelude::*;
use vstd::slice::slice_subrange;
use vstd::string::StringExecFns;

verus! {

/// The keyword of a configuration line in small letters, and what follows it.
pub open spec fn keyword(raw: Seq<char>) -> Option<(Seq<char>, Seq<char>)> {
    let line = trim(raw);
    if line.len() == 0 || line[0] == '#' {
        None
    } else {
        let n = run(line, not_white_fn());
        Some((lowercase(line.take(n)), trim(line.skip(n))))
    }
}

pub open spec fn keyword_step(m: Seq<(Seq<char>, Seq<char>)>, line: Seq<char>) -> Seq<
    (Seq<char>, Seq<char>),
> {
    match keyword(line) {
        Some((k, v)) => put_if_absent(m, k, v),
        None => m,
    }
}

/// The keywords of a configuration file with their values; the first occurrence wins.
pub open spec fn keyword_map(output: Seq<char>) -> Seq<(Seq<char>, Seq<char>)> {
    lines(output).fold_left(
        Seq::empty(),
        |m: Seq<(Seq<char>, Seq<char>)>, l: Seq<char>| keyword_step(m, l),
    )
}

fn keyword_line(m: TextMap<String>, raw: &[char]) -> (r: TextMap<String>)
    ensures
        r@ == keyword_step(m@, raw@),
{
    let line = trimmed(raw);
    if line.len() == 0 || line[0] == '#' {
        return m;
    }
    let mut n: usize = 0;
    while n < line.len() && !is_white(line[n])
        invariant
            n <= line@.len(),
            forall|j: int| 0 <= j < n ==> !white(#[trigger] line@[j]),
        decreases line@.len() - n,
    {
        n = n + 1;
    }
    let head = slice_subrange(line, 0, n);
    let tail = slice_subrange(line, n, line.len());
    proof {
        lemma_run_ends_at(line@, not_white_fn(), n as int);
        assert(head@ == line@.take(n as int));
        assert(tail@ == line@.skip(n as int));
    }
    let key = lowercase_of(head);
    let mut out = m;
    out.insert_new(text_of(key.as_slice()), text_of(trimmed(tail)));
    out
}

/// Parses whitespace-separated `KEY value` config: the shape of `sshd_config`, `login.defs`
/// and similar files.
///
/// Comments (`#`) and blank lines are ignored; keys are lowercased and the FIRST occurrence
/// wins. For sshd this matches its own precedence; `Match` blocks are not interpreted.
pub fn parse_keyword_map(output: &str) -> (r: TextMap<String>)
    ensures
        r@ == keyword_map(output@),
{
    fold_lines(
        output,
        TextMap::new(),
        keyword_line,
        Ghost(|m: Seq<(Seq<char>, Seq<char>)>, l: Seq<char>| keyword_step(m, l)),
    )
}

/// `sshd_config` is keyword config (see [`parse_keyword_map`]).
pub fn parse_sshd_config(output: &str) -> (r: TextMap<String>)
    ensures
        r@ == keyword_map(output@),
{
    parse_keyword_map(output)
}

/// One `/etc/passwd` entry (from `getent passwd`).
#[derive(Debug, Clone, PartialEq, Eq)]
pub struct PasswdEntry {
    pub name: String,
    pub uid: u32,
    pub gid: u32,
    pub shell: String,
}

pub ghost struct PasswdView {
    pub name: Seq<char>,
    pub uid: u32,
    pub gid: u32,
    pub shell: Seq<char>,
}

impl View for PasswdEntry {
    type V = PasswdView;

    open spec fn view(&self) -> PasswdView {
        PasswdView { name: self.name@, uid: self.uid, gid: self.gid, shell: self.shell@ }
    }
}

/// The entry on a line with at least seven fields whose user and group ids are numbers.
pub open spec fn passwd_entry(line: Seq<char>) -> Option<PasswdView> {
    let f = fields(line, ':');
    if f.len() < 7 {
        None
    } else {
        match (u32_of(f[2]), u32_of(f[3])) {
            (Some(uid), Some(gid)) => Some(
                PasswdView { name: f[0], uid, gid, shell: trim(f[6]) },
            ),
            _ => None,
        }
    }
}

pub open spec fn passwd_entries(output: Seq<char>) -> Seq<PasswdView> {
    lines(output).filter_map(|l: Seq<char>| passwd_entry(l))
}

fn passwd_line(line: &[char]) -> (r: Option<PasswdEntry>)
    ensures
        deep_option(r) == passwd_entry(line@),
{
    let f = split_char(line, ':');
    if f.len() < 7 {
        return None;
    }
    match (parse_u32(f[2]), parse_u32(f[3])) {
        (Some(uid), Some(gid)) => Some(
            PasswdEntry { name: text_of(f[0]), uid, gid, shell: text_of(trimmed(f[6])) },
        ),
        _ => None,
    }
}

/// Parses colon-separated passwd lines. Malformed rows are skipped.
pub fn parse_passwd(output: &str) -> (r: Vec<PasswdEntry>)
    ensures
        deep(r@) == passwd_entries(output@),
{
    collect_lines(output, passwd_line, Ghost(|l: Seq<char>| passwd_entry(l)))
}

/// The user on a shadow line whose password field is empty.
pub open spec fn passwordless_user(line: Seq<char>) -> Option<Seq<char>> {
    let f = fields(line, ':');
    if f.len() < 2 || trim(f[0]).len() == 0 || f[1].len() > 0 {
        None
    } else {
        Some(trim(f[0]))
    }
}

pub open spec fn passwordless_users(output: Seq<char>) -> Seq<Seq<char>> {
    lines(output).filter_map(|l: Seq<char>| passwordless_user(l))
}

fn passwordless_line(line: &[char]) -> (r: Option<String>)
    ensures
        deep_option(r) == passwordless_user(line@),
{
    let f = split_char(line, ':');
    if f.len() < 2 {
        return None;
    }
    let user = trimmed(f[0]);
    if user.len() == 0 || f[1].len() > 0 {
        None
    } else {
        Some(text_of(user))
    }
}

/// Usernames from `/etc/shadow` whose password field (index 1) is empty: the account can
/// authenticate with no password. Locked (`!`, `*`) and hashed entries are fine and excluded;
/// malformed/short lines are skipped.
pub fn shadow_empty_password_accounts(output: &str) -> (r: Vec<String>)
    ensures
        deep(r@) == passwordless_users(output@),
{
    collect_lines(output, passwordless_line, Ghost(|l: Seq<char>| passwordless_user(l)))
}

/// A character of the crypt base64 alphabet.
pub open spec fn crypt_char(c: char) -> bool {
    ascii_alphanumeric(c) || c == '.' || c == '/'
}

/// Traditional DES `crypt`: exactly 13 characters from the crypt base64 alphabet, or a BSDI
/// extended-DES hash (leading `_`). Both are legacy and weak.
pub open spec fn des_crypt(hash: Seq<char>) -> bool {
    ||| hash.len() > 0 && hash[0] == '_'
    ||| hash.len() == 13 && forall|i: int| 0 <= i < hash.len() ==> crypt_char(#[trigger] hash[i])
}

fn is_des_crypt(hash: &[char]) -> (r: bool)
    ensures
        r == des_crypt(hash@),
{
    if hash.len() > 0 && hash[0] == '_' {
        return true;
    }
    if hash.len() != 13 {
        return false;
    }
    let mut i: usize = 0;
    while i < hash.len()
        invariant
            i <= hash@.len(),
            hash@.len() == 13,
            hash@[0] != '_',
            forall|j: int| 0 <= j < i ==> crypt_char(#[trigger] hash@[j]),
        decreases hash@.len() - i,
    {
        let c = hash[i];
        if !(is_ascii_alphanumeric(c) || c == '.' || c == '/') {
            return false;
        }
        i = i + 1;
    }
    true
}

/// The password field says that a password can be used: it is neither empty nor locked.
pub open spec fn usable_hash(hash: Seq<char>) -> bool {
    hash.len() > 0 && hash[0] != '!' && hash[0] != '*'
}

/// The user on a shadow line with a weak hash, and the hash's algorithm.
pub open spec fn weak_user(line: Seq<char>) -> Option<(Seq<char>, Seq<char>)> {
    let f = fields(line, ':');
    if f.len() < 2 || trim(f[0]).len() == 0 || !usable_hash(f[1]) {
        None
    } else if f[1][0] == '$' {
        if fields(f[1].skip(1), '$')[0] == "1"@ {
            Some((trim(f[0]), "MD5"@))
        } else {
            None
        }
    } else if des_crypt(f[1]) {
        Some((trim(f[0]), "DES"@))
    } else {
        None
    }
}

pub open spec fn weak_users(output: Seq<char>) -> Seq<(Seq<char>, Seq<char>)> {
    lines(output).filter_map(|l: Seq<char>| weak_user(l))
}

fn weak_line(line: &[char]) -> (r: Option<(String, &'static str)>)
    ensures
        deep_option(r) == weak_user(line@),
{
    let f = split_char(line, ':');
    if f.len() < 2 {
        return None;
    }
    let user = trimmed(f[0]);
    let hash = f[1];
    if user.len() == 0 || hash.len() == 0 || hash[0] == '!' || hash[0] == '*' {
        return None;
    }
    if hash[0] == '$' {
        let rest = slice_subrange(hash, 1, hash.len());
        proof {
            assert(rest@ == hash@.skip(1));
        }
        let parts = split_char(rest, '$');
        if spells(parts[0], "1") {
            Some((text_of(user), "MD5"))
        } else {
            None
        }
    } else if is_des_crypt(hash) {
        Some((text_of(user), "DES"))
    } else {
        None
    }
}

/// From `/etc/shadow`, the accounts whose password hash uses a weak algorithm, as
/// `(user, algo)` pairs. Weak = MD5 (`$1$`) or legacy DES `crypt`. Empty fields are ignored
/// (they're the concern of [`shadow_empty_password_accounts`]); locked/disabled accounts
/// (`!`, `*`) and modern hashes are fine and excluded; malformed/short lines are skipped.
pub fn shadow_weak_hash_accounts(output: &str) -> (r: Vec<(String, &'static str)>)
    ensures
        deep(r@) == weak_users(output@),
{
    collect_lines(output, weak_line, Ghost(|l: Seq<char>| weak_user(l)))
}

/// The user on a shadow line whose password may grow older than `max_days`, and the age limit.
pub open spec fn nonexpiring_user(line: Seq<char>, max_days: u32) -> Option<
    (Seq<char>, Seq<char>),
> {
    let f = fields(line, ':');
    if f.len() < 5 || trim(f[0]).len() == 0 || !usable_hash(f[1]) {
        None
    } else if trim(f[4]).len() == 0 {
        Some((trim(f[0]), "unset"@))
    } else {
        match u32_of(trim(f[4])) {
            Some(days) => if days <= max_days {
                None
            } else if days >= 99999 {
                Some((trim(f[0]), digits(days as int) + " (never)"@))
            } else {
                Some((trim(f[0]), digits(days as int)))
            },
            None => None,
        }
    }
}

pub open spec fn nonexpiring_users(output: Seq<char>, max_days: u32) -> Seq<
    (Seq<char>, Seq<char>),
> {
    lines(output).filter_map(|l: Seq<char>| nonexpiring_user(l, max_days))
}

fn nonexpiring_line(line: &[char], max_days: u32) -> (r: Option<(String, String)>)
    ensures
        deep_option(r) == nonexpiring_user(line@, max_days),
{
    let f = split_char(line, ':');
    if f.len() < 5 {
        return None;
    }
    let user = trimmed(f[0]);
    let hash = f[1];
    if user.len() == 0 || hash.len() == 0 || hash[0] == '!' || hash[0] == '*' {
        return None;
    }
    let limit = trimmed(f[4]);
    if limit.len() == 0 {
        return Some((text_of(user), "unset".to_string()));
    }
    match parse_u32(limit) {
        Some(days) => {
            if days <= max_days {
                None
            } else {
                let mut shown = format_u64(days as u64);
                if days >= 99999 {
                    shown.append(" (never)");
                }
                Some((text_of(user), shown))
            }
        },
        None => None,
    }
}

/// From `/etc/shadow`, accounts with a usable password whose maximum password age (field 4)
/// is unset or greater than `max_days`: the password effectively never has to be rotated.
/// Returns `(user, max_display)` where `max_display` is `"unset"` for an empty field or the
/// number (annotated `(never)` for the 99999 sentinel). Locked (`!`, `*`), empty-password and
/// malformed/short rows are excluded.
pub fn shadow_nonexpiring_password_accounts(output: &str, max_days: u32) -> (r: Vec<
    (String, String),
>)
    ensures
        deep(r@) == nonexpiring_users(output@, max_days),
{
    let f = |line: &[char]| -> (o: Option<(String, String)>)
        ensures
            deep_option(o) == nonexpiring_user(line@, max_days),
        { nonexpiring_line(line, max_days) };
    collect_lines(output, f, Ghost(|l: Seq<char>| nonexpiring_user(l, max_days)))
}

/// The key and the value of a `key = value` line.
pub open spec fn sysctl_entry(line: Seq<char>) -> Option<(Seq<char>, Seq<char>)> {
    match cut(line, '=') {
        Some((k, v)) => if trim(k).len() == 0 {
            None
        } else {
            Some((trim(k), trim(v)))
        },
        None => None,
    }
}

pub open spec fn sysctl_step(m: Seq<(Seq<char>, Seq<char>)>, line: Seq<char>) -> Seq<
    (Seq<char>, Seq<char>),
> {
    match sysctl_entry(line) {
        Some((k, v)) => put(m, k, v),
        None => m,
    }
}

/// The kernel parameters with their values; the last occurrence wins.
pub open spec fn sysctl_map(output: Seq<char>) -> Seq<(Seq<char>, Seq<char>)> {
    lines(output).fold_left(
        Seq::empty(),
        |m: Seq<(Seq<char>, Seq<char>)>, l: Seq<char>| sysctl_step(m, l),
    )
}

fn sysctl_line(m: TextMap<String>, line: &[char]) -> (r: TextMap<String>)
    ensures
        r@ == sysctl_step(m@, line@),
{
    let mut out = m;
    match split_at_char(line, '=') {
        Some((k, v)) => {
            let key = trimmed(k);
            if key.len() > 0 {
                out.insert(text_of(key), text_of(trimmed(v)));
            }
        },
        None => {},
    }
    out
}

/// Parses `sysctl -a` output (`key = value` lines) into a map.
pub fn parse_sysctl(output: &str) -> (r: TextMap<String>)
    ensures
        r@ == sysctl_map(output@),
{
    fold_lines(
        output,
        TextMap::new(),
        sysctl_line,
        Ghost(|m: Seq<(Seq<char>, Seq<char>)>, l: Seq<char>| sysctl_step(m, l)),
    )
}

/// The mount point on a line with at least four words, and its options.
pub open spec fn mount_entry(line: Seq<char>) -> Option<(Seq<char>, Seq<Seq<char>>)> {
    let f = words(line);
    if f.len() < 4 {
        None
    } else {
        Some((f[1], fields(f[3], ',')))
    }
}

pub open spec fn mounts_step(m: Seq<(Seq<char>, Seq<Seq<char>>)>, line: Seq<char>) -> Seq<
    (Seq<char>, Seq<Seq<char>>),
> {
    match mount_entry(line) {
        Some((k, v)) => put(m, k, v),
        None => m,
    }
}

/// The mount points with their options; the last mount of a path wins.
pub open spec fn mounts_map(output: Seq<char>) -> Seq<(Seq<char>, Seq<Seq<char>>)> {
    lines(output).fold_left(
        Seq::empty(),
        |m: Seq<(Seq<char>, Seq<Seq<char>>)>, l: Seq<char>| mounts_step(m, l),
    )
}

/// Copies pieces of a text into texts of their own.
pub fn own_texts(parts: &Vec<&[char]>) -> (r: Vec<String>)
    ensures
        deep(r@) == deep(parts@),
{
    let mut out: Vec<String> = Vec::new();
    let mut i: usize = 0;
    while i < parts.len()
        invariant
            i <= parts@.len(),
            deep(out@) == deep(parts@).take(i as int),
        decreases parts@.len() - i,
    {
        broadcast use lemma_deep_push;

        out.push(text_of(parts[i]));
        proof {
            assert(deep(parts@).take(i + 1) == deep(parts@).take(i as int).push(
                deep(parts@)[i as int],
            ));
        }
        i = i + 1;
    }
    proof {
        lemma_take_all(deep(parts@));
    }
    out
}

fn mounts_line(m: TextMap<TextList>, line: &[char]) -> (r: TextMap<TextList>)
    ensures
        r@ == mounts_step(m@, line@),
{
    let f = split_words(line);
    let mut out = m;
    if f.len() >= 4 {
        let opts = split_char(f[3], ',');
        out.insert(text_of(f[1]), TextList { items: own_texts(&opts) });
    }
    out
}

/// Parses `/proc/mounts` into a `mountpoint -> options` map. Each line is
/// `device mountpoint fstype options dump pass`; the mount options are the 4th whitespace
/// field, comma-separated (e.g. `rw,nosuid,nodev`). A later mount of the same path shadows an
/// earlier one, so the LAST entry wins. Paths with escaped spaces (`\040`) are left as-is.
pub fn parse_proc_mounts(output: &str) -> (r: TextMap<TextList>)
    ensures
        r@ == mounts_map(output@),
{
    fold_lines(
        output,
        TextMap::new(),
        mounts_line,
        Ghost(|m: Seq<(Seq<char>, Seq<Seq<char>>)>, l: Seq<char>| mounts_step(m, l)),
    )
}

/// The unit on a line and its state; a unit's name has a dot.
pub open spec fn unit_entry(line: Seq<char>) -> Option<(Seq<char>, Seq<char>)> {
    let f = words(line);
    if f.len() >= 2 && f[0].contains('.') {
        Some((f[0], f[1]))
    } else {
        None
    }
}

pub open spec fn units_step(m: Seq<(Seq<char>, Seq<char>)>, line: Seq<char>) -> Seq<
    (Seq<char>, Seq<char>),
> {
    match unit_entry(line) {
        Some((k, v)) => put(m, k, v),
        None => m,
    }
}

/// The unit files with their states.
pub open spec fn units_map(output: Seq<char>) -> Seq<(Seq<char>, Seq<char>)> {
    lines(output).fold_left(
        Seq::empty(),
        |m: Seq<(Seq<char>, Seq<char>)>, l: Seq<char>| units_step(m, l),
    )
}

fn units_line(m: TextMap<String>, line: &[char]) -> (r: TextMap<String>)
    ensures
        r@ == units_step(m@, line@),
{
    let f = split_words(line);
    let mut out = m;
    if f.len() >= 2 && contains_char(f[0], '.') {
        out.insert(text_of(f[0]), text_of(f[1]));
    }
    out
}

/// Parses `systemctl list-unit-files` into a `unit -> state` map, e.g.
/// `{"firewalld.service": "enabled"}`. The header and footer lines don't match the
/// `unit state ...` shape and are skipped.
pub fn parse_unit_files(output: &str) -> (r: TextMap<String>)
    ensures
        r@ == units_map(output@),
{
    fold_lines(
        output,
        TextMap::new(),
        units_line,
        Ghost(|m: Seq<(Seq<char>, Seq<char>)>, l: Seq<char>| units_step(m, l)),
    )
}

/// The service's unit is there and `enabled`.
pub open spec fn enabled(units: Seq<(Seq<char>, Seq<char>)>, service: Seq<char>) -> bool {
    lookup(units, service + ".service"@) == Some("enabled"@)
}

/// `true` if `<service>.service` is `enabled` in a [`parse_unit_files`] map.
pub fn service_enabled(units: &TextMap<String>, service: &str) -> (r: bool)
    ensures
        r == enabled(units@, service@),
{
    let mut unit = service.to_string();
    unit.append(".service");
    match units.get(unit.as_str()) {
        Some(state) => eq_text(state.as_str(), "enabled"),
        None => false,
    }
}

/// The local port on a row of `ss -tuln`.
pub open spec fn listen_port(line: Seq<char>) -> Option<u16> {
    let f = words(line);
    if f.len() < 6 || f[0] == "Netid"@ || f[0] == "State"@ {
        None
    } else {
        u16_of(after_last(f[4], ':'))
    }
}

pub open spec fn listen_ports(output: Seq<char>) -> Seq<u16> {
    lines(output).filter_map(|l: Seq<char>| listen_port(l))
}

fn listen_line(line: &[char]) -> (r: Option<u16>)
    ensures
        deep_option(r) == listen_port(line@),
{
    let f = split_words(line);
    if f.len() < 6 || spells(f[0], "Netid") || spells(f[0], "State") {
        return None;
    }
    parse_u16(text_after_last(f[4], ':'))
}

/// Local listening ports from `ss -tuln` (the port of each row's local address).
pub fn parse_listen_ports(output: &str) -> (r: Vec<u16>)
    ensures
        r@ == listen_ports(output@),
{
    let ports: Vec<u16> = collect_lines(output, listen_line, Ghost(|l: Seq<char>| listen_port(l)));
    proof {
        assert(deep(ports@) == ports@);
    }
    ports
}

/// The input-filtering posture of an `nft list ruleset` dump.
#[derive(Debug, Clone, Copy, PartialEq, Eq, Structural)]
pub enum NftInput {
    /// No ruleset at all (empty output): the kernel firewall is empty.
    NoRuleset,
    /// A ruleset exists but no base chain is hooked to `input`.
    NoInputHook,
    /// Input-hook chain(s) exist but none deny by default (all accept).
    AcceptAll,
    /// An input-hook chain denies: `policy drop`, or its body carries a `drop`/`reject`
    /// verdict. A *targeted* deny rule counts too, so an accept-policy chain that drops only
    /// some traffic is leniently treated as denying.
    DefaultDeny,
}

/// The words of a ruleset line, without separators at their ends and in small letters.
pub open spec fn nft_tokens(line: Seq<char>) -> Seq<Seq<char>> {
    words(line).map_values(|t: Seq<char>| lowercase(trim_set(t, seq![';', ','])))
}

/// The chain that is open at a line: the brace depth at its start, whether it is hooked to
/// `input`, and whether it denies.
pub ghost struct NftChain {
    pub start: int,
    pub is_input: bool,
    pub denies: bool,
}

/// What is known after some lines of a ruleset.
pub ghost struct NftScan {
    pub depth: int,
    pub chain: Option<NftChain>,
    pub any_input: bool,
    pub deny_found: bool,
}

pub open spec fn nft_open_chain(st: NftScan, line: Seq<char>) -> Option<NftChain> {
    let tokens = nft_tokens(line);
    let chain = if st.chain.is_none() && tokens.len() > 0 && tokens[0] == "chain"@ {
        Some(NftChain { start: st.depth, is_input: false, denies: false })
    } else {
        st.chain
    };
    match chain {
        Some(c) => Some(
            NftChain {
                start: c.start,
                is_input: c.is_input || mentions(line, "hook input"@),
                denies: c.denies || tokens.contains("drop"@) || tokens.contains("reject"@),
            },
        ),
        None => None,
    }
}

/// One more line of a ruleset: a rule belongs to the chain whose braces hold it.
pub open spec fn nft_step(st: NftScan, line: Seq<char>) -> NftScan {
    let depth = st.depth + occurrences(line, '{') - occurrences(line, '}');
    match nft_open_chain(st, line) {
        Some(c) => if depth <= c.start {
            NftScan {
                depth,
                chain: None,
                any_input: st.any_input || c.is_input,
                deny_found: st.deny_found || (c.is_input && c.denies),
            }
        } else {
            NftScan { depth, chain: Some(c), ..st }
        },
        None => NftScan { depth, chain: None, ..st },
    }
}

pub open spec fn nft_scan(ls: Seq<Seq<char>>) -> NftScan {
    ls.fold_left(
        NftScan { depth: 0, chain: None, any_input: false, deny_found: false },
        |st: NftScan, l: Seq<char>| nft_step(st, l),
    )
}

pub open spec fn nft_posture(output: Seq<char>) -> NftInput {
    let end = nft_scan(lines(output));
    if trim(output).len() == 0 {
        NftInput::NoRuleset
    } else if end.deny_found {
        NftInput::DefaultDeny
    } else if end.any_input {
        NftInput::AcceptAll
    } else {
        NftInput::NoInputHook
    }
}

fn nft_line_tokens(line: &[char]) -> (r: Vec<Vec<char>>)
    ensures
        deep(r@) == nft_tokens(line@),
{
    broadcast use lemma_deep_empty;

    let ws = split_words(line);
    let separators: [char; 2] = [';', ','];
    let mut out: Vec<Vec<char>> = Vec::new();
    let mut i: usize = 0;
    while i < ws.len()
        invariant
            i <= ws@.len(),
            deep(ws@) == words(line@),
            separators@ == seq![';', ','],
            deep(out@) == nft_tokens(line@).take(i as int),
        decreases ws@.len() - i,
    {
        broadcast use lemma_deep_push;

        let t = lowercase_of(trimmed_of(ws[i], &separators));
        out.push(t);
        proof {
            assert(nft_tokens(line@).take(i + 1) == nft_tokens(line@).take(i as int).push(
                nft_tokens(line@)[i as int],
            ));
        }
        i = i + 1;
    }
    proof {
        lemma_take_all(nft_tokens(line@));
    }
    out
}

fn has_token(tokens: &Vec<Vec<char>>, t: &str) -> (r: bool)
    ensures
        r == deep(tokens@).contains(t@),
{
    let mut i: usize = 0;
    while i < tokens.len()
        invariant
            i <= tokens@.len(),
            forall|j: int| 0 <= j < i ==> deep(tokens@)[j] != t@,
        decreases tokens@.len() - i,
    {
        if spells(tokens[i].as_slice(), t) {
            proof {
                assert(deep(tokens@)[i as int] == t@);
            }
            return true;
        }
        i = i + 1;
    }
    false
}

proof fn lemma_occurrences_bound(s: Seq<char>, c: char)
    ensures
        occurrences(s, c) <= s.len(),
    decreases s.len(),
{
    if s.len() > 0 {
        lemma_occurrences_bound(s.drop_last(), c);
    }
}

/// Classifies the input-hook posture of `nft list ruleset` output. Brace depth is tracked so
/// a rule is attributed to the chain that contains it; a chain counts as denying if its
/// header is `policy drop` or its body has any `drop`/`reject` verdict (catch-all or
/// targeted; see [`NftInput::DefaultDeny`]).
pub fn nft_input_policy(output: &str) -> (r: NftInput)
    ensures
        r == nft_posture(output@),
{
    let text = chars_of(output);
    if trimmed(text.as_slice()).len() == 0 {
        return NftInput::NoRuleset;
    }
    let len: usize = text.len();
    let ls = split_lines(text.as_slice());
    let mut depth: i128 = 0;
    let mut in_chain: bool = false;
    let mut start: i128 = 0;
    let mut is_input: bool = false;
    let mut denies: bool = false;
    let mut any_input: bool = false;
    let mut deny_found: bool = false;
    let mut i: usize = 0;
    let ghost dl = deep(ls@);
    let ghost st = NftScan { depth: 0, chain: None, any_input: false, deny_found: false };
    let ghost step = |st: NftScan, l: Seq<char>| nft_step(st, l);
    proof {
        lemma_lines_total_len(output@);
        assert(dl.take(0).fold_left(st, step) == st);
    }
    while i < ls.len()
        invariant
            i <= ls@.len(),
            dl == deep(ls@),
            dl == lines(output@),
            len == output@.len(),
            total_len(dl) <= len,
            step == |st: NftScan, l: Seq<char>| nft_step(st, l),
            st == dl.take(i as int).fold_left(
                NftScan { depth: 0, chain: None, any_input: false, deny_found: false },
                step,
            ),
            st.depth == depth,
            st.any_input == any_input,
            st.deny_found == deny_found,
            st.chain == if in_chain {
                Some(NftChain { start: start as int, is_input, denies })
            } else {
                None
            },
            -total_len(dl.take(i as int)) <= depth <= total_len(dl.take(i as int)),
        decreases ls@.len() - i,
    {
        let line = ls[i];
        proof {
            lemma_fold_step(
                dl,
                NftScan { depth: 0, chain: None, any_input: false, deny_found: false },
                step,
                i as int,
            );
            assert(dl.take(i + 1).drop_last() == dl.take(i as int));
            lemma_total_len_take(dl, i as int);
            lemma_total_len_take(dl, i + 1);
            lemma_occurrences_bound(line@, '{');
            lemma_occurrences_bound(line@, '}');
            assert(dl[i as int] == line@);
            st = nft_step(st, line@);
        }
        let tokens = nft_line_tokens(line);
        if !in_chain && tokens.len() > 0 && spells(tokens[0].as_slice(), "chain") {
            in_chain = true;
            start = depth;
            is_input = false;
            denies = false;
        }
        if in_chain {
            is_input = is_input || contains_text(line, "hook input");
            denies = denies || has_token(&tokens, "drop") || has_token(&tokens, "reject");
        }
        depth = depth + count_char(line, '{') as i128 - count_char(line, '}') as i128;
        if in_chain && depth <= start {
            any_input = any_input || is_input;
            deny_found = deny_found || (is_input && denies);
            in_chain = false;
        }
        proof {
            assert(total_len(dl.take(i + 1)) == total_len(dl.take(i as int)) + line@.len());
            assert(-line@.len() <= occurrences(line@, '{') - occurrences(line@, '}')
                <= line@.len());
        }
        i = i + 1;
    }
    proof {
        lemma_take_all(dl);
    }
    if deny_found {
        NftInput::DefaultDeny
    } else if any_input {
        NftInput::AcceptAll
    } else {
        NftInput::NoInputHook
    }
}

/// A line that sets the policy of the INPUT chain.
pub open spec fn is_input_policy(t: Seq<Seq<char>>) -> bool {
    t.len() >= 3 && t[0] == "-P"@ && t[1] == "INPUT"@
}

/// A line that adds a rule to the INPUT chain.
pub open spec fn is_input_rule(t: Seq<Seq<char>>) -> bool {
    t.len() >= 2 && t[0] == "-A"@ && t[1] == "INPUT"@
}

/// The word behind `-j` is `DROP` or `REJECT`.
pub open spec fn deny_verdict(t: Seq<Seq<char>>) -> bool {
    exists|i: int|
        0 <= i && i + 1 < t.len() && #[trigger] t[i] == "-j"@ && (t[i + 1] == "DROP"@ || t[i + 1]
            == "REJECT"@)
}

/// A line that denies: a `DROP`/`REJECT` policy, or a rule with such a verdict.
pub open spec fn input_denied(line: Seq<char>) -> bool {
    let t = words(line);
    ||| is_input_policy(t) && (t[2] == "DROP"@ || t[2] == "REJECT"@)
    ||| is_input_rule(t) && deny_verdict(t)
}

pub open spec fn iptables_posture(output: Seq<char>) -> NftInput {
    let ls = lines(output);
    if trim(output).len() == 0 {
        NftInput::NoRuleset
    } else if exists|i: int| 0 <= i < ls.len() && input_denied(#[trigger] ls[i]) {
        NftInput::DefaultDeny
    } else if exists|i: int| 0 <= i < ls.len() && is_input_rule(words(#[trigger] ls[i])) {
        NftInput::AcceptAll
    } else {
        NftInput::NoInputHook
    }
}

fn has_deny_verdict(t: &Vec<&[char]>) -> (r: bool)
    ensures
        r == deny_verdict(deep(t@)),
{
    let ghost dt = deep(t@);
    let mut i: usize = 0;
    while t.len() > 1 && i < t.len() - 1
        invariant
            i <= t@.len(),
            dt == deep(t@),
            forall|j: int|
                0 <= j < i && j + 1 < dt.len() ==> !(#[trigger] dt[j] == "-j"@ && (dt[j + 1]
                    == "DROP"@ || dt[j + 1] == "REJECT"@)),
        decreases t@.len() - i,
    {
        if spells(t[i], "-j") && (spells(t[i + 1], "DROP") || spells(t[i + 1], "REJECT")) {
            proof {
                assert(dt[i as int] == "-j"@);
            }
            return true;
        }
        i = i + 1;
    }
    false
}

/// Classifies the INPUT-chain posture of `iptables -S` output, reusing [`NftInput`]. This
/// covers the iptables-legacy backend that [`nft_input_policy`] cannot see. `iptables -S`
/// prints one directive per line: a policy `-P INPUT DROP|ACCEPT` and rules
/// `-A INPUT ... -j TARGET`. The chain "denies" if its policy is `DROP`/`REJECT` or any INPUT
/// rule has a `DROP`/`REJECT` verdict (the word behind `-j`). Targets stay UPPERCASE (unlike nft), so tokens are
/// matched as-is.
///
/// An nft-native host still lists the legacy tables with a bare `-P INPUT ACCEPT` and **no**
/// INPUT rules. That is inconclusive, so a bare accept policy with zero INPUT rules is
/// [`NftInput::NoInputHook`] (defer), not `AcceptAll`. `AcceptAll` is reported only when the
/// legacy INPUT chain is actually populated yet nothing denies. Empty output gives
/// [`NftInput::NoRuleset`].
pub fn iptables_input_policy(output: &str) -> (r: NftInput)
    ensures
        r == iptables_posture(output@),
{
    let text = chars_of(output);
    if trimmed(text.as_slice()).len() == 0 {
        return NftInput::NoRuleset;
    }
    let ls = split_lines(text.as_slice());
    let mut denies: bool = false;
    let mut has_rule: bool = false;
    let mut i: usize = 0;
    let ghost dl = deep(ls@);
    while i < ls.len()
        invariant
            i <= ls@.len(),
            dl == deep(ls@),
            denies == (exists|j: int| 0 <= j < i && input_denied(#[trigger] dl[j])),
            has_rule == (exists|j: int| 0 <= j < i && is_input_rule(words(#[trigger] dl[j]))),
        decreases ls@.len() - i,
    {
        let t = split_words(ls[i]);
        let ghost wt = words(dl[i as int]);
        assert(deep(t@) == wt);
        let rule = t.len() >= 2 && spells(t[0], "-A") && spells(t[1], "INPUT");
        let policy = t.len() >= 3 && spells(t[0], "-P") && spells(t[1], "INPUT");
        let deny_rule = rule && has_deny_verdict(&t);
        let deny_policy = policy && (spells(t[2], "DROP") || spells(t[2], "REJECT"));
        proof {
            assert(rule == is_input_rule(wt));
            assert(policy == is_input_policy(wt));
            assert((deny_rule || deny_policy) == input_denied(dl[i as int]));
        }
        denies = denies || deny_rule || deny_policy;
        has_rule = has_rule || rule;
        i = i + 1;
    }
    if denies {
        NftInput::DefaultDeny
    } else if has_rule {
        NftInput::AcceptAll
    } else {
        NftInput::NoInputHook
    }
}

} // verus!
