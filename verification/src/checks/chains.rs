//! The posture of an nft ruleset, told by its chains.

use super::parse::{nft_posture, nft_scan, nft_step, nft_tokens, NftChain, NftInput, NftScan};
use crate::text::search::{mentions, occurrences};
use crate::text::split::{lemma_fold_step, lemma_take_all, lines, trim};
use vstd::prelude::*;

verus! {

/// How many braces are open before line `i`.
pub open spec fn level(ls: Seq<Seq<char>>, i: int) -> int
    decreases i,
{
    if i <= 0 {
        0
    } else {
        level(ls, i - 1) + occurrences(ls[i - 1], '{') - occurrences(ls[i - 1], '}')
    }
}

/// A line that starts a chain.
pub open spec fn starts_chain(line: Seq<char>) -> bool {
    nft_tokens(line).len() > 0 && nft_tokens(line)[0] == "chain"@
}

/// The first line from `i` on that starts a chain, or the number of lines.
pub open spec fn next_chain(ls: Seq<Seq<char>>, i: int) -> int
    decreases ls.len() - i,
{
    if i >= ls.len() || starts_chain(ls[i]) {
        i
    } else {
        next_chain(ls, i + 1)
    }
}

/// The first line from `i` on behind which no more braces are open than `start`, or the number
/// of lines.
pub open spec fn chain_end(ls: Seq<Seq<char>>, start: int, i: int) -> int
    decreases ls.len() - i,
{
    if i >= ls.len() || level(ls, i + 1) <= start {
        i
    } else {
        chain_end(ls, start, i + 1)
    }
}

/// The chains from line `i` on, each by its first line and the one behind its last. A chain
/// ends where its braces do; what starts inside another belongs to that one, and one that is
/// never closed is none.
pub open spec fn chains_from(ls: Seq<Seq<char>>, i: int) -> Seq<(int, int)>
    decreases ls.len() - i,
{
    let a = next_chain(ls, i);
    let b = chain_end(ls, level(ls, a), a);
    if 0 <= i <= a <= b < ls.len() {
        seq![(a, b + 1)] + chains_from(ls, b + 1)
    } else {
        Seq::empty()
    }
}

/// One of the lines hooks the chain to `input`.
pub open spec fn is_hooked(ls: Seq<Seq<char>>, c: (int, int)) -> bool {
    exists|k: int| c.0 <= k < c.1 && mentions(#[trigger] ls[k], "hook input"@)
}

/// One of the lines drops or rejects.
pub open spec fn has_denial(ls: Seq<Seq<char>>, c: (int, int)) -> bool {
    exists|k: int|
        c.0 <= k < c.1 && (nft_tokens(#[trigger] ls[k]).contains("drop"@) || nft_tokens(
            ls[k],
        ).contains("reject"@))
}

/// Some chain is hooked to `input`.
pub open spec fn some_hooked(ls: Seq<Seq<char>>, chains: Seq<(int, int)>) -> bool {
    exists|n: int| 0 <= n < chains.len() && is_hooked(ls, #[trigger] chains[n])
}

/// Some chain is hooked to `input` and denies.
pub open spec fn some_denying(ls: Seq<Seq<char>>, chains: Seq<(int, int)>) -> bool {
    exists|n: int|
        0 <= n < chains.len() && is_hooked(ls, #[trigger] chains[n]) && has_denial(ls, chains[n])
}

/// A ruleset that is not blank denies by default exactly if some chain is hooked to `input` and
/// drops or rejects; it accepts all exactly if some chain is hooked and none of those denies;
/// and it has no input hook exactly if no chain is hooked.
pub proof fn law_posture_is_told_by_chains(output: Seq<char>)
    ensures
        nft_posture(output) == NftInput::NoRuleset <==> trim(output).len() == 0,
        trim(output).len() > 0 ==> ({
            let ls = lines(output);
            let chains = chains_from(ls, 0);
            &&& nft_posture(output) == NftInput::DefaultDeny <==> some_denying(ls, chains)
            &&& nft_posture(output) == NftInput::AcceptAll <==> some_hooked(ls, chains)
                && !some_denying(ls, chains)
            &&& nft_posture(output) == NftInput::NoInputHook <==> !some_hooked(ls, chains)
        }),
{
    let ls = lines(output);
    lemma_scan(ls, 0);
    let chains = chains_from(ls, 0);
    if some_denying(ls, chains) {
        let n = choose|n: int|
            0 <= n < chains.len() && is_hooked(ls, #[trigger] chains[n]) && has_denial(
                ls,
                chains[n],
            );
        assert(is_hooked(ls, chains[n]));
    }
}

spec fn empty_scan() -> NftScan {
    NftScan { depth: 0, chain: None, any_input: false, deny_found: false }
}

/// What is known before line `i`.
spec fn known(ls: Seq<Seq<char>>, i: int) -> NftScan {
    nft_scan(ls.take(i))
}

proof fn lemma_known_step(ls: Seq<Seq<char>>, i: int)
    requires
        0 <= i < ls.len(),
    ensures
        known(ls, i + 1) == nft_step(known(ls, i), ls[i]),
{
    let step = |st: NftScan, l: Seq<char>| nft_step(st, l);
    lemma_fold_step(ls, empty_scan(), step, i);
}

proof fn lemma_known_level(ls: Seq<Seq<char>>, i: int)
    requires
        0 <= i <= ls.len(),
    ensures
        known(ls, i).depth == level(ls, i),
        i == 0 ==> known(ls, i) == empty_scan(),
    decreases i,
{
    if i > 0 {
        lemma_known_level(ls, i - 1);
        lemma_known_step(ls, i - 1);
    } else {
        let step = |st: NftScan, l: Seq<char>| nft_step(st, l);
        assert(ls.take(0).fold_left(empty_scan(), step) == empty_scan());
    }
}

/// Between chains nothing changes but the depth.
proof fn lemma_between(ls: Seq<Seq<char>>, i: int)
    requires
        0 <= i <= ls.len(),
        known(ls, i).chain is None,
    ensures
        i <= next_chain(ls, i) <= ls.len(),
        next_chain(ls, i) < ls.len() ==> starts_chain(ls[next_chain(ls, i)]),
        ({
            let st = known(ls, next_chain(ls, i));
            &&& st.chain is None
            &&& st.any_input == known(ls, i).any_input
            &&& st.deny_found == known(ls, i).deny_found
        }),
    decreases ls.len() - i,
{
    if i < ls.len() && !starts_chain(ls[i]) {
        lemma_known_step(ls, i);
        lemma_between(ls, i + 1);
    }
}

/// The chain that starts at line `a`, as it stands before line `k`.
spec fn open_chain(ls: Seq<Seq<char>>, a: int, k: int) -> NftChain {
    NftChain {
        start: level(ls, a),
        is_input: is_hooked(ls, (a, k)),
        denies: has_denial(ls, (a, k)),
    }
}

proof fn lemma_one_more_line(ls: Seq<Seq<char>>, a: int, k: int)
    requires
        0 <= a <= k < ls.len(),
    ensures
        is_hooked(ls, (a, k + 1)) == (is_hooked(ls, (a, k)) || mentions(ls[k], "hook input"@)),
        has_denial(ls, (a, k + 1)) == (has_denial(ls, (a, k)) || nft_tokens(ls[k]).contains(
            "drop"@,
        ) || nft_tokens(ls[k]).contains("reject"@)),
        !is_hooked(ls, (a, a)),
        !has_denial(ls, (a, a)),
{
    if is_hooked(ls, (a, k)) {
        let j = choose|j: int| a <= j < k && mentions(#[trigger] ls[j], "hook input"@);
        assert(a <= j < k + 1 && mentions(ls[j], "hook input"@));
    }
    if mentions(ls[k], "hook input"@) {
        assert(a <= k < k + 1 && mentions(ls[k], "hook input"@));
    }
    if has_denial(ls, (a, k)) {
        let j = choose|j: int|
            a <= j < k && (nft_tokens(#[trigger] ls[j]).contains("drop"@) || nft_tokens(
                ls[j],
            ).contains("reject"@));
        assert(a <= j < k + 1);
        assert(nft_tokens(ls[j]).contains("drop"@) || nft_tokens(ls[j]).contains("reject"@));
    }
    if nft_tokens(ls[k]).contains("drop"@) || nft_tokens(ls[k]).contains("reject"@) {
        assert(a <= k < k + 1);
    }
}

/// Inside a chain its lines are gathered until its braces close.
proof fn lemma_inside(ls: Seq<Seq<char>>, a: int, k: int)
    requires
        0 <= a <= k <= ls.len(),
        a < ls.len(),
        starts_chain(ls[a]),
        known(ls, a).chain is None,
        k == a || known(ls, k).chain == Some(open_chain(ls, a, k)),
        known(ls, k).any_input == known(ls, a).any_input,
        known(ls, k).deny_found == known(ls, a).deny_found,
    ensures
        ({
            let b = chain_end(ls, level(ls, a), k);
            let hooked = is_hooked(ls, (a, b + 1));
            let denying = hooked && has_denial(ls, (a, b + 1));
            let before = known(ls, a);
            &&& k <= b <= ls.len()
            &&& b < ls.len() ==> known(ls, b + 1).chain is None && known(ls, b + 1).any_input == (
            before.any_input || hooked) && known(ls, b + 1).deny_found == (before.deny_found
                || denying)
            &&& b == ls.len() ==> known(ls, b).any_input == before.any_input && known(
                ls,
                b,
            ).deny_found == before.deny_found
        }),
    decreases ls.len() - k,
{
    if k < ls.len() {
        lemma_known_step(ls, k);
        lemma_known_level(ls, k);
        lemma_known_level(ls, k + 1);
        lemma_one_more_line(ls, a, k);
        if level(ls, k + 1) > level(ls, a) {
            assert(known(ls, k + 1).chain == Some(open_chain(ls, a, k + 1)));
            lemma_inside(ls, a, k + 1);
        }
    }
}

proof fn lemma_scan(ls: Seq<Seq<char>>, i: int)
    requires
        0 <= i <= ls.len(),
        i == 0 || known(ls, i).chain is None,
    ensures
        nft_scan(ls).any_input == (known(ls, i).any_input || some_hooked(ls, chains_from(ls, i))),
        nft_scan(ls).deny_found == (known(ls, i).deny_found || some_denying(
            ls,
            chains_from(ls, i),
        )),
    decreases ls.len() - i,
{
    lemma_take_all(ls);
    lemma_known_level(ls, i);
    lemma_between(ls, i);
    let a = next_chain(ls, i);
    let all = chains_from(ls, i);
    if a < ls.len() {
        lemma_inside(ls, a, a);
        let b = chain_end(ls, level(ls, a), a);
        if b < ls.len() {
            lemma_scan(ls, b + 1);
            let rest = chains_from(ls, b + 1);
            let c = (a, b + 1);
            assert(all == seq![c] + rest);
            lemma_chains_cons(ls, c, rest);
        }
    }
}

proof fn lemma_chains_cons(ls: Seq<Seq<char>>, c: (int, int), rest: Seq<(int, int)>)
    ensures
        some_hooked(ls, seq![c] + rest) == (is_hooked(ls, c) || some_hooked(ls, rest)),
        some_denying(ls, seq![c] + rest) == ((is_hooked(ls, c) && has_denial(ls, c))
            || some_denying(ls, rest)),
{
    let all = seq![c] + rest;
    assert(all[0] == c);
    assert forall|n: int| 0 <= n < rest.len() implies #[trigger] rest[n] == all[n + 1] by {}
    if some_hooked(ls, rest) {
        let n = choose|n: int| 0 <= n < rest.len() && is_hooked(ls, #[trigger] rest[n]);
        assert(is_hooked(ls, all[n + 1]));
    }
    if some_denying(ls, rest) {
        let n = choose|n: int|
            0 <= n < rest.len() && is_hooked(ls, #[trigger] rest[n]) && has_denial(ls, rest[n]);
        assert(is_hooked(ls, all[n + 1]) && has_denial(ls, all[n + 1]));
    }
    if some_hooked(ls, all) && !is_hooked(ls, c) {
        let n = choose|n: int| 0 <= n < all.len() && is_hooked(ls, #[trigger] all[n]);
        assert(is_hooked(ls, rest[n - 1]));
    }
    if some_denying(ls, all) && !(is_hooked(ls, c) && has_denial(ls, c)) {
        let n = choose|n: int|
            0 <= n < all.len() && is_hooked(ls, #[trigger] all[n]) && has_denial(ls, all[n]);
        assert(is_hooked(ls, rest[n - 1]) && has_denial(ls, rest[n - 1]));
    }
}

} // verus!
