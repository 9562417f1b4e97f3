//! The bracketed roster text format: a series' per-game player lists are
//! written as a nested, quoted, comma-joined literal such as
//! `[["p1", "p2"], ["p3", "p4"]]`, and can be read back.

use vstd::prelude::*;
use crate::text::{chars_of, string_from_chars};

verus! {

pub open spec fn quoted(name: Seq<char>) -> Seq<char> {
    seq!['"'] + name + seq!['"']
}

pub open spec fn list_sep() -> Seq<char> {
    seq![',', ' ']
}

/// The parts joined with `", "`, as the encoder writes a list.
pub open spec fn joined(parts: Seq<Seq<char>>) -> Seq<char>
    decreases parts.len(),
{
    if parts.len() == 0 {
        Seq::<char>::empty()
    } else if parts.len() == 1 {
        parts[0]
    } else {
        parts[0] + list_sep() + joined(parts.skip(1))
    }
}

/// The text of one game's roster: the quoted player names, joined and
/// bracketed.
pub open spec fn roster_text(names: Seq<Seq<char>>) -> Seq<char> {
    seq!['['] + joined(names.map_values(|n: Seq<char>| quoted(n))) + seq![']']
}

/// The text of a full per-game roster sequence.
pub open spec fn rosters_text(groups: Seq<Seq<Seq<char>>>) -> Seq<char> {
    seq!['['] + joined(groups.map_values(|ns: Seq<Seq<char>>| roster_text(ns))) + seq![']']
}

pub open spec fn qf_name(n: Seq<char>) -> bool {
    forall|i: int| 0 <= i < n.len() ==> n[i] != '"'
}

/// No player name holds a double quote, the one character the format
/// cannot carry.
pub open spec fn quote_free(groups: Seq<Seq<Seq<char>>>) -> bool {
    forall|g: int, n: int|
        0 <= g < groups.len() && 0 <= n < groups[g].len() ==> qf_name(#[trigger] groups[g][n])
}

proof fn lemma_join_snoc(parts: Seq<Seq<char>>, p: Seq<char>)
    requires
        parts.len() >= 1,
    ensures
        joined(parts.push(p)) == joined(parts) + list_sep() + p,
    decreases parts.len(),
{
    if parts.len() == 1 {
        assert(parts.push(p).skip(1) =~= seq![p]);
        assert(joined(seq![p]) == p);
        assert(parts.push(p)[0] == parts[0]);
        assert(joined(parts.push(p)) == parts[0] + list_sep() + p);
    } else {
        assert(parts.push(p).skip(1) =~= parts.skip(1).push(p));
        lemma_join_snoc(parts.skip(1), p);
        assert(parts.push(p)[0] == parts[0]);
        assert(parts[0] + list_sep() + (joined(parts.skip(1)) + list_sep() + p) =~= (parts[0]
            + list_sep() + joined(parts.skip(1))) + list_sep() + p);
    }
}

fn append_quoted(out: &mut Vec<char>, name: &str)
    ensures
        final(out)@ == old(out)@ + quoted(name@),
{
    out.push('"');
    let mut c = chars_of(name);
    out.append(&mut c);
    out.push('"');
    proof {
        assert(out@ =~= old(out)@ + quoted(name@));
    }
}

fn encode_roster(names: &Vec<String>) -> (r: Vec<char>)
    ensures
        r@ == roster_text(names.deep_view()),
{
    let ghost q = names.deep_view().map_values(|n: Seq<char>| quoted(n));
    let mut out: Vec<char> = Vec::new();
    out.push('[');
    let mut i: usize = 0;
    proof {
        assert(out@ =~= seq!['['] + joined(q.take(0)));
    }
    while i < names.len()
        invariant
            i <= names.len(),
            q == names.deep_view().map_values(|n: Seq<char>| quoted(n)),
            out@ == seq!['['] + joined(q.take(i as int)),
        decreases names.len() - i,
    {
        let ghost before = out@;
        if i > 0 {
            out.push(',');
            out.push(' ');
        }
        append_quoted(&mut out, names[i].as_str());
        proof {
            assert(names.deep_view()[i as int] == names@[i as int]@);
            assert(q[i as int] == quoted(names@[i as int]@));
            assert(q.take(i as int).push(q[i as int]) =~= q.take(i as int + 1));
            if i > 0 {
                lemma_join_snoc(q.take(i as int), q[i as int]);
                assert(out@ =~= seq!['['] + joined(q.take(i as int + 1)));
            } else {
                assert(out@ =~= seq!['['] + q[0]);
                assert(joined(q.take(1)) == q.take(1)[0]);
                assert(out@ =~= seq!['['] + joined(q.take(1)));
            }
        }
        i += 1;
    }
    out.push(']');
    proof {
        assert(q.take(names@.len() as int) =~= q);
        assert(out@ =~= roster_text(names.deep_view()));
    }
    out
}

/// Writes a per-game roster sequence in the bracketed text format.
pub fn encode_rosters(groups: &Vec<Vec<String>>) -> (r: String)
    ensures
        r@ == rosters_text(groups.deep_view()),
{
    let ghost q = groups.deep_view().map_values(|ns: Seq<Seq<char>>| roster_text(ns));
    let mut out: Vec<char> = Vec::new();
    out.push('[');
    let mut i: usize = 0;
    proof {
        assert(out@ =~= seq!['['] + joined(q.take(0)));
    }
    while i < groups.len()
        invariant
            i <= groups.len(),
            q == groups.deep_view().map_values(|ns: Seq<Seq<char>>| roster_text(ns)),
            out@ == seq!['['] + joined(q.take(i as int)),
        decreases groups.len() - i,
    {
        if i > 0 {
            out.push(',');
            out.push(' ');
        }
        let mut part = encode_roster(&groups[i]);
        out.append(&mut part);
        proof {
            assert(groups.deep_view()[i as int] == groups@[i as int].deep_view());
            assert(q[i as int] == roster_text(groups@[i as int].deep_view()));
            assert(q.take(i as int).push(q[i as int]) =~= q.take(i as int + 1));
            if i > 0 {
                lemma_join_snoc(q.take(i as int), q[i as int]);
                assert(out@ =~= seq!['['] + joined(q.take(i as int + 1)));
            } else {
                assert(out@ =~= seq!['['] + q[0]);
                assert(joined(q.take(1)) == q.take(1)[0]);
                assert(out@ =~= seq!['['] + joined(q.take(1)));
            }
        }
        i += 1;
    }
    out.push(']');
    proof {
        assert(q.take(groups@.len() as int) =~= q);
        assert(out@ =~= rosters_text(groups.deep_view()));
    }
    string_from_chars(&out)
}

fn parse_name_at(v: &Vec<char>, pos: usize) -> (r: Option<(Vec<char>, usize)>)
    requires
        pos <= v.len(),
    ensures
        r matches Some(p) ==> pos + 2 <= p.1 <= v.len() && v@[pos as int] == '"' && v@[p.1 - 1]
            == '"' && p.0@ == v@.subrange(pos as int + 1, p.1 - 1) && (forall|j: int|
            pos < j < p.1 - 1 ==> v@[j] != '"'),
        r is None ==> pos == v@.len() || v@[pos as int] != '"' || (forall|j: int|
            pos < j < v@.len() ==> v@[j] != '"'),
{
    if pos >= v.len() || v[pos] != '"' {
        return None;
    }
    let mut i: usize = pos + 1;
    let mut name: Vec<char> = Vec::new();
    while i < v.len() && v[i] != '"'
        invariant
            pos + 1 <= i <= v.len(),
            name@ == v@.subrange(pos as int + 1, i as int),
            forall|j: int| pos < j < i ==> v@[j] != '"',
        decreases v.len() - i,
    {
        name.push(v[i]);
        proof {
            assert(v@.subrange(pos as int + 1, i as int).push(v@[i as int]) =~= v@.subrange(
                pos as int + 1,
                i as int + 1,
            ));
        }
        i += 1;
    }
    if i >= v.len() {
        return None;
    }
    Some((name, i + 1))
}

proof fn lemma_quoted_at(v: Seq<char>, i: int, n: Seq<char>, tail: Seq<char>)
    requires
        qf_name(n),
        0 <= i <= v.len(),
        v.skip(i) == quoted(n) + tail,
    ensures
        i + 2 + n.len() <= v.len(),
        v[i] == '"',
        v[i + 1 + n.len()] == '"',
        forall|j: int| i < j < i + 1 + n.len() ==> v[j] == n[j - i - 1] && v[j] != '"',
        v.subrange(i + 1, i + 1 + n.len()) == n,
        v.skip(i + 2 + n.len()) == tail,
{
    assert(v.skip(i).len() == n.len() + 2 + tail.len());
    assert(v.skip(i)[0] == v[i]);
    assert((quoted(n) + tail)[0] == '"');
    assert(v.skip(i)[1 + n.len() as int] == v[i + 1 + n.len()]);
    assert((quoted(n) + tail)[1 + n.len() as int] == '"');
    assert forall|j: int| i < j < i + 1 + n.len() implies v[j] == n[j - i - 1] && v[j] != '"' by {
        assert(v.skip(i)[j - i] == v[j]);
        assert((quoted(n) + tail)[j - i] == n[j - i - 1]);
    }
    assert forall|m: int| 0 <= m < n.len() implies v.subrange(i + 1, i + 1 + n.len())[m]
        == n[m] by {
        assert(v[i + 1 + m] == n[m]);
    }
    assert(v.subrange(i + 1, i + 1 + n.len()) =~= n);
    assert forall|m: int| 0 <= m < tail.len() implies v.skip(i + 2 + n.len())[m] == tail[m] by {
        assert(v.skip(i)[2 + n.len() + m] == v[i + 2 + n.len() + m]);
        assert((quoted(n) + tail)[2 + n.len() + m] == tail[m]);
    }
    assert(v.skip(i + 2 + n.len()) =~= tail);
}

/// The suffix of a mid-list roster text: what follows once the list is
/// open and the first `k` names are consumed, a separator or the
/// closing bracket ahead.
pub open spec fn names_rest(ns: Seq<Seq<char>>, k: int, tail: Seq<char>) -> Seq<char> {
    if k == ns.len() {
        seq![']'] + tail
    } else {
        joined(quoted_all(ns.skip(k))) + seq![']'] + tail
    }
}

/// What follows the `k`-th name itself: the separator before the next
/// name, or the closing bracket.
pub open spec fn after_name(ns: Seq<Seq<char>>, k: int, tail: Seq<char>) -> Seq<char> {
    if k + 1 == ns.len() {
        seq![']'] + tail
    } else {
        list_sep() + joined(quoted_all(ns.skip(k + 1))) + seq![']'] + tail
    }
}

proof fn lemma_skip_quoted_all(ns: Seq<Seq<char>>, k: int)
    requires
        0 <= k < ns.len(),
    ensures
        quoted_all(ns.skip(k)).skip(1) == quoted_all(ns.skip(k + 1)),
{
    assert forall|m: int|
        0 <= m < quoted_all(ns.skip(k)).skip(1).len() implies quoted_all(ns.skip(k)).skip(1)[m]
        == quoted_all(ns.skip(k + 1))[m] by {
        assert(quoted_all(ns.skip(k)).skip(1)[m] == quoted(ns.skip(k)[m + 1]));
        assert(ns.skip(k)[m + 1] == ns.skip(k + 1)[m]);
    }
    assert(quoted_all(ns.skip(k)).skip(1) =~= quoted_all(ns.skip(k + 1)));
}

#[verifier::rlimit(60)]
fn parse_roster_at(v: &Vec<char>, pos: usize) -> (r: Option<(Vec<String>, usize)>)
    requires
        pos <= v.len(),
    ensures
        r matches Some(p) ==> pos < p.1 <= v.len(),
        forall|ns: Seq<Seq<char>>, tail: Seq<char>|
            qf_names(ns) && v@.skip(pos as int) == #[trigger] (roster_text(ns) + tail) ==> (match r {
                Some(p) => p.0.deep_view() == ns && v@.skip(p.1 as int) == tail,
                None => false,
            }),
{
    if pos >= v.len() || v[pos] != '[' {
        proof {
            assert forall|ns: Seq<Seq<char>>, tail: Seq<char>|
                qf_names(ns) && v@.skip(pos as int) == #[trigger] (roster_text(ns)
                    + tail) implies false by {
                assert(v@.skip(pos as int).len() == roster_text(ns).len() + tail.len());
                assert(roster_text(ns).len() >= 2);
                assert(v@.skip(pos as int)[0] == v@[pos as int]);
                assert((roster_text(ns) + tail)[0] == '[');
            }
        }
        return None;
    }
    let mut i: usize = pos + 1;
    let mut names: Vec<String> = Vec::new();
    proof {
        assert forall|ns: Seq<Seq<char>>, tail: Seq<char>|
            qf_names(ns) && v@.skip(pos as int) == #[trigger] (roster_text(ns) + tail) implies v@.skip(
            pos as int + 1,
        ) == joined(quoted_all(ns)) + seq![']'] + tail by {
            assert(v@.skip(pos as int + 1) =~= v@.skip(pos as int).skip(1));
            assert((roster_text(ns) + tail).skip(1) =~= joined(quoted_all(ns)) + seq![']']
                + tail);
        }
    }
    if i < v.len() && v[i] == ']' {
        proof {
            assert forall|ns: Seq<Seq<char>>, tail: Seq<char>|
                qf_names(ns) && v@.skip(pos as int) == #[trigger] (roster_text(ns)
                    + tail) implies ns.len() == 0 && v@.skip(i as int + 1) == tail by {
                if ns.len() > 0 {
                    assert(quoted_all(ns)[0] == quoted(ns[0]));
                    assert(joined(quoted_all(ns))[0] == '"');
                    assert(v@.skip(pos as int + 1)[0] == v@[i as int]);
                    assert(false);
                }
                assert(joined(quoted_all(ns)).len() == 0);
                assert(v@.skip(i as int + 1) =~= v@.skip(pos as int + 1).skip(1));
                assert((joined(quoted_all(ns)) + seq![']'] + tail).skip(1) =~= tail);
            }
            assert(names.deep_view() =~= Seq::<Seq<char>>::empty());
        }
        return Some((names, i + 1));
    }
    proof {
        assert forall|ns: Seq<Seq<char>>, tail: Seq<char>|
            qf_names(ns) && v@.skip(pos as int) == #[trigger] (roster_text(ns)
                + tail) implies names.deep_view().len() < ns.len() && names.deep_view() == ns.take(
            0,
        ) && v@.skip(i as int) == names_rest(ns, 0, tail) by {
            if ns.len() == 0 {
                assert(joined(quoted_all(ns)).len() == 0);
                assert(v@.skip(pos as int + 1).len() >= 1);
                assert(v@.skip(pos as int + 1)[0] == ']');
                assert(v@.skip(pos as int + 1)[0] == v@[i as int]);
                assert(false);
            }
            assert(names.deep_view() =~= ns.take(0));
            assert(ns.skip(0) =~= ns);
        }
    }
    loop
        invariant
            pos < i <= v.len(),
            forall|ns: Seq<Seq<char>>, tail: Seq<char>|
                qf_names(ns) && v@.skip(pos as int) == #[trigger] (roster_text(ns) + tail)
                    ==> names.deep_view().len() < ns.len() && names.deep_view() == ns.take(
                    names.deep_view().len() as int,
                ) && v@.skip(i as int) == names_rest(ns, names.deep_view().len() as int, tail),
        decreases v.len() - i,
    {
        let ghost k0 = names.deep_view().len() as int;
        let got = parse_name_at(v, i);
        proof {
            assert forall|ns: Seq<Seq<char>>, tail: Seq<char>|
                qf_names(ns) && v@.skip(pos as int) == #[trigger] (roster_text(ns)
                    + tail) implies (got matches Some(p) && p.0@ == ns[k0] && p.1 == i + 2
                + ns[k0].len() && v@.skip(p.1 as int) == after_name(ns, k0, tail)) by {
                let n = ns[k0];
                let rest0 = after_name(ns, k0, tail);
                assert(quoted_all(ns.skip(k0))[0] == quoted(ns.skip(k0)[0]));
                assert(ns.skip(k0)[0] == n);
                if k0 + 1 == ns.len() {
                    assert(ns.skip(k0).len() == 1);
                    assert(joined(quoted_all(ns.skip(k0))) == quoted(n));
                    assert(v@.skip(i as int) =~= quoted(n) + rest0);
                } else {
                    lemma_skip_quoted_all(ns, k0);
                    assert(joined(quoted_all(ns.skip(k0))) == quoted(n) + list_sep() + joined(
                        quoted_all(ns.skip(k0 + 1)),
                    ));
                    assert(v@.skip(i as int) =~= quoted(n) + rest0);
                }
                assert(qf_name(n));
                lemma_quoted_at(v@, i as int, n, rest0);
                let e = i + 1 + n.len();
                match got {
                    None => {
                        assert(v@[i as int] == '"');
                        assert(i < e < v@.len());
                        assert(v@[e as int] == '"');
                        assert(false);
                    },
                    Some(p) => {
                        if p.1 - 1 < e {
                            assert(v@[p.1 - 1] == n[p.1 - 1 - i - 1]);
                            assert(false);
                        }
                        if p.1 - 1 > e {
                            assert(v@[e as int] != '"');
                            assert(false);
                        }
                        assert(p.0@ == v@.subrange(i as int + 1, e as int));
                    },
                }
            }
        }
        match got {
            None => {
                proof {
                    assert forall|ns: Seq<Seq<char>>, tail: Seq<char>|
                        qf_names(ns) && v@.skip(pos as int) == #[trigger] (roster_text(ns)
                            + tail) implies false by {
                        assert(got matches Some(p) && p.0@ == ns[k0]);
                    }
                }
                return None;
            },
            Some(p) => {
                let ghost old_names = names.deep_view();
                names.push(string_from_chars(&p.0));
                i = p.1;
                proof {
                    assert forall|ns: Seq<Seq<char>>, tail: Seq<char>|
                        qf_names(ns) && v@.skip(pos as int) == #[trigger] (roster_text(ns)
                            + tail) implies names.deep_view() == ns.take(k0 + 1) && k0 + 1
                        <= ns.len() && v@.skip(i as int) == after_name(ns, k0, tail) by {
                        assert(names.deep_view() =~~= old_names.push(p.0@));
                        assert(old_names.push(ns[k0]) =~= ns.take(k0 + 1)) by {
                            assert(ns.take(k0).push(ns[k0]) =~= ns.take(k0 + 1));
                        }
                    }
                }
            },
        }
        if i < v.len() && v[i] == ']' {
            proof {
                assert forall|ns: Seq<Seq<char>>, tail: Seq<char>|
                    qf_names(ns) && v@.skip(pos as int) == #[trigger] (roster_text(ns)
                        + tail) implies names.deep_view() == ns && v@.skip(i as int + 1)
                    == tail by {
                    if k0 + 1 < ns.len() {
                        assert(v@.skip(i as int)[0] == v@[i as int]);
                        assert(after_name(ns, k0, tail)[0] == ',');
                        assert(false);
                    }
                    assert(k0 + 1 == ns.len());
                    assert(ns.take(k0 + 1) =~= ns);
                    assert(v@.skip(i as int + 1) =~= v@.skip(i as int).skip(1));
                    assert((seq![']'] + tail).skip(1) =~= tail);
                }
            }
            return Some((names, i + 1));
        }
        if i < v.len() && v[i] == ',' && i + 1 < v.len() && v[i + 1] == ' ' {
            proof {
                assert forall|ns: Seq<Seq<char>>, tail: Seq<char>|
                    qf_names(ns) && v@.skip(pos as int) == #[trigger] (roster_text(ns)
                        + tail) implies names.deep_view().len() < ns.len() && names.deep_view()
                    == ns.take(names.deep_view().len() as int) && v@.skip(i as int + 2)
                    == names_rest(ns, k0 + 1, tail) by {
                    if k0 + 1 == ns.len() {
                        assert(v@.skip(i as int)[0] == v@[i as int]);
                        assert(after_name(ns, k0, tail)[0] == ']');
                        assert(false);
                    }
                    assert(v@.skip(i as int + 2) =~= v@.skip(i as int).skip(2));
                    assert(after_name(ns, k0, tail).skip(2) =~= joined(
                        quoted_all(ns.skip(k0 + 1)),
                    ) + seq![']'] + tail);
                }
            }
            i += 2;
        } else {
            proof {
                assert forall|ns: Seq<Seq<char>>, tail: Seq<char>|
                    qf_names(ns) && v@.skip(pos as int) == #[trigger] (roster_text(ns)
                        + tail) implies false by {
                    let rest0 = after_name(ns, k0, tail);
                    assert(v@.skip(i as int) == rest0);
                    assert(v@.skip(i as int).len() >= 1);
                    assert(v@.skip(i as int)[0] == v@[i as int]);
                    if k0 + 1 == ns.len() {
                        assert(v@[i as int] == ']');
                    } else {
                        assert(rest0.len() >= 4);
                        assert(v@[i as int] == ',');
                        assert(v@.skip(i as int)[1] == v@[i as int + 1]);
                        assert(v@[i as int + 1] == ' ');
                    }
                }
            }
            return None;
        }
    }
}

/// What follows the `k`-th roster of the outer list: the separator
/// before the next roster, or the closing bracket that ends the text.
pub open spec fn after_group(gs: Seq<Seq<Seq<char>>>, k: int) -> Seq<char> {
    if k + 1 == gs.len() {
        seq![']']
    } else {
        list_sep() + joined(roster_all(gs.skip(k + 1))) + seq![']']
    }
}

proof fn lemma_skip_roster_all(gs: Seq<Seq<Seq<char>>>, k: int)
    requires
        0 <= k < gs.len(),
    ensures
        roster_all(gs.skip(k)).skip(1) == roster_all(gs.skip(k + 1)),
{
    assert forall|m: int|
        0 <= m < roster_all(gs.skip(k)).skip(1).len() implies roster_all(gs.skip(k)).skip(1)[m]
        == roster_all(gs.skip(k + 1))[m] by {
        assert(roster_all(gs.skip(k)).skip(1)[m] == roster_text(gs.skip(k)[m + 1]));
        assert(gs.skip(k)[m + 1] == gs.skip(k + 1)[m]);
    }
    assert(roster_all(gs.skip(k)).skip(1) =~= roster_all(gs.skip(k + 1)));
}

/// Reads a bracketed roster text back into the per-game roster sequence.
///
/// Succeeds on exactly the encoder's output: whatever it returns, written
/// again with [`encode_rosters`], reproduces the input text, the returned
/// names are quote-free, and every encoding of a quote-free roster
/// sequence is accepted and read back as that sequence.
#[verifier::rlimit(60)]
pub fn parse_rosters(s: &str) -> (r: Option<Vec<Vec<String>>>)
    ensures
        r matches Some(rr) ==> rosters_text(rr.deep_view()) == s@ && quote_free(rr.deep_view()),
        forall|gs: Seq<Seq<Seq<char>>>|
            quote_free(gs) && s@ == #[trigger] rosters_text(gs) ==> (match r {
                Some(rr) => rr.deep_view() == gs,
                None => false,
            }),
{
    let v = chars_of(s);
    if v.len() == 0 || v[0] != '[' {
        proof {
            assert forall|gs: Seq<Seq<Seq<char>>>|
                quote_free(gs) && s@ == #[trigger] rosters_text(gs) implies false by {
                assert(rosters_text(gs).len() >= 2);
                assert(rosters_text(gs)[0] == '[');
            }
        }
        return None;
    }
    let mut i: usize = 1;
    let mut out: Vec<Vec<String>> = Vec::new();
    proof {
        assert forall|gs: Seq<Seq<Seq<char>>>|
            quote_free(gs) && s@ == #[trigger] rosters_text(gs) implies v@.skip(1) == joined(
            roster_all(gs),
        ) + seq![']'] by {
            assert(v@.skip(1) =~= rosters_text(gs).skip(1));
            assert(rosters_text(gs).skip(1) =~= joined(roster_all(gs)) + seq![']']);
        }
    }
    if i < v.len() && v[i] == ']' {
        i += 1;
        proof {
            assert forall|gs: Seq<Seq<Seq<char>>>|
                quote_free(gs) && s@ == #[trigger] rosters_text(gs) implies out.deep_view() == gs
                && v@.skip(i as int) == Seq::<char>::empty() by {
                if gs.len() > 0 {
                    assert(roster_all(gs)[0] == roster_text(gs[0]));
                    assert(joined(roster_all(gs))[0] == '[');
                    assert(v@.skip(1)[0] == v@[1]);
                    assert(false);
                }
                assert(joined(roster_all(gs)).len() == 0);
                assert(v@.skip(1).len() == 1);
                assert(v@.skip(2) =~= Seq::<char>::empty());
                assert(out.deep_view() =~~= gs);
            }
        }
    } else {
        proof {
            assert forall|gs: Seq<Seq<Seq<char>>>|
                quote_free(gs) && s@ == #[trigger] rosters_text(gs) implies out.deep_view().len()
                < gs.len() && out.deep_view() == gs.take(0) && v@.skip(i as int) == joined(
                roster_all(gs.skip(0)),
            ) + seq![']'] by {
                if gs.len() == 0 {
                    assert(joined(roster_all(gs)).len() == 0);
                    assert(v@.skip(1).len() == 1);
                    assert(v@.skip(1)[0] == ']');
                    assert(v@.skip(1)[0] == v@[1]);
                    assert(v@.len() == 2);
                    assert(false);
                }
                assert(out.deep_view() =~~= gs.take(0));
                assert(gs.skip(0) =~= gs);
            }
        }
        loop
            invariant_except_break
                0 < i <= v.len(),
                forall|gs: Seq<Seq<Seq<char>>>|
                    quote_free(gs) && s@ == #[trigger] rosters_text(gs) ==> out.deep_view().len()
                        < gs.len() && out.deep_view() == gs.take(out.deep_view().len() as int)
                        && v@.skip(i as int) == joined(
                        roster_all(gs.skip(out.deep_view().len() as int)),
                    ) + seq![']'],
            ensures
                0 < i <= v.len(),
                forall|gs: Seq<Seq<Seq<char>>>|
                    quote_free(gs) && s@ == #[trigger] rosters_text(gs) ==> out.deep_view() == gs
                        && v@.skip(i as int) == Seq::<char>::empty(),
            decreases v.len() - i,
        {
            let ghost k0 = out.deep_view().len() as int;
            let got = parse_roster_at(&v, i);
            proof {
                assert forall|gs: Seq<Seq<Seq<char>>>|
                    quote_free(gs) && s@ == #[trigger] rosters_text(gs) implies (got matches Some(
                    p,
                ) && p.0.deep_view() == gs[k0] && v@.skip(p.1 as int) == after_group(gs, k0)) by {
                    assert(roster_all(gs.skip(k0))[0] == roster_text(gs.skip(k0)[0]));
                    assert(gs.skip(k0)[0] == gs[k0]);
                    if k0 + 1 == gs.len() {
                        assert(gs.skip(k0).len() == 1);
                        assert(joined(roster_all(gs.skip(k0))) == roster_text(gs[k0]));
                        assert(v@.skip(i as int) =~= roster_text(gs[k0]) + after_group(gs, k0));
                    } else {
                        lemma_skip_roster_all(gs, k0);
                        assert(joined(roster_all(gs.skip(k0))) == roster_text(gs[k0]) + list_sep()
                            + joined(roster_all(gs.skip(k0 + 1))));
                        assert(v@.skip(i as int) =~= roster_text(gs[k0]) + after_group(gs, k0));
                    }
                    assert(qf_names(gs[k0])) by {
                        assert forall|b: int| 0 <= b < gs[k0].len() implies qf_name(
                            #[trigger] gs[k0][b],
                        ) by {
                            assert(qf_name(gs[k0][b]));
                        }
                    }
                    assert(v@.skip(i as int) == roster_text(gs[k0]) + after_group(gs, k0));
                }
            }
            match got {
                None => {
                    proof {
                        assert forall|gs: Seq<Seq<Seq<char>>>|
                            quote_free(gs) && s@ == #[trigger] rosters_text(gs) implies false by {
                            assert(got matches Some(p) && p.0.deep_view() == gs[k0]);
                        }
                    }
                    return None;
                },
                Some(p) => {
                    let ghost old_out = out.deep_view();
                    out.push(p.0);
                    i = p.1;
                    proof {
                        assert forall|gs: Seq<Seq<Seq<char>>>|
                            quote_free(gs) && s@ == #[trigger] rosters_text(gs) implies out.deep_view()
                            == gs.take(k0 + 1) && k0 + 1 <= gs.len() && v@.skip(i as int)
                            == after_group(gs, k0) by {
                            assert(out.deep_view() =~~= old_out.push(gs[k0]));
                            assert(gs.take(k0).push(gs[k0]) =~= gs.take(k0 + 1));
                            assert(old_out.push(gs[k0]) =~= gs.take(k0 + 1));
                        }
                    }
                },
            }
            if i < v.len() && v[i] == ']' {
                i += 1;
                proof {
                    assert forall|gs: Seq<Seq<Seq<char>>>|
                        quote_free(gs) && s@ == #[trigger] rosters_text(gs) implies out.deep_view()
                        == gs && v@.skip(i as int) == Seq::<char>::empty() by {
                        if k0 + 1 < gs.len() {
                            assert(v@.skip(i as int - 1)[0] == v@[i as int - 1]);
                            assert(after_group(gs, k0)[0] == ',');
                            assert(false);
                        }
                        assert(gs.take(k0 + 1) =~= gs);
                        assert(v@.skip(i as int) =~= v@.skip(i as int - 1).skip(1));
                        assert(seq![']'].skip(1) =~= Seq::<char>::empty());
                    }
                }
                break;
            }
            if i < v.len() && v[i] == ',' && i + 1 < v.len() && v[i + 1] == ' ' {
                proof {
                    assert forall|gs: Seq<Seq<Seq<char>>>|
                        quote_free(gs) && s@ == #[trigger] rosters_text(gs) implies out.deep_view().len()
                        < gs.len() && out.deep_view() == gs.take(out.deep_view().len() as int)
                        && v@.skip(i as int + 2) == joined(roster_all(gs.skip(k0 + 1)))
                        + seq![']'] by {
                        if k0 + 1 == gs.len() {
                            assert(v@.skip(i as int)[0] == v@[i as int]);
                            assert(after_group(gs, k0)[0] == ']');
                            assert(false);
                        }
                        assert(v@.skip(i as int + 2) =~= v@.skip(i as int).skip(2));
                        assert(after_group(gs, k0).skip(2) =~= joined(roster_all(gs.skip(k0 + 1)))
                            + seq![']']);
                    }
                }
                i += 2;
            } else {
                proof {
                    assert forall|gs: Seq<Seq<Seq<char>>>|
                        quote_free(gs) && s@ == #[trigger] rosters_text(gs) implies false by {
                        let rest0 = after_group(gs, k0);
                        assert(v@.skip(i as int) == rest0);
                        assert(v@.skip(i as int).len() >= 1);
                        assert(v@.skip(i as int)[0] == v@[i as int]);
                        if k0 + 1 == gs.len() {
                            assert(v@[i as int] == ']');
                        } else {
                            assert(rest0.len() >= 4);
                            assert(v@[i as int] == ',');
                            assert(v@.skip(i as int)[1] == v@[i as int + 1]);
                            assert(v@[i as int + 1] == ' ');
                        }
                    }
                }
                return None;
            }
        }
    }
    if i != v.len() {
        proof {
            assert forall|gs: Seq<Seq<Seq<char>>>|
                quote_free(gs) && s@ == #[trigger] rosters_text(gs) implies false by {
                assert(v@.skip(i as int).len() == 0);
            }
        }
        return None;
    }
    let ghost dv = out.deep_view();
    let mut g: usize = 0;
    while g < out.len()
        invariant
            g <= out.len(),
            dv == out.deep_view(),
            forall|gs: Seq<Seq<Seq<char>>>|
                quote_free(gs) && s@ == #[trigger] rosters_text(gs) ==> dv == gs,
            forall|a: int, b: int|
                0 <= a < g && 0 <= b < dv[a].len() ==> qf_name(#[trigger] dv[a][b]),
        decreases out.len() - g,
    {
        let mut n: usize = 0;
        while n < out[g].len()
            invariant
                g < out.len(),
                n <= out@[g as int].len(),
                dv == out.deep_view(),
                forall|gs: Seq<Seq<Seq<char>>>|
                    quote_free(gs) && s@ == #[trigger] rosters_text(gs) ==> dv == gs,
                forall|a: int, b: int|
                    0 <= a < g && 0 <= b < dv[a].len() ==> qf_name(#[trigger] dv[a][b]),
                forall|b: int| 0 <= b < n ==> qf_name(#[trigger] dv[g as int][b]),
            decreases out@[g as int].len() - n,
        {
            let name = chars_of(out[g][n].as_str());
            let mut c: usize = 0;
            while c < name.len()
                invariant
                    g < out.len(),
                    n < out@[g as int].len(),
                    dv == out.deep_view(),
                    forall|gs: Seq<Seq<Seq<char>>>|
                        quote_free(gs) && s@ == #[trigger] rosters_text(gs) ==> dv == gs,
                    name@ == dv[g as int][n as int],
                    c <= name.len(),
                    forall|j: int| 0 <= j < c ==> name@[j] != '"',
                decreases name.len() - c,
            {
                if name[c] == '"' {
                    proof {
                        assert forall|gs: Seq<Seq<Seq<char>>>|
                            quote_free(gs) && s@ == #[trigger] rosters_text(gs) implies false by {
                            assert(dv == gs);
                            assert(qf_name(gs[g as int][n as int]));
                            assert(gs[g as int][n as int][c as int] != '"');
                        }
                    }
                    return None;
                }
                c += 1;
            }
            proof {
                assert(qf_name(dv[g as int][n as int]));
            }
            n += 1;
        }
        g += 1;
    }
    proof {
        assert(quote_free(dv));
    }
    let enc = encode_rosters(&out);
    let owned = s.to_owned();
    if enc == owned {
        Some(out)
    } else {
        proof {
            assert forall|gs: Seq<Seq<Seq<char>>>|
                quote_free(gs) && s@ == #[trigger] rosters_text(gs) implies false by {
                assert(dv == gs);
                assert(enc@ == rosters_text(gs));
                assert(enc@ == owned@);
            }
        }
        None
    }
}

pub open spec fn qf_names(ns: Seq<Seq<char>>) -> bool {
    forall|i: int| 0 <= i < ns.len() ==> qf_name(#[trigger] ns[i])
}

pub open spec fn quoted_all(ns: Seq<Seq<char>>) -> Seq<Seq<char>> {
    ns.map_values(|n: Seq<char>| quoted(n))
}

pub open spec fn roster_all(gs: Seq<Seq<Seq<char>>>) -> Seq<Seq<char>> {
    gs.map_values(|ns: Seq<Seq<char>>| roster_text(ns))
}

proof fn lemma_qname_prefix(n1: Seq<char>, n2: Seq<char>, t1: Seq<char>, t2: Seq<char>)
    requires
        qf_name(n1),
        qf_name(n2),
        quoted(n1) + t1 == quoted(n2) + t2,
    ensures
        n1 == n2,
        t1 == t2,
{
    let s = quoted(n1) + t1;
    assert(s.len() == n1.len() + 2 + t1.len());
    assert(s.len() == n2.len() + 2 + t2.len());
    if n1.len() < n2.len() {
        assert(s[1 + n1.len() as int] == '"');
        assert((quoted(n2) + t2)[1 + n1.len() as int] == n2[n1.len() as int]);
        assert(false);
    } else if n2.len() < n1.len() {
        assert(s[1 + n2.len() as int] == n1[n2.len() as int]);
        assert((quoted(n2) + t2)[1 + n2.len() as int] == '"');
        assert(false);
    }
    assert forall|i: int| 0 <= i < n1.len() implies n1[i] == n2[i] by {
        assert(s[1 + i] == n1[i]);
        assert((quoted(n2) + t2)[1 + i] == n2[i]);
    }
    assert(n1 =~= n2);
    assert forall|i: int| 0 <= i < t1.len() implies t1[i] == t2[i] by {
        assert(s[n1.len() as int + 2 + i] == t1[i]);
        assert((quoted(n2) + t2)[n2.len() as int + 2 + i] == t2[i]);
    }
    assert(t1 =~= t2);
}

#[verifier::rlimit(30)]
proof fn lemma_names_suffix(
    ns1: Seq<Seq<char>>,
    ns2: Seq<Seq<char>>,
    t1: Seq<char>,
    t2: Seq<char>,
)
    requires
        qf_names(ns1),
        qf_names(ns2),
        joined(quoted_all(ns1)) + seq![']'] + t1 == joined(quoted_all(ns2)) + seq![']'] + t2,
    ensures
        ns1 == ns2,
        t1 == t2,
    decreases ns1.len(),
{
    let s = joined(quoted_all(ns1)) + seq![']'] + t1;
    if ns1.len() == 0 && ns2.len() == 0 {
        assert(joined(quoted_all(ns1)).len() == 0);
        assert(joined(quoted_all(ns2)).len() == 0);
        assert(s.len() == 1 + t1.len());
        assert(s.len() == 1 + t2.len());
        assert forall|i: int| 0 <= i < t1.len() implies t1[i] == t2[i] by {
            assert(s[1 + i] == t1[i]);
            assert((joined(quoted_all(ns2)) + seq![']'] + t2)[1 + i] == t2[i]);
        }
        assert(t1 =~= t2);
        assert(ns1 =~= ns2);
    } else if ns1.len() == 0 {
        assert(quoted_all(ns2)[0] == quoted(ns2[0]));
        assert(joined(quoted_all(ns2))[0] == '"');
        assert(s[0] == ']');
        assert((joined(quoted_all(ns2)) + seq![']'] + t2)[0] == '"');
        assert(false);
    } else if ns2.len() == 0 {
        assert(quoted_all(ns1)[0] == quoted(ns1[0]));
        assert(joined(quoted_all(ns1))[0] == '"');
        assert((joined(quoted_all(ns2)) + seq![']'] + t2)[0] == ']');
        assert(false);
    } else {
        let r1 = if ns1.len() == 1 {
            seq![']'] + t1
        } else {
            list_sep() + joined(quoted_all(ns1).skip(1)) + seq![']'] + t1
        };
        let r2 = if ns2.len() == 1 {
            seq![']'] + t2
        } else {
            list_sep() + joined(quoted_all(ns2).skip(1)) + seq![']'] + t2
        };
        assert(quoted_all(ns1)[0] == quoted(ns1[0]));
        assert(quoted_all(ns2)[0] == quoted(ns2[0]));
        assert(quoted(ns1[0]) + r1 =~= joined(quoted_all(ns1)) + seq![']'] + t1);
        assert(quoted(ns2[0]) + r2 =~= joined(quoted_all(ns2)) + seq![']'] + t2);
        lemma_qname_prefix(ns1[0], ns2[0], r1, r2);
        if ns1.len() == 1 && ns2.len() == 1 {
            assert forall|i: int| 0 <= i < t1.len() implies t1[i] == t2[i] by {
                assert(r1[1 + i] == t1[i]);
                assert(r2[1 + i] == t2[i]);
            }
            assert(t1 =~= t2);
            assert(ns1 =~= ns2);
        } else if ns1.len() == 1 {
            assert(r1[0] == ']');
            assert(r2[0] == ',');
            assert(false);
        } else if ns2.len() == 1 {
            assert(r1[0] == ',');
            assert(r2[0] == ']');
            assert(false);
        } else {
            assert(quoted_all(ns1).skip(1) =~= quoted_all(ns1.skip(1)));
            assert(quoted_all(ns2).skip(1) =~= quoted_all(ns2.skip(1)));
            assert(r1.skip(2) =~= joined(quoted_all(ns1.skip(1))) + seq![']'] + t1);
            assert(r2.skip(2) =~= joined(quoted_all(ns2.skip(1))) + seq![']'] + t2);
            assert(r1.skip(2) == r2.skip(2));
            assert(qf_names(ns1.skip(1))) by {
                assert(forall|i: int|
                    0 <= i < ns1.skip(1).len() ==> ns1.skip(1)[i] == ns1[i + 1]);
            }
            assert(qf_names(ns2.skip(1))) by {
                assert(forall|i: int|
                    0 <= i < ns2.skip(1).len() ==> ns2.skip(1)[i] == ns2[i + 1]);
            }
            lemma_names_suffix(ns1.skip(1), ns2.skip(1), t1, t2);
            assert(ns1 =~= seq![ns1[0]] + ns1.skip(1));
            assert(ns2 =~= seq![ns2[0]] + ns2.skip(1));
            assert(ns1 =~= ns2);
        }
    }
}

proof fn lemma_roster_prefix(
    ns1: Seq<Seq<char>>,
    ns2: Seq<Seq<char>>,
    u1: Seq<char>,
    u2: Seq<char>,
)
    requires
        qf_names(ns1),
        qf_names(ns2),
        roster_text(ns1) + u1 == roster_text(ns2) + u2,
    ensures
        ns1 == ns2,
        u1 == u2,
{
    let s = roster_text(ns1) + u1;
    assert(s.skip(1) =~= joined(quoted_all(ns1)) + seq![']'] + u1);
    assert((roster_text(ns2) + u2).skip(1) =~= joined(quoted_all(ns2)) + seq![']'] + u2);
    lemma_names_suffix(ns1, ns2, u1, u2);
}

#[verifier::rlimit(30)]
proof fn lemma_groups_suffix(
    gs1: Seq<Seq<Seq<char>>>,
    gs2: Seq<Seq<Seq<char>>>,
    t1: Seq<char>,
    t2: Seq<char>,
)
    requires
        quote_free(gs1),
        quote_free(gs2),
        joined(roster_all(gs1)) + seq![']'] + t1 == joined(roster_all(gs2)) + seq![']'] + t2,
    ensures
        gs1 == gs2,
        t1 == t2,
    decreases gs1.len(),
{
    let s = joined(roster_all(gs1)) + seq![']'] + t1;
    if gs1.len() == 0 && gs2.len() == 0 {
        assert(joined(roster_all(gs1)).len() == 0);
        assert(joined(roster_all(gs2)).len() == 0);
        assert(s.len() == 1 + t1.len());
        assert(s.len() == 1 + t2.len());
        assert forall|i: int| 0 <= i < t1.len() implies t1[i] == t2[i] by {
            assert(s[1 + i] == t1[i]);
            assert((joined(roster_all(gs2)) + seq![']'] + t2)[1 + i] == t2[i]);
        }
        assert(t1 =~= t2);
        assert(gs1 =~= gs2);
    } else if gs1.len() == 0 {
        assert(roster_all(gs2)[0] == roster_text(gs2[0]));
        assert(joined(roster_all(gs2))[0] == '[');
        assert(s[0] == ']');
        assert((joined(roster_all(gs2)) + seq![']'] + t2)[0] == '[');
        assert(false);
    } else if gs2.len() == 0 {
        assert(roster_all(gs1)[0] == roster_text(gs1[0]));
        assert(joined(roster_all(gs1))[0] == '[');
        assert((joined(roster_all(gs2)) + seq![']'] + t2)[0] == ']');
        assert(false);
    } else {
        let r1 = if gs1.len() == 1 {
            seq![']'] + t1
        } else {
            list_sep() + joined(roster_all(gs1).skip(1)) + seq![']'] + t1
        };
        let r2 = if gs2.len() == 1 {
            seq![']'] + t2
        } else {
            list_sep() + joined(roster_all(gs2).skip(1)) + seq![']'] + t2
        };
        assert(roster_all(gs1)[0] == roster_text(gs1[0]));
        assert(roster_all(gs2)[0] == roster_text(gs2[0]));
        assert(roster_text(gs1[0]) + r1 =~= joined(roster_all(gs1)) + seq![']'] + t1);
        assert(roster_text(gs2[0]) + r2 =~= joined(roster_all(gs2)) + seq![']'] + t2);
        assert(qf_names(gs1[0]));
        assert(qf_names(gs2[0]));
        lemma_roster_prefix(gs1[0], gs2[0], r1, r2);
        if gs1.len() == 1 && gs2.len() == 1 {
            assert forall|i: int| 0 <= i < t1.len() implies t1[i] == t2[i] by {
                assert(r1[1 + i] == t1[i]);
                assert(r2[1 + i] == t2[i]);
            }
            assert(t1 =~= t2);
            assert(gs1 =~= gs2);
        } else if gs1.len() == 1 {
            assert(r1[0] == ']');
            assert(r2[0] == ',');
            assert(false);
        } else if gs2.len() == 1 {
            assert(r1[0] == ',');
            assert(r2[0] == ']');
            assert(false);
        } else {
            assert(roster_all(gs1).skip(1) =~= roster_all(gs1.skip(1)));
            assert(roster_all(gs2).skip(1) =~= roster_all(gs2.skip(1)));
            assert(r1.skip(2) =~= joined(roster_all(gs1.skip(1))) + seq![']'] + t1);
            assert(r2.skip(2) =~= joined(roster_all(gs2.skip(1))) + seq![']'] + t2);
            assert(r1.skip(2) == r2.skip(2));
            assert(quote_free(gs1.skip(1))) by {
                assert(forall|i: int|
                    0 <= i < gs1.skip(1).len() ==> gs1.skip(1)[i] == gs1[i + 1]);
            }
            assert(quote_free(gs2.skip(1))) by {
                assert(forall|i: int|
                    0 <= i < gs2.skip(1).len() ==> gs2.skip(1)[i] == gs2[i + 1]);
            }
            lemma_groups_suffix(gs1.skip(1), gs2.skip(1), t1, t2);
            assert(gs1 =~= seq![gs1[0]] + gs1.skip(1));
            assert(gs2 =~= seq![gs2[0]] + gs2.skip(1));
            assert(gs1 =~= gs2);
        }
    }
}

/// The bracketed roster text is unambiguous: two quote-free roster
/// sequences with the same text are the same sequence.  Together with
/// the encoder's and the parser's contracts this closes the round trip:
/// whatever [`parse_rosters`] accepts of an encoding is exactly the
/// roster sequence that [`encode_rosters`] wrote.
pub proof fn lemma_rosters_text_injective(a: Seq<Seq<Seq<char>>>, b: Seq<Seq<Seq<char>>>)
    requires
        quote_free(a),
        quote_free(b),
        rosters_text(a) == rosters_text(b),
    ensures
        a == b,
{
    assert(rosters_text(a).skip(1) =~= joined(roster_all(a)) + seq![']'] + Seq::<char>::empty());
    assert(rosters_text(b).skip(1) =~= joined(roster_all(b)) + seq![']'] + Seq::<char>::empty());
    lemma_groups_suffix(a, b, Seq::<char>::empty(), Seq::<char>::empty());
}

} // verus!
