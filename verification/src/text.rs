//! Verified text utilities for the line-oriented protocol: whitespace
//! tokenization, prefix tests, substring search, and space-joined output.

use vstd::prelude::*;
use vstd::string::*;

verus! {

/// ASCII whitespace: the token separators of the protocol.
pub open spec fn is_space(c: char) -> bool {
    c == ' ' || c == '\t' || c == '\n' || c == '\r' || c == '\u{c}'
}

pub fn is_space_char(c: char) -> (r: bool)
    ensures
        r == is_space(c),
{
    c == ' ' || c == '\t' || c == '\n' || c == '\r' || c == '\u{c}'
}

/// The tokens of `s` after the already accumulated partial token `cur`.
pub open spec fn tokens_from(s: Seq<char>, cur: Seq<char>) -> Seq<Seq<char>>
    decreases s.len(),
{
    if s.len() == 0 {
        if cur.len() == 0 {
            Seq::empty()
        } else {
            seq![cur]
        }
    } else if is_space(s[0]) {
        if cur.len() == 0 {
            tokens_from(s.skip(1), Seq::empty())
        } else {
            seq![cur] + tokens_from(s.skip(1), Seq::empty())
        }
    } else {
        tokens_from(s.skip(1), cur.push(s[0]))
    }
}

/// The whitespace-separated tokens of `s`, in order, each nonempty.
pub open spec fn tokens_of(s: Seq<char>) -> Seq<Seq<char>> {
    tokens_from(s, Seq::empty())
}

pub fn tokenize(s: &str) -> (r: Vec<String>)
    ensures
        r.deep_view() == tokens_of(s@),
{
    let n = s.unicode_len();
    let mut out: Vec<String> = Vec::new();
    let mut start: usize = 0;
    let mut in_tok: bool = false;
    let mut i: usize = 0;
    proof {
        assert(s@.skip(0) =~= s@);
        assert(out.deep_view() + tokens_from(s@, Seq::<char>::empty()) =~= tokens_from(
            s@,
            Seq::<char>::empty(),
        ));
    }
    while i < n
        invariant
            n == s@.len(),
            i <= n,
            in_tok ==> start < i,
            tokens_of(s@) == out.deep_view() + tokens_from(
                s@.skip(i as int),
                if in_tok {
                    s@.subrange(start as int, i as int)
                } else {
                    Seq::<char>::empty()
                },
            ),
        decreases n - i,
    {
        let c = s.get_char(i);
        proof {
            assert(s@.skip(i as int)[0] == s@[i as int]);
            assert(s@.skip(i as int).skip(1) =~= s@.skip(i as int + 1));
        }
        if is_space_char(c) {
            if in_tok {
                let tok = s.substring_char(start, i);
                let towned = tok.to_owned();
                proof {
                    assert(out.deep_view().push(towned@) =~= out.deep_view() + seq![
                        s@.subrange(start as int, i as int),
                    ]);
                }
                out.push(towned);
                in_tok = false;
            }
        } else {
            if !in_tok {
                start = i;
                in_tok = true;
            }
            proof {
                if start < i {
                    assert(s@.subrange(start as int, i as int).push(s@[i as int]) =~= s@.subrange(
                        start as int,
                        i as int + 1,
                    ));
                } else {
                    assert(Seq::<char>::empty().push(s@[i as int]) =~= s@.subrange(
                        i as int,
                        i as int + 1,
                    ));
                }
            }
        }
        i += 1;
    }
    proof {
        assert(s@.skip(n as int) =~= Seq::<char>::empty());
    }
    if in_tok {
        let tok = s.substring_char(start, n);
        let towned = tok.to_owned();
        proof {
            assert(out.deep_view().push(towned@) =~= out.deep_view() + seq![
                s@.subrange(start as int, n as int),
            ]);
        }
        out.push(towned);
    } else {
        proof {
            assert(out.deep_view() + Seq::<Seq<char>>::empty() =~= out.deep_view());
        }
    }
    out
}

pub fn eq_str(a: &str, b: &str) -> (r: bool)
    ensures
        r == (a@ == b@),
{
    let na = a.unicode_len();
    let nb = b.unicode_len();
    if na != nb {
        return false;
    }
    let mut i: usize = 0;
    while i < na
        invariant
            na == a@.len(),
            na == b@.len(),
            i <= na,
            forall|j: int| 0 <= j < i ==> a@[j] == b@[j],
        decreases na - i,
    {
        if a.get_char(i) != b.get_char(i) {
            return false;
        }
        i += 1;
    }
    proof {
        assert(a@ =~= b@);
    }
    true
}

/// `p` stands at the front of `s`.
pub open spec fn is_prefix(s: Seq<char>, p: Seq<char>) -> bool {
    p.len() <= s.len() && s.take(p.len() as int) == p
}

pub fn has_prefix(s: &str, p: &str) -> (r: bool)
    ensures
        r == is_prefix(s@, p@),
{
    let n = s.unicode_len();
    let m = p.unicode_len();
    if m > n {
        return false;
    }
    let mut i: usize = 0;
    while i < m
        invariant
            n == s@.len(),
            m == p@.len(),
            m <= n,
            i <= m,
            forall|j: int| 0 <= j < i ==> s@[j] == p@[j],
        decreases m - i,
    {
        if s.get_char(i) != p.get_char(i) {
            proof {
                assert(s@.take(m as int)[i as int] != p@[i as int]);
            }
            return false;
        }
        i += 1;
    }
    proof {
        assert(s@.take(m as int) =~= p@);
    }
    true
}

/// The first position at or after `j` where `p` occurs inside `s`.
pub open spec fn find_sub_from(s: Seq<char>, p: Seq<char>, j: int) -> Option<int>
    decreases s.len() - j + 1,
{
    if j < 0 || j + p.len() > s.len() {
        None
    } else if s.subrange(j, j + p.len() as int) == p {
        Some(j)
    } else {
        find_sub_from(s, p, j + 1)
    }
}

pub proof fn lemma_find_sub_in_range(s: Seq<char>, p: Seq<char>, j: int)
    ensures
        match find_sub_from(s, p, j) {
            Some(i) => j <= i && i + p.len() <= s.len() && s.subrange(i, i + p.len() as int) == p,
            None => true,
        },
    decreases s.len() - j + 1,
{
    if !(j < 0 || j + p.len() > s.len()) && s.subrange(j, j + p.len() as int) != p {
        lemma_find_sub_in_range(s, p, j + 1);
    }
}

pub open spec fn opt_idx(o: Option<usize>) -> Option<int> {
    match o {
        Some(i) => Some(i as int),
        None => None,
    }
}

pub fn find_sub(s: &str, p: &str) -> (r: Option<usize>)
    ensures
        opt_idx(r) == find_sub_from(s@, p@, 0),
{
    let n = s.unicode_len();
    let m = p.unicode_len();
    if m > n {
        return None;
    }
    let last = n - m;
    let mut j: usize = 0;
    while j <= last
        invariant
            n == s@.len(),
            m == p@.len(),
            m <= n,
            last == n - m,
            find_sub_from(s@, p@, 0) == find_sub_from(s@, p@, j as int),
        decreases last + 1 - j,
    {
        let mut k: usize = 0;
        let mut ok: bool = true;
        while k < m
            invariant
                n == s@.len(),
                m == p@.len(),
                j + m <= n,
                k <= m,
                ok ==> forall|t: int| 0 <= t < k ==> s@[j + t] == p@[t],
                !ok ==> s@.subrange(j as int, j + m) != p@,
            decreases m - k,
        {
            if s.get_char(j + k) != p.get_char(k) {
                proof {
                    assert(s@.subrange(j as int, j + m)[k as int] == s@[j + k]);
                }
                ok = false;
                k = m;
            } else {
                k += 1;
            }
        }
        if ok {
            proof {
                assert(s@.subrange(j as int, j + m) =~= p@);
            }
            return Some(j);
        }
        if j == last {
            proof {
                assert(find_sub_from(s@, p@, last + 1) is None);
                assert(find_sub_from(s@, p@, last as int) is None);
            }
            return None;
        }
        j += 1;
    }
    None
}

/// The space-joined rendering of a token sequence.
pub open spec fn join_spaces(ps: Seq<Seq<char>>) -> Seq<char>
    decreases ps.len(),
{
    if ps.len() == 0 {
        Seq::empty()
    } else if ps.len() == 1 {
        ps[0]
    } else {
        join_spaces(ps.drop_last()) + seq![' '] + ps.last()
    }
}

/// Joins the first `k` tokens with single spaces.
pub fn join_prefix(ps: &Vec<String>, k: usize) -> (r: String)
    requires
        k <= ps@.len(),
    ensures
        r@ == join_spaces(ps.deep_view().take(k as int)),
{
    let mut out = String::new();
    let mut i: usize = 0;
    while i < k
        invariant
            k <= ps@.len(),
            i <= k,
            out@ == join_spaces(ps.deep_view().take(i as int)),
        decreases k - i,
    {
        if i > 0 {
            out.append(" ");
            proof {
                reveal_strlit(" ");
                assert(" "@ =~= seq![' ']);
            }
        }
        out.append(ps[i].as_str());
        proof {
            let pre = ps.deep_view().take(i as int + 1);
            assert(pre.drop_last() =~= ps.deep_view().take(i as int));
            assert(pre.last() == ps.deep_view()[i as int]);
            if i == 0 {
                assert(out@ =~= pre[0]);
            }
        }
        i += 1;
    }
    out
}

/// The fingerprint of a position description: its first four fields, or the
/// whole text when it has fewer.
pub open spec fn trim_fen_of(s: Seq<char>) -> Seq<char> {
    let ps = tokens_of(s);
    if ps.len() >= 4 {
        join_spaces(ps.take(4))
    } else {
        s
    }
}

pub fn trim_fen(fen: &str) -> (r: String)
    ensures
        r@ == trim_fen_of(fen@),
{
    let parts = tokenize(fen);
    if parts.len() >= 4 {
        join_prefix(&parts, 4)
    } else {
        fen.to_owned()
    }
}

/// The output file name for a given transcript base name.
pub fn output_name(base: &str, compress: bool) -> (r: String)
    ensures
        compress ==> r@ == base@ + ".zst"@,
        !compress ==> r@ == base@ + ".json"@,
{
    let mut s = base.to_owned();
    if compress {
        s.append(".zst");
    } else {
        s.append(".json");
    }
    s
}

} // verus!
