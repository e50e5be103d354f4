//! Comparison utility for extraction results: sorts the file paths
//! collected from a destination tree, so two trees can be compared by
//! their ordered path lists. Walking a tree happens outside the library;
//! the paths come in as plain strings.

use vstd::prelude::*;
use vstd::multiset::Multiset;
use vstd::seq_lib::{to_multiset_contains, to_multiset_insert, to_multiset_len, to_multiset_remove};

verus! {

/// Lexicographic order on character sequences, by code point.
pub open spec fn lex_le(a: Seq<char>, b: Seq<char>) -> bool
    decreases a.len(),
{
    if a.len() == 0 {
        true
    } else if b.len() == 0 {
        false
    } else if (a[0] as u32) < (b[0] as u32) {
        true
    } else if (b[0] as u32) < (a[0] as u32) {
        false
    } else {
        lex_le(a.drop_first(), b.drop_first())
    }
}

/// The lexicographic order is total.
pub proof fn lemma_lex_le_total(a: Seq<char>, b: Seq<char>)
    ensures
        lex_le(a, b) || lex_le(b, a),
    decreases a.len(),
{
    if a.len() == 0 || b.len() == 0 {
    } else if (a[0] as u32) < (b[0] as u32) || (b[0] as u32) < (a[0] as u32) {
    } else {
        lemma_lex_le_total(a.drop_first(), b.drop_first());
    }
}

/// The lexicographic order is transitive.
pub proof fn lemma_lex_le_trans(a: Seq<char>, b: Seq<char>, c: Seq<char>)
    requires
        lex_le(a, b),
        lex_le(b, c),
    ensures
        lex_le(a, c),
    decreases a.len(),
{
    if a.len() == 0 {
    } else if b.len() == 0 {
    } else if c.len() == 0 {
    } else {
        if (a[0] as u32) < (b[0] as u32) {
        } else if (b[0] as u32) < (c[0] as u32) {
        } else {
            lemma_lex_le_trans(a.drop_first(), b.drop_first(), c.drop_first());
        }
    }
}

/// The paths of `s` are in lexicographic order.
pub open spec fn sorted_lex(s: Seq<Seq<char>>) -> bool {
    forall|i: int, j: int| 0 <= i < j < s.len() ==> lex_le(#[trigger] s[i], #[trigger] s[j])
}

/// Whether `a` precedes `b` in lexicographic order, or equals it.
fn str_le(a: &str, b: &str) -> (r: bool)
    ensures
        r == lex_le(a@, b@),
{
    let alen = a.unicode_len();
    let blen = b.unicode_len();
    let mut i: usize = 0;
    proof {
        assert(a@.skip(0) =~= a@);
        assert(b@.skip(0) =~= b@);
    }
    while i < alen && i < blen
        invariant
            i <= alen,
            i <= blen,
            alen == a@.len(),
            blen == b@.len(),
            lex_le(a@, b@) == lex_le(a@.skip(i as int), b@.skip(i as int)),
        decreases alen - i,
    {
        let ca = a.get_char(i) as u32;
        let cb = b.get_char(i) as u32;
        let ghost sa = a@.skip(i as int);
        let ghost sb = b@.skip(i as int);
        proof {
            assert(sa[0] == a@[i as int]);
            assert(sb[0] == b@[i as int]);
            assert(sa.drop_first() =~= a@.skip(i as int + 1));
            assert(sb.drop_first() =~= b@.skip(i as int + 1));
        }
        if ca < cb {
            return true;
        }
        if cb < ca {
            return false;
        }
        i = i + 1;
    }
    proof {
        if i >= alen {
            assert(a@.skip(i as int).len() == 0);
        } else {
            assert(b@.skip(i as int).len() == 0);
            assert(a@.skip(i as int).len() > 0);
        }
    }
    i >= alen
}

/// Sorts the collected file paths of a destination tree: the result is in
/// lexicographic order and holds exactly the given paths.
pub fn find_and_sort(paths: Vec<String>) -> (r: Vec<String>)
    ensures
        sorted_lex(r.deep_view()),
        r.deep_view().to_multiset() == paths.deep_view().to_multiset(),
{
    broadcast use vstd::multiset::group_multiset_axioms;
    broadcast use to_multiset_len;

    let ghost goal = paths.deep_view().to_multiset();
    let mut rest = paths;
    let mut out: Vec<String> = Vec::new();
    proof {
        assert(out.deep_view() =~= Seq::<Seq<char>>::empty());
        assert(out.deep_view().to_multiset().len() == 0);
        assert(out.deep_view().to_multiset() =~= Multiset::<Seq<char>>::empty());
        assert(out.deep_view().to_multiset().add(rest.deep_view().to_multiset()) =~= goal);
    }
    while rest.len() > 0
        invariant
            sorted_lex(out.deep_view()),
            out.deep_view().to_multiset().add(rest.deep_view().to_multiset()) == goal,
        decreases rest.len(),
    {
        let ghost rest_prev = rest.deep_view();
        let x = match rest.pop() {
            Some(x) => x,
            None => {
                return out;
            },
        };
        proof {
            assert(rest.deep_view() =~= rest_prev.remove(rest_prev.len() - 1));
            assert(x@ == rest_prev[rest_prev.len() - 1]);
            to_multiset_remove(rest_prev, rest_prev.len() - 1);
        }
        let mut k: usize = 0;
        while k < out.len() && str_le(out[k].as_str(), x.as_str())
            invariant
                k <= out.len(),
                sorted_lex(out.deep_view()),
                forall|j: int| 0 <= j < k ==> lex_le(#[trigger] out.deep_view()[j], x@),
            decreases out.len() - k,
        {
            k = k + 1;
        }
        proof {
            if k < out.deep_view().len() {
                lemma_lex_le_total(out.deep_view()[k as int], x@);
            }
        }
        let ghost out_prev = out.deep_view();
        out.insert(k, x);
        proof {
            assert(out.deep_view() =~= out_prev.insert(k as int, x@));
            to_multiset_insert(out_prev, k as int, x@);
            assert forall|i: int, j: int|
                0 <= i < j < out.deep_view().len() implies lex_le(
                #[trigger] out.deep_view()[i],
                #[trigger] out.deep_view()[j],
            ) by {
                let dv = out.deep_view();
                if j < k {
                    assert(dv[i] == out_prev[i] && dv[j] == out_prev[j]);
                } else if i > k {
                    assert(dv[i] == out_prev[i - 1] && dv[j] == out_prev[j - 1]);
                } else if i < k && j == k {
                    assert(dv[i] == out_prev[i] && dv[j] == x@);
                } else if i == k && j > k {
                    assert(dv[i] == x@ && dv[j] == out_prev[j - 1]);
                    if k < out_prev.len() && j - 1 > k {
                        lemma_lex_le_trans(x@, out_prev[k as int], out_prev[j - 1]);
                    }
                } else if i < k && j > k {
                    assert(dv[i] == out_prev[i] && dv[j] == out_prev[j - 1]);
                }
            }
            assert(rest_prev.contains(x@));
            to_multiset_contains(rest_prev, x@);
            assert(out.deep_view().to_multiset().add(rest.deep_view().to_multiset()) =~= goal);
        }
    }
    proof {
        assert(rest.deep_view() =~= Seq::<Seq<char>>::empty());
        assert(rest.deep_view().to_multiset().len() == 0);
        assert(rest.deep_view().to_multiset() =~= Multiset::<Seq<char>>::empty());
        assert(out.deep_view().to_multiset().add(Multiset::<Seq<char>>::empty())
            =~= out.deep_view().to_multiset());
    }
    out
}

} // verus!
