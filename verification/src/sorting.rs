use vstd::prelude::*;
use crate::text::chars_of;

verus! {

broadcast use vstd::seq_lib::group_to_multiset_ensures;

/// Lexicographic order on character sequences, by code point: the order of
/// their UTF-8 bytes.
pub open spec fn lex_le(a: Seq<char>, b: Seq<char>) -> bool
    decreases a.len(),
{
    if a.len() == 0 {
        true
    } else if b.len() == 0 {
        false
    } else if a[0] != b[0] {
        a[0] < b[0]
    } else {
        lex_le(a.drop_first(), b.drop_first())
    }
}

pub proof fn lemma_lex_total(a: Seq<char>, b: Seq<char>)
    ensures
        lex_le(a, b) || lex_le(b, a),
    decreases a.len(),
{
    if a.len() > 0 && b.len() > 0 && a[0] == b[0] {
        lemma_lex_total(a.drop_first(), b.drop_first());
    }
}

pub proof fn lemma_lex_trans(a: Seq<char>, b: Seq<char>, c: Seq<char>)
    requires
        lex_le(a, b),
        lex_le(b, c),
    ensures
        lex_le(a, c),
    decreases a.len(),
{
    if a.len() > 0 && b.len() > 0 && c.len() > 0 && a[0] == b[0] && b[0] == c[0] {
        lemma_lex_trans(a.drop_first(), b.drop_first(), c.drop_first());
    }
}

/// The characters of each string.
pub open spec fn string_views(v: Seq<String>) -> Seq<Seq<char>> {
    Seq::new(v.len(), |i: int| v[i]@)
}

/// Every earlier element is at most every later one.
pub open spec fn lex_sorted(s: Seq<Seq<char>>) -> bool {
    forall|i: int, j: int| 0 <= i < j < s.len() ==> lex_le(#[trigger] s[i], #[trigger] s[j])
}

fn lex_le_exec(a: &[char], b: &[char]) -> (r: bool)
    ensures
        r == lex_le(a@, b@),
{
    let mut i: usize = 0;
    assert(a@.subrange(0, a@.len() as int) =~= a@);
    assert(b@.subrange(0, b@.len() as int) =~= b@);
    while i < a.len() && i < b.len() && a[i] == b[i]
        invariant
            i <= a@.len(),
            i <= b@.len(),
            lex_le(a@, b@) == lex_le(a@.subrange(i as int, a@.len() as int), b@.subrange(i as int, b@.len() as int)),
        decreases a.len() - i,
    {
        let ghost sa = a@.subrange(i as int, a@.len() as int);
        let ghost sb = b@.subrange(i as int, b@.len() as int);
        assert(sa.drop_first() =~= a@.subrange(i + 1, a@.len() as int));
        assert(sb.drop_first() =~= b@.subrange(i + 1, b@.len() as int));
        i += 1;
    }
    if i == a.len() {
        true
    } else if i == b.len() {
        false
    } else {
        a[i] < b[i]
    }
}

/// `v` sorted in lexicographic order of the strings' characters: a sorted
/// rearrangement of the same strings.
pub fn sort_strings(v: Vec<String>) -> (r: Vec<String>)
    ensures
        lex_sorted(string_views(r@)),
        string_views(r@).to_multiset() == string_views(v@).to_multiset(),
        r@.len() == v@.len(),
{
    let mut out: Vec<String> = Vec::new();
    let mut keys: Vec<Vec<char>> = Vec::new();
    let mut i: usize = 0;
    assert(string_views(out@) =~= string_views(v@).subrange(0, 0));
    while i < v.len()
        invariant
            i <= v@.len(),
            out@.len() == i,
            keys@.len() == out@.len(),
            forall|k: int| 0 <= k < keys@.len() ==> #[trigger] keys@[k]@ == out@[k]@,
            lex_sorted(string_views(out@)),
            string_views(out@).to_multiset() == string_views(v@).subrange(0, i as int).to_multiset(),
        decreases v.len() - i,
    {
        let x = v[i].clone();
        let kx = chars_of(x.as_str());
        let mut p: usize = 0;
        while p < out.len() && lex_le_exec(keys[p].as_slice(), kx.as_slice())
            invariant
                p <= out@.len(),
                keys@.len() == out@.len(),
                forall|k: int| 0 <= k < keys@.len() ==> #[trigger] keys@[k]@ == out@[k]@,
                kx@ == x@,
                forall|k: int| 0 <= k < p ==> lex_le(#[trigger] out@[k]@, x@),
            decreases out.len() - p,
        {
            p += 1;
        }
        let ghost before = string_views(out@);
        proof {
            if p < out@.len() {
                lemma_lex_total(out@[p as int]@, x@);
            }
        }
        out.insert(p, x);
        keys.insert(p, kx);
        assert(string_views(out@) =~= before.insert(p as int, x@));
        proof {
            let s = string_views(out@);
            assert forall|a: int, b: int| 0 <= a < b < s.len() implies lex_le(#[trigger] s[a], #[trigger] s[b]) by {
                if a < p && b == p {
                } else if a == p && b > p {
                    if b - 1 > p as int {
                        lemma_lex_trans(x@, before[p as int], before[b - 1]);
                    }
                } else if a < p && b > p {
                } else if a > p {
                    assert(before[a - 1] == s[a]);
                }
            }
            assert(string_views(v@).subrange(0, i + 1) =~= string_views(v@).subrange(0, i as int).push(x@));
        }
        assert forall|k: int| 0 <= k < keys@.len() implies #[trigger] keys@[k]@ == out@[k]@ by {
            if k < p {
            } else if k == p {
            }
        }
        i += 1;
    }
    assert(string_views(v@).subrange(0, v@.len() as int) =~= string_views(v@));
    out
}

} // verus!
