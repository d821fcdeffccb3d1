use vstd::prelude::*;
use crate::text::{chars_eq_str, chars_of, push_char, string_of, trim, trim_chars};

verus! {

/// The pieces of `s` between occurrences of `sep`, as `str::split` gives
/// them: always at least one piece, empty pieces included.
pub open spec fn split_on(s: Seq<char>, sep: char) -> Seq<Seq<char>>
    decreases s.len(),
{
    if s.len() == 0 {
        seq![Seq::<char>::empty()]
    } else {
        let p = split_on(s.drop_last(), sep);
        if s.last() == sep {
            p.push(Seq::<char>::empty())
        } else {
            p.update(p.len() - 1, p.last().push(s.last()))
        }
    }
}

pub proof fn lemma_split_on_nonempty(s: Seq<char>, sep: char)
    ensures
        split_on(s, sep).len() >= 1,
    decreases s.len(),
{
    if s.len() > 0 {
        lemma_split_on_nonempty(s.drop_last(), sep);
    }
}

/// A line with one carriage return at its end removed.
pub open spec fn strip_cr(l: Seq<char>) -> Seq<char> {
    if l.len() > 0 && l.last() == '\r' {
        l.drop_last()
    } else {
        l
    }
}

/// Each piece with its carriage return removed.
pub open spec fn strip_cr_all(parts: Seq<Seq<char>>) -> Seq<Seq<char>> {
    Seq::new(parts.len(), |i: int| strip_cr(parts[i]))
}

/// The lines of `s`, as `str::lines` gives them: split at `\n`, a `\r`
/// before the `\n` dropped, and no empty line after a final `\n`.
pub open spec fn text_lines(s: Seq<char>) -> Seq<Seq<char>> {
    let parts = split_on(s, '\n');
    let ended = strip_cr_all(parts.drop_last());
    if parts.last().len() == 0 {
        ended
    } else {
        ended.push(parts.last())
    }
}

/// The characters of each string.
pub open spec fn views(v: Seq<String>) -> Seq<Seq<char>> {
    Seq::new(v.len(), |i: int| v[i]@)
}

/// A section header: a line that starts with `[` and ends with `]`.
pub open spec fn bracketed(t: Seq<char>) -> bool {
    t.len() > 0 && t[0] == '[' && t.last() == ']'
}

/// `i` is the position of the first `=` in `t`.
pub open spec fn first_eq_at(t: Seq<char>, i: int) -> bool {
    &&& 0 <= i < t.len()
    &&& t[i] == '='
    &&& forall|j: int| 0 <= j < i ==> t[j] != '='
}

/// What one line of a desktop file does to the scanner: the state is whether
/// the scanner is inside the `[Desktop Entry]` group, and the key/value pairs
/// read so far, in order.
pub open spec fn scan_step(
    st: (bool, Seq<(Seq<char>, Seq<char>)>),
    raw: Seq<char>,
) -> (bool, Seq<(Seq<char>, Seq<char>)>) {
    let t = trim(raw);
    if t == "[Desktop Entry]"@ {
        (true, st.1)
    } else if bracketed(t) {
        (false, st.1)
    } else if !st.0 {
        st
    } else if exists|i: int| first_eq_at(t, i) {
        let i = choose|i: int| first_eq_at(t, i);
        (st.0, st.1.push((trim(t.subrange(0, i)), trim(t.subrange(i + 1, t.len() as int)))))
    } else {
        st
    }
}

/// The scanner's state after the lines `ls`.
pub open spec fn scan_lines(ls: Seq<Seq<char>>) -> (bool, Seq<(Seq<char>, Seq<char>)>)
    decreases ls.len(),
{
    if ls.len() == 0 {
        (false, Seq::empty())
    } else {
        scan_step(scan_lines(ls.drop_last()), ls.last())
    }
}

/// The key/value pairs of the `[Desktop Entry]` group of `content`, in the
/// order they appear.
pub open spec fn desktop_pairs(content: Seq<char>) -> Seq<(Seq<char>, Seq<char>)> {
    scan_lines(text_lines(content)).1
}

/// The value of `key`: that of its last occurrence, as a map that every pair
/// was inserted into would hold.
pub open spec fn field(pairs: Seq<(Seq<char>, Seq<char>)>, key: Seq<char>) -> Option<Seq<char>>
    decreases pairs.len(),
{
    if pairs.len() == 0 {
        None
    } else if pairs.last().0 == key {
        Some(pairs.last().1)
    } else {
        field(pairs.drop_last(), key)
    }
}

/// A boolean key is set when its value is `true` or `1`.
pub open spec fn flag(v: Option<Seq<char>>) -> bool {
    match v {
        Some(s) => s == "true"@ || s == "1"@,
        None => false,
    }
}

/// The pairs read so far, as plain character sequences.
pub open spec fn pairs_view(v: Seq<(Vec<char>, Vec<char>)>) -> Seq<(Seq<char>, Seq<char>)> {
    Seq::new(v.len(), |i: int| (v[i].0@, v[i].1@))
}

fn first_eq(t: &[char]) -> (r: Option<usize>)
    ensures
        match r {
            Some(i) => first_eq_at(t@, i as int),
            None => forall|j: int| 0 <= j < t@.len() ==> t@[j] != '=',
        },
{
    let mut i: usize = 0;
    while i < t.len()
        invariant
            i <= t@.len(),
            forall|j: int| 0 <= j < i ==> t@[j] != '=',
        decreases t.len() - i,
    {
        if t[i] == '=' {
            return Some(i);
        }
        i += 1;
    }
    None
}

fn sub_chars(t: &[char], from: usize, to: usize) -> (r: Vec<char>)
    requires
        from <= to <= t@.len(),
    ensures
        r@ == t@.subrange(from as int, to as int),
{
    let mut r: Vec<char> = Vec::new();
    let mut k: usize = from;
    while k < to
        invariant
            from <= k <= to <= t@.len(),
            r@ == t@.subrange(from as int, k as int),
        decreases to - k,
    {
        r.push(t[k]);
        k += 1;
        assert(r@ =~= t@.subrange(from as int, k as int));
    }
    r
}

/// Applies one line to the scanner state.
fn scan_line(in_entry: &mut bool, pairs: &mut Vec<(Vec<char>, Vec<char>)>, raw: &[char])
    ensures
        (*final(in_entry), pairs_view(final(pairs)@)) == scan_step((*old(in_entry), pairs_view(old(pairs)@)), raw@),
{
    let ghost st = (*in_entry, pairs_view(pairs@));
    let t = trim_chars(raw);
    let n = t.len();
    if chars_eq_str(t.as_slice(), "[Desktop Entry]") {
        *in_entry = true;
        return;
    }
    if n > 0 && t[0] == '[' && t[n - 1] == ']' {
        *in_entry = false;
        return;
    }
    if !*in_entry {
        return;
    }
    match first_eq(t.as_slice()) {
        Some(i) => {
            proof {
                let c = choose|j: int| first_eq_at(t@, j);
                assert(first_eq_at(t@, i as int));
                assert(c == i as int) by {
                    if c < i as int {
                        assert(t@[c] == '=');
                    }
                    if c > i as int {
                        assert(t@[i as int] == '=');
                    }
                }
            }
            let key_raw = sub_chars(t.as_slice(), 0, i);
            let value_raw = sub_chars(t.as_slice(), i + 1, n);
            let key = trim_chars(key_raw.as_slice());
            let value = trim_chars(value_raw.as_slice());
            let ghost kv = (key@, value@);
            pairs.push((key, value));
            assert(pairs_view(pairs@) =~= st.1.push(kv));
        },
        None => {
            assert(!exists|j: int| first_eq_at(t@, j));
        },
    }
}

/// The key/value pairs of the `[Desktop Entry]` group of `content`.
pub fn scan_desktop_pairs(content: &str) -> (r: Vec<(Vec<char>, Vec<char>)>)
    ensures
        pairs_view(r@) == desktop_pairs(content@),
{
    let s = chars_of(content);
    let n = s.len();
    let mut in_entry = false;
    let mut pairs: Vec<(Vec<char>, Vec<char>)> = Vec::new();
    let mut cur: Vec<char> = Vec::new();
    let ghost mut done: Seq<Seq<char>> = Seq::empty();
    assert(s@.subrange(0, 0) =~= Seq::<char>::empty());
    assert(pairs_view(pairs@) =~= Seq::<(Seq<char>, Seq<char>)>::empty());
    assert(strip_cr_all(done) =~= Seq::<Seq<char>>::empty());
    let mut i: usize = 0;
    while i < n
        invariant
            n == s@.len(),
            s@ == content@,
            i <= n,
            split_on(s@.subrange(0, i as int), '\n') == done.push(cur@),
            (in_entry, pairs_view(pairs@)) == scan_lines(strip_cr_all(done)),
        decreases n - i,
    {
        let c = s[i];
        let ghost prefix = s@.subrange(0, i as int);
        assert(s@.subrange(0, i + 1).drop_last() =~= prefix);
        if c == '\n' {
            let mut line = cur;
            if line.len() > 0 && line[line.len() - 1] == '\r' {
                line.pop();
            }
            assert(line@ == strip_cr(cur@));
            scan_line(&mut in_entry, &mut pairs, line.as_slice());
            proof {
                let old_done = done;
                done = done.push(cur@);
                assert(strip_cr_all(done).drop_last() =~= strip_cr_all(old_done));
                assert(strip_cr_all(done).last() == strip_cr(cur@));
            }
            cur = Vec::new();
            assert(split_on(s@.subrange(0, i + 1), '\n') =~= done.push(cur@));
        } else {
            let ghost before = cur@;
            cur.push(c);
            assert(split_on(s@.subrange(0, i + 1), '\n') =~= done.push(cur@)) by {
                let p = split_on(prefix, '\n');
                assert(p =~= done.push(before));
                assert(p.update(p.len() - 1, p.last().push(c)) =~= done.push(cur@));
            }
        }
        i += 1;
    }
    assert(s@.subrange(0, n as int) =~= s@);
    proof {
        let parts = split_on(s@, '\n');
        assert(parts.drop_last() =~= done);
        assert(parts.last() == cur@);
    }
    if cur.len() > 0 {
        scan_line(&mut in_entry, &mut pairs, cur.as_slice());
        proof {
            let ls = strip_cr_all(done).push(cur@);
            assert(ls.drop_last() =~= strip_cr_all(done));
        }
    }
    pairs
}

/// The value of `key` among `pairs`, looked up from the last pair back.
pub fn field_value<'a>(pairs: &'a Vec<(Vec<char>, Vec<char>)>, key: &str) -> (r: Option<&'a Vec<char>>)
    ensures
        match r {
            Some(v) => field(pairs_view(pairs@), key@) == Some(v@),
            None => field(pairs_view(pairs@), key@) is None,
        },
{
    let ghost all = pairs_view(pairs@);
    let mut i: usize = pairs.len();
    assert(all.subrange(0, i as int) =~= all);
    while i > 0
        invariant
            i <= pairs@.len(),
            all == pairs_view(pairs@),
            field(all, key@) == field(all.subrange(0, i as int), key@),
        decreases i,
    {
        let ghost sub = all.subrange(0, i as int);
        assert(sub.drop_last() =~= all.subrange(0, i - 1));
        assert(sub.last() == (pairs@[i - 1].0@, pairs@[i - 1].1@));
        if chars_eq_str(pairs[i - 1].0.as_slice(), key) {
            return Some(&pairs[i - 1].1);
        }
        i -= 1;
    }
    None
}

/// Whether a boolean key is set: its value is `true` or `1`.
pub fn field_flag(pairs: &Vec<(Vec<char>, Vec<char>)>, key: &str) -> (b: bool)
    ensures
        b == flag(field(pairs_view(pairs@), key@)),
{
    match field_value(pairs, key) {
        Some(v) => chars_eq_str(v.as_slice(), "true") || chars_eq_str(v.as_slice(), "1"),
        None => false,
    }
}

/// The pieces of `s` between `sep` separators, as strings.
pub fn split_by(s: &[char], sep: char) -> (r: Vec<String>)
    ensures
        views(r@) == split_on(s@, sep),
{
    let mut r: Vec<String> = Vec::new();
    let mut cur: Vec<char> = Vec::new();
    let mut i: usize = 0;
    assert(s@.subrange(0, 0) =~= Seq::<char>::empty());
    assert(views(r@).push(cur@) =~= seq![Seq::<char>::empty()]);
    while i < s.len()
        invariant
            i <= s@.len(),
            split_on(s@.subrange(0, i as int), sep) == views(r@).push(cur@),
        decreases s.len() - i,
    {
        let c = s[i];
        let ghost prefix = s@.subrange(0, i as int);
        assert(s@.subrange(0, i + 1).drop_last() =~= prefix);
        if c == sep {
            let piece = string_of(cur.as_slice());
            r.push(piece);
            cur = Vec::new();
            assert(split_on(s@.subrange(0, i + 1), sep) =~= views(r@).push(cur@));
        } else {
            let ghost before = cur@;
            cur.push(c);
            assert(split_on(s@.subrange(0, i + 1), sep) =~= views(r@).push(cur@)) by {
                let p = split_on(prefix, sep);
                assert(p.update(p.len() - 1, p.last().push(c)) =~= views(r@).push(cur@));
            }
        }
        i += 1;
    }
    assert(s@.subrange(0, s@.len() as int) =~= s@);
    let last = string_of(cur.as_slice());
    r.push(last);
    assert(views(r@) =~= split_on(s@, sep));
    r
}

/// The pieces of `s` between `;` separators, as strings.
pub fn split_list(s: &[char]) -> (r: Vec<String>)
    ensures
        views(r@) == split_on(s@, ';'),
{
    split_by(s, ';')
}

/// The value of `key` as a string, when the key is present.
pub fn field_string(pairs: &Vec<(Vec<char>, Vec<char>)>, key: &str) -> (r: Option<String>)
    ensures
        match r {
            Some(v) => field(pairs_view(pairs@), key@) == Some(v@),
            None => field(pairs_view(pairs@), key@) is None,
        },
{
    match field_value(pairs, key) {
        Some(v) => Some(string_of(v.as_slice())),
        None => None,
    }
}

} // verus!
