//! Character-sequence algorithms shared by the renderer and the pager:
//! newline stripping, whitespace trimming, substring search and counting,
//! substring replacement, repetition, and splitting into lines.

use vstd::prelude::*;
use vstd::string::StrSliceExecFns;

verus! {

// ---------------------------------------------------------------------------
// Specifications
// ---------------------------------------------------------------------------

/// The text with every newline character removed.
pub open spec fn strip_nl(s: Seq<char>) -> Seq<char>
    decreases s.len(),
{
    if s.len() == 0 {
        s
    } else if s[0] == '\n' {
        strip_nl(s.drop_first())
    } else {
        seq![s[0]] + strip_nl(s.drop_first())
    }
}

/// `pat` occurs in `s` starting at position `i`.
pub open spec fn occurs_at(s: Seq<char>, pat: Seq<char>, i: int) -> bool {
    0 <= i && i + pat.len() <= s.len() && s.subrange(i, i + pat.len()) == pat
}

/// `pat` occurs somewhere in `s`.
pub open spec fn contains_sub(s: Seq<char>, pat: Seq<char>) -> bool {
    exists|i: int| occurs_at(s, pat, i)
}

/// The number of non-overlapping occurrences of `pat` in `s`, counted left
/// to right, as `str::matches` counts them.
pub open spec fn count_occ(s: Seq<char>, pat: Seq<char>) -> nat
    decreases s.len(),
{
    if pat.len() == 0 || s.len() < pat.len() {
        0
    } else if s.take(pat.len() as int) == pat {
        1 + count_occ(s.skip(pat.len() as int), pat)
    } else {
        count_occ(s.drop_first(), pat)
    }
}

/// `s` with every non-overlapping occurrence of `pat` replaced by `rep`,
/// scanning left to right, as `str::replace` does.
pub open spec fn replaced(s: Seq<char>, pat: Seq<char>, rep: Seq<char>) -> Seq<char>
    decreases s.len(),
{
    if pat.len() == 0 || s.len() < pat.len() {
        s
    } else if s.take(pat.len() as int) == pat {
        rep + replaced(s.skip(pat.len() as int), pat, rep)
    } else {
        seq![s[0]] + replaced(s.drop_first(), pat, rep)
    }
}

/// `s` repeated `n` times.
pub open spec fn repeat_seq(s: Seq<char>, n: nat) -> Seq<char>
    decreases n,
{
    if n == 0 {
        Seq::<char>::empty()
    } else {
        s + repeat_seq(s, (n - 1) as nat)
    }
}

/// The whitespace characters that trimming removes at either end.
pub open spec fn is_ws(c: char) -> bool {
    c == ' ' || c == '\t' || c == '\n' || c == '\r' || c == '\u{b}' || c == '\u{c}'
}

/// `s` without its leading whitespace.
pub open spec fn trim_start(s: Seq<char>) -> Seq<char>
    decreases s.len(),
{
    if s.len() == 0 {
        s
    } else if is_ws(s[0]) {
        trim_start(s.drop_first())
    } else {
        s
    }
}

/// `s` without its trailing whitespace.
pub open spec fn trim_end(s: Seq<char>) -> Seq<char>
    decreases s.len(),
{
    if s.len() == 0 {
        s
    } else if is_ws(s.last()) {
        trim_end(s.drop_last())
    } else {
        s
    }
}

/// `s` without leading and trailing whitespace.
pub open spec fn trimmed(s: Seq<char>) -> Seq<char> {
    trim_end(trim_start(s))
}

/// The lines of `s`, split on `'\n'`; there is always at least one line,
/// and a trailing newline yields a final empty line, as `str::split` does.
pub open spec fn split_nl(s: Seq<char>) -> Seq<Seq<char>>
    decreases s.len(),
{
    if s.len() == 0 {
        seq![Seq::<char>::empty()]
    } else if s[0] == '\n' {
        seq![Seq::<char>::empty()] + split_nl(s.drop_first())
    } else {
        let rest = split_nl(s.drop_first());
        seq![seq![s[0]] + rest[0]] + rest.drop_first()
    }
}

/// The lines joined with a single `'\n'` between consecutive lines.
pub open spec fn join_lines(ls: Seq<Seq<char>>) -> Seq<char>
    decreases ls.len(),
{
    if ls.len() == 0 {
        Seq::<char>::empty()
    } else if ls.len() == 1 {
        ls[0]
    } else {
        ls[0] + seq!['\n'] + join_lines(ls.drop_first())
    }
}

// ---------------------------------------------------------------------------
// Lemmas
// ---------------------------------------------------------------------------

/// Stepping a suffix forward by one position.
pub proof fn lemma_skip_succ<A>(s: Seq<A>, i: int)
    requires
        0 <= i < s.len(),
    ensures
        s.skip(i).len() == s.len() - i,
        s.skip(i)[0] == s[i],
        s.skip(i).drop_first() == s.skip(i + 1),
{
    assert(s.skip(i).drop_first() =~= s.skip(i + 1));
}

/// Splitting a suffix after its first `m` elements.
pub proof fn lemma_skip_parts(s: Seq<char>, i: int, m: int)
    requires
        0 <= i,
        0 <= m,
        i + m <= s.len(),
    ensures
        s.skip(i).len() == s.len() - i,
        s.skip(i).take(m) == s.subrange(i, i + m),
        s.skip(i).skip(m) == s.skip(i + m),
{
    assert(s.skip(i).take(m) =~= s.subrange(i, i + m));
    assert(s.skip(i).skip(m) =~= s.skip(i + m));
}

/// The stripped text holds no newline.
pub proof fn lemma_strip_nl_no_newline(s: Seq<char>)
    ensures
        forall|i: int| 0 <= i < strip_nl(s).len() ==> strip_nl(s)[i] != '\n',
    decreases s.len(),
{
    if s.len() == 0 {
    } else {
        lemma_strip_nl_no_newline(s.drop_first());
        assert forall|i: int| 0 <= i < strip_nl(s).len() implies strip_nl(s)[i] != '\n' by {
            if s[0] == '\n' {
                assert(strip_nl(s)[i] == strip_nl(s.drop_first())[i]);
            } else if i > 0 {
                assert(strip_nl(s)[i] == strip_nl(s.drop_first())[i - 1]);
            }
        }
    }
}

/// Splitting yields at least one line.
pub proof fn lemma_split_nonempty(s: Seq<char>)
    ensures
        split_nl(s).len() >= 1,
    decreases s.len(),
{
    if s.len() == 0 {
    } else {
        lemma_split_nonempty(s.drop_first());
    }
}

/// Appending one repetition at the back.
pub proof fn lemma_repeat_snoc(s: Seq<char>, n: nat)
    ensures
        repeat_seq(s, n + 1) == repeat_seq(s, n) + s,
    decreases n,
{
    if n == 0 {
        assert(repeat_seq(s, 0) == Seq::<char>::empty());
        assert(repeat_seq(s, 1) == s + repeat_seq(s, 0));
        assert(s + Seq::<char>::empty() =~= s);
        assert(repeat_seq(s, 0) + s =~= s);
    } else {
        lemma_repeat_snoc(s, (n - 1) as nat);
        assert(repeat_seq(s, n + 1) == s + (repeat_seq(s, (n - 1) as nat) + s));
        assert(s + (repeat_seq(s, (n - 1) as nat) + s) =~= (s + repeat_seq(s, (n - 1) as nat)) + s);
    }
}

/// Joining after appending one line at the back.
pub proof fn lemma_join_snoc(ls: Seq<Seq<char>>, x: Seq<char>)
    ensures
        ls.len() == 0 ==> join_lines(ls.push(x)) == x,
        ls.len() > 0 ==> join_lines(ls.push(x)) == join_lines(ls) + seq!['\n'] + x,
    decreases ls.len(),
{
    if ls.len() == 0 {
        assert(ls.push(x)[0] == x);
    } else if ls.len() == 1 {
        assert(ls.push(x).drop_first() =~= seq![x]);
        assert(join_lines(seq![x]) == x);
        assert(ls.push(x)[0] == ls[0]);
        assert(join_lines(ls.push(x)) == ls.push(x)[0] + seq!['\n'] + join_lines(
            ls.push(x).drop_first(),
        ));
    } else {
        assert(ls.push(x).drop_first() =~= ls.drop_first().push(x));
        assert(ls.push(x)[0] == ls[0]);
        lemma_join_snoc(ls.drop_first(), x);
        assert(join_lines(ls.push(x)) == ls[0] + seq!['\n'] + (join_lines(ls.drop_first()) + seq!['\n'] + x));
        assert(ls[0] + seq!['\n'] + (join_lines(ls.drop_first()) + seq!['\n'] + x) =~= (ls[0]
            + seq!['\n'] + join_lines(ls.drop_first())) + seq!['\n'] + x);
    }
}

/// Leading whitespace of length `a` is exactly what `trim_start` removes.
pub proof fn lemma_trim_start_skip(s: Seq<char>, a: int)
    requires
        0 <= a <= s.len(),
        forall|j: int| 0 <= j < a ==> is_ws(#[trigger] s[j]),
        a == s.len() || !is_ws(s[a]),
    ensures
        trim_start(s) == s.skip(a),
    decreases a,
{
    if a == 0 {
        assert(s.skip(0) =~= s);
    } else {
        assert(is_ws(s[0]));
        assert(forall|j: int| 0 <= j < a - 1 ==> is_ws(#[trigger] s.drop_first()[j]));
        lemma_trim_start_skip(s.drop_first(), a - 1);
        assert(s.drop_first().skip(a - 1) =~= s.skip(a));
    }
}

/// Trailing whitespace from position `b` on is exactly what `trim_end` removes.
pub proof fn lemma_trim_end_take(s: Seq<char>, b: int)
    requires
        0 <= b <= s.len(),
        forall|j: int| b <= j < s.len() ==> is_ws(#[trigger] s[j]),
        b == 0 || !is_ws(s[b - 1]),
    ensures
        trim_end(s) == s.take(b),
    decreases s.len(),
{
    if b == s.len() {
        assert(s.take(b) =~= s);
    } else {
        assert(is_ws(s.last()));
        assert(forall|j: int| b <= j < s.drop_last().len() ==> is_ws(#[trigger] s.drop_last()[j]));
        lemma_trim_end_take(s.drop_last(), b);
        assert(s.drop_last().take(b) =~= s.take(b));
    }
}

// ---------------------------------------------------------------------------
// Executable functions
// ---------------------------------------------------------------------------

/// Relies on `String::push`: appends the one character to the string.
#[verifier::external_body]
pub fn push_char(s: &mut String, c: char)
    ensures
        final(s)@ == old(s)@.push(c),
{
    s.push(c);
}

/// Character-for-character equality of two string slices.
pub fn str_eq(a: &str, b: &str) -> (r: bool)
    ensures
        r == (a@ == b@),
{
    let la = a.unicode_len();
    let lb = b.unicode_len();
    if la != lb {
        proof {
            if a@ == b@ {
                assert(a@.len() == b@.len());
            }
        }
        return false;
    }
    let mut i: usize = 0;
    while i < la
        invariant
            la == a@.len(),
            la == b@.len(),
            i <= la,
            forall|j: int| 0 <= j < i ==> a@[j] == b@[j],
        decreases la - i,
    {
        if a.get_char(i) != b.get_char(i) {
            return false;
        }
        i = i + 1;
    }
    proof {
        assert(a@ =~= b@);
    }
    true
}

/// The characters of a string slice, in order.
pub fn str_to_chars(s: &str) -> (r: Vec<char>)
    ensures
        r@ == s@,
{
    let n = s.unicode_len();
    let mut v: Vec<char> = Vec::new();
    let mut i: usize = 0;
    while i < n
        invariant
            n == s@.len(),
            i <= n,
            v@ == s@.take(i as int),
        decreases n - i,
    {
        v.push(s.get_char(i));
        i = i + 1;
        proof {
            assert(v@ =~= s@.take(i as int));
        }
    }
    proof {
        assert(s@.take(n as int) =~= s@);
    }
    v
}

/// Appends every character of `v` to the string.
pub fn append_chars(s: &mut String, v: &Vec<char>)
    ensures
        final(s)@ == old(s)@ + v@,
{
    let mut i: usize = 0;
    while i < v.len()
        invariant
            i <= v@.len(),
            s@ == old(s)@ + v@.take(i as int),
        decreases v@.len() - i,
    {
        push_char(s, v[i]);
        i = i + 1;
        proof {
            assert(old(s)@ + v@.take(i - 1) + seq![v@[i - 1]] =~= old(s)@ + v@.take(i as int));
        }
    }
    proof {
        assert(old(s)@ + v@.take(v@.len() as int) =~= old(s)@ + v@);
    }
}

/// The string holding exactly the characters of `v`.
pub fn chars_to_string(v: &Vec<char>) -> (r: String)
    ensures
        r@ == v@,
{
    let mut s = String::new();
    append_chars(&mut s, v);
    proof {
        assert(Seq::<char>::empty() + v@ =~= v@);
    }
    s
}

/// Appends every character of `add` to `out`.
pub fn append_to(out: &mut Vec<char>, add: &Vec<char>)
    ensures
        final(out)@ == old(out)@ + add@,
{
    let mut i: usize = 0;
    while i < add.len()
        invariant
            i <= add@.len(),
            out@ == old(out)@ + add@.take(i as int),
        decreases add@.len() - i,
    {
        out.push(add[i]);
        i = i + 1;
        proof {
            assert(old(out)@ + add@.take(i - 1) + seq![add@[i - 1]] =~= old(out)@ + add@.take(
                i as int,
            ));
        }
    }
    proof {
        assert(old(out)@ + add@.take(add@.len() as int) =~= old(out)@ + add@);
    }
}

/// The characters of `v` from position `a` up to position `b`.
pub fn sub_vec(v: &Vec<char>, a: usize, b: usize) -> (r: Vec<char>)
    requires
        a <= b <= v@.len(),
    ensures
        r@ == v@.subrange(a as int, b as int),
{
    let mut r: Vec<char> = Vec::new();
    let mut i: usize = a;
    while i < b
        invariant
            a <= i <= b <= v@.len(),
            r@ == v@.subrange(a as int, i as int),
        decreases b - i,
    {
        r.push(v[i]);
        i = i + 1;
        proof {
            assert(v@.subrange(a as int, i - 1).push(v@[i - 1]) =~= v@.subrange(a as int, i as int));
        }
    }
    r
}

/// Whether `pat` occurs in `v` starting exactly at position `i`.
pub fn matches_at(v: &Vec<char>, pat: &Vec<char>, i: usize) -> (r: bool)
    requires
        i + pat@.len() <= v@.len(),
    ensures
        r == (v@.subrange(i as int, i as int + pat@.len() as int) == pat@),
{
    let n = v.len();
    let m = pat.len();
    let mut j: usize = 0;
    while j < m
        invariant
            n == v@.len(),
            m == pat@.len(),
            i + m <= n,
            j <= m,
            forall|k: int| 0 <= k < j ==> v@[i + k] == pat@[k],
        decreases m - j,
    {
        if v[i + j] != pat[j] {
            proof {
                assert(v@.subrange(i as int, i as int + m as int)[j as int] != pat@[j as int]);
            }
            return false;
        }
        j = j + 1;
    }
    proof {
        assert(v@.subrange(i as int, i as int + m as int) =~= pat@);
    }
    true
}

/// Whether `pat` occurs anywhere in `v`.
pub fn contains_pat(v: &Vec<char>, pat: &Vec<char>) -> (r: bool)
    requires
        pat@.len() > 0,
    ensures
        r == contains_sub(v@, pat@),
{
    let m = pat.len();
    if v.len() < m {
        proof {
            assert(forall|i: int| !occurs_at(v@, pat@, i));
        }
        return false;
    }
    let last = v.len() - m;
    let mut i: usize = 0;
    while i <= last
        invariant
            m == pat@.len(),
            m >= 1,
            m <= v@.len(),
            v@.len() <= usize::MAX,
            last == v@.len() - m,
            i <= last + 1,
            forall|k: int| 0 <= k < i ==> !occurs_at(v@, pat@, k),
        decreases last + 1 - i,
    {
        if matches_at(v, pat, i) {
            proof {
                assert(occurs_at(v@, pat@, i as int));
            }
            return true;
        }
        i = i + 1;
    }
    proof {
        assert(forall|k: int| !occurs_at(v@, pat@, k));
    }
    false
}

/// The number of non-overlapping occurrences of `pat` in `v`.
pub fn count_pat(v: &Vec<char>, pat: &Vec<char>) -> (r: usize)
    requires
        pat@.len() > 0,
    ensures
        r == count_occ(v@, pat@),
{
    let m = pat.len();
    let mut count: usize = 0;
    let mut i: usize = 0;
    proof {
        assert(v@.skip(0) =~= v@);
    }
    while i < v.len()
        invariant
            m == pat@.len(),
            m > 0,
            i <= v@.len(),
            count <= i,
            count_occ(v@, pat@) == count + count_occ(v@.skip(i as int), pat@),
        decreases v@.len() - i,
    {
        if v.len() - i >= m && matches_at(v, pat, i) {
            proof {
                lemma_skip_parts(v@, i as int, m as int);
            }
            count = count + 1;
            i = i + m;
        } else {
            proof {
                lemma_skip_succ(v@, i as int);
                if v@.len() - i >= m {
                    lemma_skip_parts(v@, i as int, m as int);
                }
            }
            i = i + 1;
        }
    }
    proof {
        assert(v@.skip(v@.len() as int) =~= Seq::<char>::empty());
    }
    count
}

/// `v` with every occurrence of `pat` replaced by `rep`.
pub fn replace_all(v: &Vec<char>, pat: &Vec<char>, rep: &Vec<char>) -> (r: Vec<char>)
    requires
        pat@.len() > 0,
    ensures
        r@ == replaced(v@, pat@, rep@),
{
    let m = pat.len();
    let mut out: Vec<char> = Vec::new();
    let mut i: usize = 0;
    proof {
        assert(v@.skip(0) =~= v@);
        assert(Seq::<char>::empty() + replaced(v@, pat@, rep@) =~= replaced(v@, pat@, rep@));
    }
    while i < v.len()
        invariant
            m == pat@.len(),
            m > 0,
            i <= v@.len(),
            replaced(v@, pat@, rep@) == out@ + replaced(v@.skip(i as int), pat@, rep@),
        decreases v@.len() - i,
    {
        let ghost pre = out@;
        if v.len() - i >= m && matches_at(v, pat, i) {
            proof {
                lemma_skip_parts(v@, i as int, m as int);
            }
            append_to(&mut out, rep);
            i = i + m;
            proof {
                assert((pre + rep@) + replaced(v@.skip(i as int), pat@, rep@) =~= pre + (rep@
                    + replaced(v@.skip(i as int), pat@, rep@)));
            }
        } else {
            proof {
                lemma_skip_succ(v@, i as int);
                if v@.len() - i >= m {
                    lemma_skip_parts(v@, i as int, m as int);
                } else {
                    assert(v@.skip(i as int) =~= seq![v@[i as int]] + v@.skip(i + 1));
                    assert(v@.skip(i + 1).len() < m);
                }
            }
            out.push(v[i]);
            i = i + 1;
            proof {
                assert(out@ =~= pre + seq![v@[i - 1]]);
                assert((pre + seq![v@[i - 1]]) + replaced(v@.skip(i as int), pat@, rep@) =~= pre + (
                seq![v@[i - 1]] + replaced(v@.skip(i as int), pat@, rep@)));
            }
        }
    }
    proof {
        assert(v@.skip(v@.len() as int) =~= Seq::<char>::empty());
        assert(out@ + Seq::<char>::empty() =~= out@);
    }
    out
}

/// `s` repeated `n` times.
pub fn repeat_chars(s: &Vec<char>, n: usize) -> (r: Vec<char>)
    ensures
        r@ == repeat_seq(s@, n as nat),
{
    let mut out: Vec<char> = Vec::new();
    let mut j: usize = 0;
    while j < n
        invariant
            j <= n,
            out@ == repeat_seq(s@, j as nat),
        decreases n - j,
    {
        append_to(&mut out, s);
        proof {
            lemma_repeat_snoc(s@, j as nat);
        }
        j = j + 1;
    }
    out
}

/// `v` with every newline character removed.
pub fn strip_newlines(v: &Vec<char>) -> (r: Vec<char>)
    ensures
        r@ == strip_nl(v@),
{
    let mut out: Vec<char> = Vec::new();
    let mut i: usize = 0;
    proof {
        assert(v@.skip(0) =~= v@);
        assert(Seq::<char>::empty() + strip_nl(v@) =~= strip_nl(v@));
    }
    while i < v.len()
        invariant
            i <= v@.len(),
            strip_nl(v@) == out@ + strip_nl(v@.skip(i as int)),
        decreases v@.len() - i,
    {
        let ghost pre = out@;
        let c = v[i];
        proof {
            lemma_skip_succ(v@, i as int);
        }
        if c != '\n' {
            out.push(c);
        }
        i = i + 1;
        proof {
            if c != '\n' {
                assert(out@ =~= pre + seq![c]);
                assert((pre + seq![c]) + strip_nl(v@.skip(i as int)) =~= pre + (seq![c] + strip_nl(
                    v@.skip(i as int),
                )));
            }
        }
    }
    proof {
        assert(v@.skip(v@.len() as int) =~= Seq::<char>::empty());
        assert(out@ + Seq::<char>::empty() =~= out@);
    }
    out
}

/// `v` without leading and trailing whitespace.
pub fn trim_chars(v: &Vec<char>) -> (r: Vec<char>)
    ensures
        r@ == trimmed(v@),
{
    let n = v.len();
    let mut a: usize = 0;
    while a < n && is_ws_char(v[a])
        invariant
            n == v@.len(),
            a <= n,
            forall|j: int| 0 <= j < a ==> is_ws(#[trigger] v@[j]),
        decreases n - a,
    {
        a = a + 1;
    }
    proof {
        lemma_trim_start_skip(v@, a as int);
    }
    if a == n {
        proof {
            assert(v@.skip(a as int) =~= Seq::<char>::empty());
        }
        let r: Vec<char> = Vec::new();
        return r;
    }
    let mut b: usize = n - 1;
    while b > a && is_ws_char(v[b])
        invariant
            n == v@.len(),
            a <= b < n,
            forall|j: int| b < j < n ==> is_ws(#[trigger] v@[j]),
        decreases b,
    {
        b = b - 1;
    }
    // v[b] is not whitespace: either the loop stopped on it, or b == a.
    proof {
        let t = v@.skip(a as int);
        assert(forall|j: int| (b + 1 - a) <= j < t.len() ==> is_ws(#[trigger] t[j]));
        assert(!is_ws(t[b - a]));
        lemma_trim_end_take(t, b + 1 - a);
        assert(t.take(b + 1 - a) =~= v@.subrange(a as int, b + 1));
    }
    sub_vec(v, a, b + 1)
}

/// Whether the character is trimmed whitespace.
pub fn is_ws_char(c: char) -> (r: bool)
    ensures
        r == is_ws(c),
{
    c == ' ' || c == '\t' || c == '\n' || c == '\r' || c == '\u{b}' || c == '\u{c}'
}

/// The lines of `v`, split on `'\n'`.
pub fn split_lines(v: &Vec<char>) -> (r: Vec<Vec<char>>)
    ensures
        r@.map_values(|l: Vec<char>| l@) == split_nl(v@),
        r@.len() >= 1,
{
    let mut done: Vec<Vec<char>> = Vec::new();
    let mut cur: Vec<char> = Vec::new();
    let mut i: usize = 0;
    proof {
        assert(v@.skip(0) =~= v@);
        lemma_split_nonempty(v@);
        assert(done@.map_values(|l: Vec<char>| l@) =~= Seq::<Seq<char>>::empty());
        assert(done@.map_values(|l: Vec<char>| l@) + (seq![cur@ + split_nl(v@)[0]] + split_nl(
            v@,
        ).drop_first()) =~~= split_nl(v@));
    }
    while i < v.len()
        invariant
            i <= v@.len(),
            split_nl(v@.skip(i as int)).len() >= 1,
            split_nl(v@) == done@.map_values(|l: Vec<char>| l@) + (seq![cur@ + split_nl(
                v@.skip(i as int),
            )[0]] + split_nl(v@.skip(i as int)).drop_first()),
        decreases v@.len() - i,
    {
        let ghost pre_done = done@;
        let ghost pre_cur = cur@;
        let ghost ri = split_nl(v@.skip(i as int));
        let ghost rn = split_nl(v@.skip(i + 1));
        let c = v[i];
        proof {
            lemma_skip_succ(v@, i as int);
            lemma_split_nonempty(v@.skip(i + 1));
        }
        if c == '\n' {
            done.push(cur);
            cur = Vec::new();
            proof {
                assert(ri == seq![Seq::<char>::empty()] + rn);
                assert(ri[0] =~= Seq::<char>::empty());
                assert(pre_cur + ri[0] =~= pre_cur);
                assert(ri.drop_first() =~= rn);
                assert(done@.map_values(|l: Vec<char>| l@) =~= pre_done.map_values(
                    |l: Vec<char>| l@,
                ).push(pre_cur));
                assert(pre_done.map_values(|l: Vec<char>| l@) + (seq![pre_cur + ri[0]]
                    + ri.drop_first()) =~= done@.map_values(|l: Vec<char>| l@) + (seq![cur@
                    + rn[0]] + rn.drop_first()));
            }
        } else {
            cur.push(c);
            proof {
                assert(ri == seq![seq![v@[i as int]] + rn[0]] + rn.drop_first());
                assert(cur@ =~= pre_cur + seq![c]);
                assert(pre_cur + (seq![c] + rn[0]) =~= (pre_cur + seq![c]) + rn[0]);
                assert(pre_cur + ri[0] =~= cur@ + rn[0]);
                assert(ri.drop_first() =~= rn.drop_first());
                assert(pre_done.map_values(|l: Vec<char>| l@) + (seq![pre_cur + ri[0]]
                    + ri.drop_first()) =~= done@.map_values(|l: Vec<char>| l@) + (seq![cur@
                    + rn[0]] + rn.drop_first()));
            }
        }
        i = i + 1;
    }
    proof {
        assert(v@.skip(v@.len() as int) =~= Seq::<char>::empty());
        let re = split_nl(Seq::<char>::empty());
        assert(re == seq![Seq::<char>::empty()]);
        assert(cur@ + re[0] =~= cur@);
        assert(re.drop_first() =~= Seq::<Seq<char>>::empty());
        assert(seq![cur@] + Seq::<Seq<char>>::empty() =~= seq![cur@]);
    }
    let ghost pre_done = done@;
    done.push(cur);
    proof {
        assert(done@.map_values(|l: Vec<char>| l@) =~= pre_done.map_values(|l: Vec<char>| l@).push(
            done@[done@.len() - 1]@,
        ));
        assert(done@.map_values(|l: Vec<char>| l@) =~= split_nl(v@));
    }
    done
}

} // verus!
