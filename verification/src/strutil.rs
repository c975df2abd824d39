//! Verified string helpers shared by the configuration model, the rule
//! engine, the orchestrator's path resolution and the shell probe's framing.
//!
//! Logic works over `Vec<char>` (viewed as `Seq<char>`), converting to and
//! from `String` at the edges.

use vstd::prelude::*;

verus! {

/// Relies on String::push: appends exactly the one character.
#[verifier::external_body]
pub fn push_char(s: &mut String, c: char)
    ensures
        final(s)@ == old(s)@.push(c),
{
    s.push(c)
}

/// Builds a `String` holding exactly the given characters.
pub fn chars_to_string(v: &Vec<char>) -> (r: String)
    ensures
        r@ == v@,
{
    let mut r = String::new();
    let mut i: usize = 0;
    while i < v.len()
        invariant
            i <= v.len(),
            r@ == v@.subrange(0, i as int),
        decreases v.len() - i,
    {
        push_char(&mut r, v[i]);
        i = i + 1;
        assert(r@ =~= v@.subrange(0, i as int));
    }
    assert(v@.subrange(0, v.len() as int) =~= v@);
    r
}

/// Collects the characters of a `&str` into a `Vec<char>`.
pub fn str_to_chars(s: &str) -> (r: Vec<char>)
    ensures
        r@ == s@,
{
    let n = s.unicode_len();
    let mut r: Vec<char> = Vec::new();
    let mut i: usize = 0;
    while i < n
        invariant
            i <= n,
            n == s@.len(),
            r@ == s@.subrange(0, i as int),
        decreases n - i,
    {
        r.push(s.get_char(i));
        i = i + 1;
        assert(r@ =~= s@.subrange(0, i as int));
    }
    assert(s@.subrange(0, n as int) =~= s@);
    r
}

/// The character for a single decimal digit.
pub open spec fn digit_char(d: nat) -> char {
    if d == 0 { '0' }
    else if d == 1 { '1' }
    else if d == 2 { '2' }
    else if d == 3 { '3' }
    else if d == 4 { '4' }
    else if d == 5 { '5' }
    else if d == 6 { '6' }
    else if d == 7 { '7' }
    else if d == 8 { '8' }
    else { '9' }
}

/// The decimal representation of `n`, most significant digit first.
pub open spec fn dec_digits(n: nat) -> Seq<char>
    decreases n,
{
    if n < 10 {
        seq![digit_char(n)]
    } else {
        dec_digits(n / 10).push(digit_char(n % 10))
    }
}

fn digit_to_char(d: u64) -> (c: char)
    requires
        d < 10,
    ensures
        c == digit_char(d as nat),
{
    if d == 0 { '0' }
    else if d == 1 { '1' }
    else if d == 2 { '2' }
    else if d == 3 { '3' }
    else if d == 4 { '4' }
    else if d == 5 { '5' }
    else if d == 6 { '6' }
    else if d == 7 { '7' }
    else if d == 8 { '8' }
    else { '9' }
}

/// Renders `n` in decimal.
pub fn u64_to_string(n: u64) -> (r: String)
    ensures
        r@ == dec_digits(n as nat),
{
    let mut rev: Vec<char> = Vec::new();
    let mut m: u64 = n;
    while m >= 10
        invariant
            dec_digits(n as nat) == dec_digits(m as nat) + rev@.reverse(),
        decreases m,
    {
        let d = m % 10;
        proof {
            assert(dec_digits(m as nat) == dec_digits(m as nat / 10).push(digit_char(m as nat % 10)));
            assert(dec_digits(m as nat / 10) + rev@.push(digit_char(m as nat % 10)).reverse()
                =~= dec_digits(m as nat) + rev@.reverse());
        }
        rev.push(digit_to_char(d));
        m = m / 10;
    }
    let mut chars: Vec<char> = Vec::new();
    chars.push(digit_to_char(m));
    assert(chars@ =~= dec_digits(m as nat));
    let mut i: usize = rev.len();
    while i > 0
        invariant
            i <= rev.len(),
            chars@ == dec_digits(m as nat) + rev@.subrange(i as int, rev.len() as int).reverse(),
        decreases i,
    {
        i = i - 1;
        chars.push(rev[i]);
        proof {
            assert(rev@.subrange(i as int, rev.len() as int).reverse()
                =~= rev@.subrange(i + 1, rev.len() as int).reverse().push(rev@[i as int]));
        }
        assert(chars@ =~= dec_digits(m as nat) + rev@.subrange(i as int, rev.len() as int).reverse());
    }
    proof {
        assert(rev@.subrange(0, rev.len() as int) =~= rev@);
        assert(chars@ =~= dec_digits(n as nat));
    }
    chars_to_string(&chars)
}

/// Renders `n` in decimal.
pub fn u32_to_string(n: u32) -> (r: String)
    ensures
        r@ == dec_digits(n as nat),
{
    u64_to_string(n as u64)
}

/// Pushing onto a vector pushes the element's deep view onto the deep view.
pub proof fn lemma_deep_view_push<T: DeepView>(v1: Vec<T>, v2: Vec<T>, x: T)
    requires
        v2@ == v1@.push(x),
    ensures
        v2.deep_view() =~= v1.deep_view().push(x.deep_view()),
{
    assert(v2.deep_view().len() == v1.deep_view().len() + 1);
    assert forall|j: int| 0 <= j < v2.deep_view().len() implies v2.deep_view()[j]
        == v1.deep_view().push(x.deep_view())[j] by {
        if j < v1@.len() {
            assert(v2@[j] == v1@[j]);
        } else {
            assert(v2@[j] == x);
        }
    }
}

/// The parts joined with the separator between consecutive parts.
pub open spec fn join_sep(parts: Seq<Seq<char>>, sep: Seq<char>) -> Seq<char>
    decreases parts.len(),
{
    if parts.len() == 0 {
        Seq::<char>::empty()
    } else if parts.len() == 1 {
        parts[0]
    } else {
        parts[0] + sep + join_sep(parts.subrange(1, parts.len() as int), sep)
    }
}

/// Appending one more part to a join appends a separator and the part.
pub proof fn lemma_join_sep_push(parts: Seq<Seq<char>>, x: Seq<char>, sep: Seq<char>)
    ensures
        join_sep(parts.push(x), sep) == if parts.len() == 0 {
            x
        } else {
            join_sep(parts, sep) + sep + x
        },
    decreases parts.len(),
{
    let p = parts.push(x);
    if parts.len() == 0 {
        assert(p.len() == 1);
        assert(join_sep(p, sep) == p[0]);
        assert(p[0] == x);
    } else {
        assert(p.len() >= 2);
        assert(join_sep(p, sep) == p[0] + sep + join_sep(p.subrange(1, p.len() as int), sep));
        assert(p.subrange(1, p.len() as int) =~= parts.subrange(1, parts.len() as int).push(x));
        lemma_join_sep_push(parts.subrange(1, parts.len() as int), x, sep);
        if parts.len() == 1 {
            assert(parts.subrange(1, parts.len() as int).len() == 0);
            assert(join_sep(p, sep) == parts[0] + sep + x);
            assert(join_sep(parts, sep) == parts[0]);
        } else {
            assert(join_sep(p, sep) == parts[0] + sep + (join_sep(
                parts.subrange(1, parts.len() as int),
                sep,
            ) + sep + x));
            assert(parts[0] + sep + (join_sep(parts.subrange(1, parts.len() as int), sep) + sep + x)
                =~= (parts[0] + sep + join_sep(parts.subrange(1, parts.len() as int), sep)) + sep
                + x);
        }
    }
}

/// The whitespace characters that path trimming removes.
pub open spec fn is_space_char(c: char) -> bool {
    c == ' ' || c == '\t' || c == '\n' || c == '\r'
}

/// `s` with leading whitespace removed.
pub open spec fn trim_front(s: Seq<char>) -> Seq<char>
    decreases s.len(),
{
    if s.len() > 0 && is_space_char(s[0]) {
        trim_front(s.subrange(1, s.len() as int))
    } else {
        s
    }
}

/// `s` with trailing whitespace removed.
pub open spec fn trim_back(s: Seq<char>) -> Seq<char>
    decreases s.len(),
{
    if s.len() > 0 && is_space_char(s[s.len() - 1]) {
        trim_back(s.drop_last())
    } else {
        s
    }
}

/// `s` with surrounding whitespace removed.
pub open spec fn trim_spec(s: Seq<char>) -> Seq<char> {
    trim_back(trim_front(s))
}

/// The characters of `v` from `a` (inclusive) to `b` (exclusive).
pub fn subvec(v: &Vec<char>, a: usize, b: usize) -> (r: Vec<char>)
    requires
        a <= b <= v@.len(),
    ensures
        r@ == v@.subrange(a as int, b as int),
{
    let mut r: Vec<char> = Vec::new();
    let mut i: usize = a;
    while i < b
        invariant
            a <= i <= b <= v@.len(),
            r@ == v@.subrange(a as int, i as int),
        decreases b - i,
    {
        r.push(v[i]);
        i = i + 1;
        assert(r@ =~= v@.subrange(a as int, i as int));
    }
    r
}

/// Removes surrounding whitespace.
pub fn trim_chars(v: &Vec<char>) -> (r: Vec<char>)
    ensures
        r@ == trim_spec(v@),
{
    let mut start: usize = 0;
    proof {
        assert(v@.subrange(0, v@.len() as int) =~= v@);
    }
    while start < v.len() && is_space(v[start])
        invariant
            start <= v@.len(),
            trim_front(v@) == trim_front(v@.subrange(start as int, v@.len() as int)),
        decreases v.len() - start,
    {
        proof {
            let cur = v@.subrange(start as int, v@.len() as int);
            assert(cur[0] == v@[start as int]);
            assert(cur.subrange(1, cur.len() as int) =~= v@.subrange(
                start + 1,
                v@.len() as int,
            ));
        }
        start = start + 1;
    }
    proof {
        let cur = v@.subrange(start as int, v@.len() as int);
        if start < v@.len() {
            assert(!is_space_char(cur[0]));
        }
        assert(trim_front(v@) == cur);
    }
    let mut end: usize = v.len();
    while end > start && is_space(v[end - 1])
        invariant
            start <= end <= v@.len(),
            trim_back(v@.subrange(start as int, v@.len() as int)) == trim_back(
                v@.subrange(start as int, end as int),
            ),
        decreases end,
    {
        proof {
            let cur = v@.subrange(start as int, end as int);
            assert(cur[cur.len() - 1] == v@[end - 1]);
            assert(cur.drop_last() =~= v@.subrange(start as int, end - 1));
        }
        end = end - 1;
    }
    proof {
        let cur = v@.subrange(start as int, end as int);
        if end > start {
            assert(!is_space_char(cur[cur.len() - 1]));
        }
        assert(trim_spec(v@) == cur);
    }
    subvec(v, start, end)
}

fn is_space(c: char) -> (r: bool)
    ensures
        r == is_space_char(c),
{
    c == ' ' || c == '\t' || c == '\n' || c == '\r'
}

/// Whether `c` occurs in `v`.
pub fn contains_char(v: &Vec<char>, c: char) -> (r: bool)
    ensures
        r == v@.contains(c),
{
    let mut i: usize = 0;
    while i < v.len()
        invariant
            i <= v@.len(),
            forall|k: int| 0 <= k < i ==> v@[k] != c,
        decreases v.len() - i,
    {
        if v[i] == c {
            assert(v@.contains(c));
            return true;
        }
        i = i + 1;
    }
    assert(!v@.contains(c));
    false
}

/// The index of the first occurrence of `c` in `s`, or -1 if `c` is absent.
pub open spec fn find_index(s: Seq<char>, c: char) -> int
    decreases s.len(),
{
    if s.len() == 0 {
        -1
    } else if s[0] == c {
        0
    } else {
        let r = find_index(s.subrange(1, s.len() as int), c);
        if r < 0 {
            -1
        } else {
            r + 1
        }
    }
}

/// `find_index` returns the position of the first occurrence.
pub proof fn lemma_find_index_at(s: Seq<char>, c: char, j: int)
    requires
        0 <= j < s.len(),
        s[j] == c,
        forall|k: int| 0 <= k < j ==> s[k] != c,
    ensures
        find_index(s, c) == j,
    decreases j,
{
    if j > 0 {
        let t = s.subrange(1, s.len() as int);
        assert(forall|k: int| 0 <= k < j - 1 ==> t[k] == s[k + 1] && t[k] != c);
        assert(t[j - 1] == c);
        lemma_find_index_at(t, c, j - 1);
    }
}

/// `find_index` returns -1 exactly when `c` is absent.
pub proof fn lemma_find_index_none(s: Seq<char>, c: char)
    requires
        forall|k: int| 0 <= k < s.len() ==> s[k] != c,
    ensures
        find_index(s, c) == -1,
    decreases s.len(),
{
    if s.len() > 0 {
        let t = s.subrange(1, s.len() as int);
        assert(forall|k: int| 0 <= k < t.len() ==> t[k] == s[k + 1] && t[k] != c);
        lemma_find_index_none(t, c);
    }
}

/// Joins the strings with `sep` between consecutive entries.
pub fn join_with_sep(parts: &Vec<String>, sep: &str) -> (r: String)
    ensures
        r@ == join_sep(parts.deep_view(), sep@),
{
    let mut r = String::new();
    let mut i: usize = 0;
    while i < parts.len()
        invariant
            i <= parts.len(),
            r@ == join_sep(parts.deep_view().subrange(0, i as int), sep@),
        decreases parts.len() - i,
    {
        if i > 0 {
            r.append(sep);
        }
        let p = &parts[i];
        r.append(p.as_str());
        proof {
            let pre = parts.deep_view().subrange(0, i as int);
            lemma_join_sep_push(pre, parts.deep_view()[i as int], sep@);
            assert(pre.push(parts.deep_view()[i as int]) =~= parts.deep_view().subrange(
                0,
                i + 1,
            ));
        }
        i = i + 1;
    }
    proof {
        assert(parts.deep_view().subrange(0, parts.len() as int) =~= parts.deep_view());
    }
    r
}

/// Joins the strings with a single space between consecutive entries.
pub fn join_with_spaces(parts: &Vec<String>) -> (r: String)
    ensures
        r@ == join_sep(parts.deep_view(), " "@),
{
    join_with_sep(parts, " ")
}

} // verus!
